//! Resource paths: builds the paths of fonts and sprites under a root
//! directory.  Checking that the files exist on disk is the caller's
//! business; these functions only compute the paths and report a missing
//! file as the caller found it.

use vstd::prelude::*;
use vstd::string::StringExecFns;

verus! {

/// A resource directory.
pub struct Resources {
    root_dir: String,
}

impl Resources {
    pub closed spec fn root_spec(self) -> Seq<char> {
        self.root_dir@
    }

    /// A resource root.  Fails, with a message naming the directory, when
    /// the caller reports that the directory does not exist.
    pub fn new(root_dir: String, root_exists: bool) -> (r: Result<Resources, String>)
        ensures
            r is Ok <==> root_exists,
            r matches Ok(res) ==> res.root_spec() == root_dir@,
            r matches Err(msg) ==> msg@ == "Directory '"@ + root_dir@ + "' has not found"@,
    {
        if !root_exists {
            let mut msg = String::new();
            msg.append("Directory '");
            msg.append(root_dir.as_str());
            msg.append("' has not found");
            proof {
                assert(msg@ =~= "Directory '"@ + root_dir@ + "' has not found"@);
            }
            return Err(msg);
        }
        Ok(Resources { root_dir })
    }

    /// The path of a font file under the root.
    pub fn get_font_path(&self, file_name: &str) -> (r: String)
        ensures
            r@ == self.root_spec() + "/"@ + "fonts"@ + "/"@ + file_name@,
    {
        self.get_path("fonts", file_name)
    }

    /// The path of a sprite file under the root.
    pub fn get_sprite_path(&self, file_name: &str) -> (r: String)
        ensures
            r@ == self.root_spec() + "/"@ + "sprites"@ + "/"@ + file_name@,
    {
        self.get_path("sprites", file_name)
    }

    /// The path of a resource of the given type under the root:
    /// `root/type/name`.
    pub fn get_path(&self, resource_type: &str, file_name: &str) -> (r: String)
        ensures
            r@ == self.root_spec() + "/"@ + resource_type@ + "/"@ + file_name@,
    {
        let mut path = String::new();
        path.append(self.root_dir.as_str());
        path.append("/");
        path.append(resource_type);
        path.append("/");
        path.append(file_name);
        proof {
            assert(path@ =~= self.root_spec() + "/"@ + resource_type@ + "/"@ + file_name@);
        }
        path
    }

    /// The error message for a resource file the caller could not find.
    pub fn missing_file_error(resource_type: &str, file_name: &str) -> (r: String)
        ensures
            r@ == "File "@ + file_name@ + " has not found in "@ + resource_type@ + " resources"@,
    {
        let mut msg = String::new();
        msg.append("File ");
        msg.append(file_name);
        msg.append(" has not found in ");
        msg.append(resource_type);
        msg.append(" resources");
        proof {
            assert(msg@ =~= "File "@ + file_name@ + " has not found in "@ + resource_type@
                + " resources"@);
        }
        msg
    }
}

} // verus!
