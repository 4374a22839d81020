//! Resource path tests, and the terrain profile sampled from real fractal
//! noise feeding a generation.

use noise::MultiFractal;
use noise::NoiseFn;
use noise::Perlin;
use scorched_earth::landscape::Landscape;
use scorched_earth::resources::Resources;

#[test]
fn resource_paths_are_joined_under_the_root() {
    let res = Resources::new(String::from("assets"), true).unwrap();
    assert_eq!(res.get_font_path("DejaVuSerif.ttf"), "assets/fonts/DejaVuSerif.ttf");
    assert_eq!(res.get_sprite_path("tank.png"), "assets/sprites/tank.png");
    assert_eq!(res.get_path("sounds", "explosion1.ogg"), "assets/sounds/explosion1.ogg");
}

#[test]
fn missing_resources_are_reported() {
    let r = Resources::new(String::from("nowhere"), false);
    assert_eq!(r.err().unwrap(), "Directory 'nowhere' has not found");
    let msg = Resources::missing_file_error("sprites", "gun.png");
    assert_eq!(msg, "File gun.png has not found in sprites resources");
}

#[test]
fn noise_profile_generates_contiguous_columns() {
    // the elevation profile the renderer-side collaborator would sample:
    // four octaves of fractal noise, frequency derived from the width
    let width: u16 = 64;
    let height: u16 = 64;
    let fbm = noise::Fbm::<Perlin>::new(7).set_octaves(4).set_frequency(2.0 / width as f64);
    let amplitude_milli: i64 = 500 * height as i64;
    let mut offsets: Vec<i64> = Vec::new();
    for x in 0..width {
        let v = fbm.get([x as f64, 0.0]);
        offsets.push((v * amplitude_milli as f64) as i64);
    }
    let mut l = Landscape::new(width, height).unwrap();
    l.generate(&offsets);
    for x in 0..width as i32 {
        let mut seen = false;
        for y in 0..height as i32 {
            let filled = l.is_not_empty(x, y);
            assert!(!(seen && !filled), "column {} is not one run", x);
            seen = seen || filled;
        }
    }
}
