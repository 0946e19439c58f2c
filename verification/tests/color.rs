use fathom::color::{map_into, Color, ColorMap};

#[test]
fn channels_are_rgba_in_memory() {
    assert_eq!(Color::rgba(1, 2, 3, 4).channels(), [1, 2, 3, 4]);
    assert_eq!(Color::rgba(1, 2, 3, 4).0, 0x0102_0304);
}

#[test]
fn rgb_is_opaque_and_matches_the_named_colors() {
    assert_eq!(Color::rgb(255, 0, 0), Color::red());
    assert_eq!(Color::rgb(0, 0, 0), Color::black());
    assert_eq!(Color::rgb(255, 255, 255), Color::white());
    assert_eq!(Color::rgb(128, 128, 128), Color::gray());
    assert_eq!(Color::red().channels(), [255, 0, 0, 255]);
    assert_eq!(Color::transparent().channels(), [0, 0, 0, 0]);
    assert_eq!(Color::cyan().channels(), [0, 255, 255, 255]);
}

#[test]
fn channels_round_trip_through_from() {
    let c = Color(0xDEAD_BEEF);
    assert_eq!(Color::from(c.channels()), c);
    assert_eq!(Color::from([9u8, 8, 7, 6]).channels(), [9, 8, 7, 6]);
    assert_eq!(Color::from(0x1122_3344u32), Color(0x1122_3344));
}

#[test]
fn ramps_are_found_by_name_in_any_case() {
    assert_eq!(ColorMap::from_name("turbo"), Some(ColorMap::Turbo));
    assert_eq!(ColorMap::from_name("Viridis"), Some(ColorMap::Viridis));
    assert_eq!(ColorMap::from_name("MAGMA"), Some(ColorMap::Magma));
    assert_eq!(ColorMap::from_name("grey"), Some(ColorMap::Grey));
    assert_eq!(ColorMap::from_name("Gray"), Some(ColorMap::Grey));
    assert_eq!(ColorMap::from_name("coolWarm"), Some(ColorMap::Coolwarm));
    assert_eq!(ColorMap::from_name("jet"), None);
    assert_eq!(ColorMap::from_name("turbo "), None);
    assert_eq!(ColorMap::from_name(""), None);
    assert_eq!(ColorMap::default(), ColorMap::Turbo);
}

#[test]
fn map_into_takes_the_shorter_slice() {
    let grey = |v: &f32| {
        let t = v.clamp(0.0, 1.0);
        let q = (t * 255.0 + 0.5) as u8;
        Color::rgb(q, q, q)
    };
    let mut out = [Color::transparent(); 4];
    map_into(&[1.0f32], &mut out, &grey);
    assert_eq!(out[0], Color::white());
    assert_eq!(out[3], Color::transparent());
    map_into(&[1.0f32; 99], &mut out, &grey);
    assert_eq!(out[3], Color::white());
    let mut none: [Color; 0] = [];
    map_into(&[0.5f32], &mut none, &grey);
}

#[test]
fn colors_print_as_hex() {
    assert_eq!(Color::red().hex(), "#FF0000FF");
    assert_eq!(Color::rgba(1, 2, 3, 4).hex(), "#01020304");
    assert_eq!(Color(0xDEAD_BEEF).hex(), "#DEADBEEF");
    assert_eq!(Color::transparent().hex(), "#00000000");
}
