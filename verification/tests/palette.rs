use ptybridge::palette::{resolve, Color};

#[test]
fn default_resolves_to_none() {
    assert_eq!(resolve(Color::Default), None);
}

#[test]
fn truecolor_packs_to_rgb() {
    assert_eq!(resolve(Color::Rgb(0x12, 0x34, 0x56)), Some(0x123456));
}

#[test]
fn indexed_low_matches_ansi() {
    assert_eq!(resolve(Color::Indexed(1)), Some(0x800000));
    assert_eq!(resolve(Color::Indexed(15)), Some(0xffffff));
}

#[test]
fn indexed_cube_endpoints() {
    assert_eq!(resolve(Color::Indexed(16)), Some(0x000000));
    assert_eq!(resolve(Color::Indexed(231)), Some(0xffffff));
}

#[test]
fn indexed_grayscale_ramp() {
    assert_eq!(resolve(Color::Indexed(232)), Some(0x080808));
    assert_eq!(resolve(Color::Indexed(255)), Some(0xeeeeee));
}

#[test]
fn indexed_cube_interior_levels() {
    // Index 16 + 36*1 + 6*2 + 3 = 67: levels 95, 135, 175.
    assert_eq!(resolve(Color::Indexed(67)), Some(0x5f87af));
    // Index 196: pure red in the cube (5, 0, 0).
    assert_eq!(resolve(Color::Indexed(196)), Some(0xff0000));
}

#[test]
fn every_resolved_color_fits_24_bits() {
    for index in 0..=255u8 {
        let rgb = resolve(Color::Indexed(index)).unwrap();
        assert!(rgb <= 0xffffff);
    }
    assert_eq!(resolve(Color::Rgb(0xff, 0xff, 0xff)), Some(0xffffff));
}
