//! Flavors and their colours.

use pitwall::theme::{Color, Flavor, Palette};

#[test]
fn parse_lenient_matches_known_flavors_case_insensitively() {
    assert!(matches!(Flavor::parse_lenient("mocha"), Flavor::Mocha));
    assert!(matches!(Flavor::parse_lenient("MOCHA"), Flavor::Mocha));
    assert!(matches!(
        Flavor::parse_lenient("Macchiato"),
        Flavor::Macchiato
    ));
    assert!(matches!(Flavor::parse_lenient(" frappe "), Flavor::Frappe));
    assert!(matches!(Flavor::parse_lenient("latte"), Flavor::Latte));
}

#[test]
fn parse_lenient_falls_back_to_mocha() {
    assert!(matches!(Flavor::parse_lenient("garbage"), Flavor::Mocha));
    assert!(matches!(Flavor::parse_lenient(""), Flavor::Mocha));
}

#[test]
fn flavors_have_distinct_base_colors() {
    let bases = [
        Palette::for_flavor(Flavor::Mocha).base,
        Palette::for_flavor(Flavor::Macchiato).base,
        Palette::for_flavor(Flavor::Frappe).base,
        Palette::for_flavor(Flavor::Latte).base,
    ];
    for (i, a) in bases.iter().enumerate() {
        for b in &bases[i + 1..] {
            assert_ne!(a, b, "flavor base colors must be distinct");
        }
    }
}

fn rgb(r: u8, g: u8, b: u8) -> Color {
    Color { r, g, b }
}

#[test]
fn colours_are_those_of_the_flavors() {
    let mocha = Palette::for_flavor(Flavor::Mocha);
    assert_eq!(mocha.base, rgb(30, 30, 46));
    assert_eq!(mocha.idle, rgb(108, 112, 134));
    assert_eq!(mocha.warn, rgb(249, 226, 175));
    assert_eq!(mocha.accent, rgb(203, 166, 247));
    let macchiato = Palette::for_flavor(Flavor::Macchiato);
    assert_eq!(macchiato.text, rgb(202, 211, 245));
    assert_eq!(macchiato.near_cap, rgb(237, 135, 150));
    let frappe = Palette::for_flavor(Flavor::Frappe);
    assert_eq!(frappe.gauge, rgb(129, 200, 190));
    assert_eq!(frappe.error, rgb(231, 130, 132));
    let latte = Palette::for_flavor(Flavor::Latte);
    assert_eq!(latte.busy, rgb(64, 160, 43));
    assert_eq!(latte.near_cap, rgb(210, 15, 57));
    assert!(latte.is_light);
    assert!(!mocha.is_light && !macchiato.is_light && !frappe.is_light);
}
