//! Catppuccin colours and the roles that they play.

use crate::text::{
    all_white, firm_ends, lowered, same_text, to_lower, trim, trimmed,
    trimming_leaves_what_is_between,
};
use vstd::prelude::*;

verus! {

/// A Catppuccin flavor.
#[derive(Clone, Copy, Debug, PartialEq, Eq, Structural)]
pub enum Flavor {
    Mocha,
    Macchiato,
    Frappe,
    Latte,
}

/// The flavor that a text names: whitespace at its ends and the case of its letters
/// do not matter, and any other text names Mocha.
pub open spec fn flavor_named(s: Seq<char>) -> Flavor {
    let name = lowered(trimmed(s));
    if name == "macchiato"@ {
        Flavor::Macchiato
    } else if name == "frappe"@ {
        Flavor::Frappe
    } else if name == "latte"@ {
        Flavor::Latte
    } else {
        Flavor::Mocha
    }
}

impl Flavor {
    /// The flavor that `s` names; Mocha where it names none.
    pub fn parse_lenient(s: &str) -> (r: Flavor)
        ensures
            r == flavor_named(s@),
    {
        let bare = trim(s);
        let name = to_lower(bare.as_str());
        if same_text(name.as_str(), "macchiato") {
            Flavor::Macchiato
        } else if same_text(name.as_str(), "frappe") {
            Flavor::Frappe
        } else if same_text(name.as_str(), "latte") {
            Flavor::Latte
        } else {
            Flavor::Mocha
        }
    }
}

/// A 24-bit colour.
#[derive(Clone, Copy, Debug, PartialEq, Eq, Structural)]
pub struct Color {
    pub r: u8,
    pub g: u8,
    pub b: u8,
}

/// The colours of one flavor, by the role that they play.
#[derive(Clone, Copy, Debug, PartialEq, Eq, Structural)]
pub struct Palette {
    /// The background.
    pub base: Color,
    /// Cells and headers.
    pub text: Color,
    /// Idle rows.
    pub idle: Color,
    /// Busy rows.
    pub busy: Color,
    /// Memory that nears its cap.
    pub warn: Color,
    /// Memory at its cap.
    pub near_cap: Color,
    /// The memory gauge.
    pub gauge: Color,
    /// The status banner.
    pub error: Color,
    /// The title.
    pub accent: Color,
    /// Whether the background is light.
    pub is_light: bool,
}

/// The colour with these three parts.
pub open spec fn rgb(r: u8, g: u8, b: u8) -> Color {
    Color { r, g, b }
}

/// The official colours of each flavor: overlay0 for idle rows, green for busy ones,
/// yellow for warnings, red for the cap and for errors, teal for the gauge and mauve
/// for the title.
pub open spec fn palette_of(flavor: Flavor) -> Palette {
    match flavor {
        Flavor::Mocha => Palette {
            base: rgb(0x1e, 0x1e, 0x2e),
            text: rgb(0xcd, 0xd6, 0xf4),
            idle: rgb(0x6c, 0x70, 0x86),
            busy: rgb(0xa6, 0xe3, 0xa1),
            warn: rgb(0xf9, 0xe2, 0xaf),
            near_cap: rgb(0xf3, 0x8b, 0xa8),
            gauge: rgb(0x94, 0xe2, 0xd5),
            error: rgb(0xf3, 0x8b, 0xa8),
            accent: rgb(0xcb, 0xa6, 0xf7),
            is_light: false,
        },
        Flavor::Macchiato => Palette {
            base: rgb(0x24, 0x27, 0x3a),
            text: rgb(0xca, 0xd3, 0xf5),
            idle: rgb(0x6e, 0x73, 0x8d),
            busy: rgb(0xa6, 0xda, 0x95),
            warn: rgb(0xee, 0xd4, 0x9f),
            near_cap: rgb(0xed, 0x87, 0x96),
            gauge: rgb(0x8b, 0xd5, 0xca),
            error: rgb(0xed, 0x87, 0x96),
            accent: rgb(0xc6, 0xa0, 0xf6),
            is_light: false,
        },
        Flavor::Frappe => Palette {
            base: rgb(0x30, 0x34, 0x46),
            text: rgb(0xc6, 0xd0, 0xf5),
            idle: rgb(0x73, 0x79, 0x94),
            busy: rgb(0xa6, 0xd1, 0x89),
            warn: rgb(0xe5, 0xc8, 0x90),
            near_cap: rgb(0xe7, 0x82, 0x84),
            gauge: rgb(0x81, 0xc8, 0xbe),
            error: rgb(0xe7, 0x82, 0x84),
            accent: rgb(0xca, 0x9e, 0xe6),
            is_light: false,
        },
        Flavor::Latte => Palette {
            base: rgb(0xef, 0xf1, 0xf5),
            text: rgb(0x4c, 0x4f, 0x69),
            idle: rgb(0x9c, 0xa0, 0xb0),
            busy: rgb(0x40, 0xa0, 0x2b),
            warn: rgb(0xdf, 0x8e, 0x1d),
            near_cap: rgb(0xd2, 0x0f, 0x39),
            gauge: rgb(0x17, 0x92, 0x99),
            error: rgb(0xd2, 0x0f, 0x39),
            accent: rgb(0x88, 0x39, 0xef),
            is_light: true,
        },
    }
}

/// No two flavors have the same background.
pub proof fn flavors_have_their_own_background(a: Flavor, b: Flavor)
    ensures
        palette_of(a).base == palette_of(b).base ==> a == b,
{
}

/// In every flavor a busy row, a warning and a full one look different from one
/// another, from an idle row and from the background.
pub proof fn roles_look_different(flavor: Flavor)
    ensures
        ({
            let p = palette_of(flavor);
            &&& p.busy != p.warn && p.warn != p.near_cap && p.busy != p.near_cap
            &&& p.idle != p.busy && p.idle != p.warn && p.idle != p.near_cap
            &&& p.base != p.text && p.base != p.idle && p.base != p.busy && p.base != p.warn
                && p.base != p.near_cap
        }),
{
}

fn color(r: u8, g: u8, b: u8) -> (c: Color)
    ensures
        c == rgb(r, g, b),
{
    Color { r, g, b }
}

impl Palette {
    /// The colours of a flavor.
    pub fn for_flavor(flavor: Flavor) -> (r: Palette)
        ensures
            r == palette_of(flavor),
    {
        match flavor {
            Flavor::Mocha => Palette {
                base: color(0x1e, 0x1e, 0x2e),
                text: color(0xcd, 0xd6, 0xf4),
                idle: color(0x6c, 0x70, 0x86),
                busy: color(0xa6, 0xe3, 0xa1),
                warn: color(0xf9, 0xe2, 0xaf),
                near_cap: color(0xf3, 0x8b, 0xa8),
                gauge: color(0x94, 0xe2, 0xd5),
                error: color(0xf3, 0x8b, 0xa8),
                accent: color(0xcb, 0xa6, 0xf7),
                is_light: false,
            },
            Flavor::Macchiato => Palette {
                base: color(0x24, 0x27, 0x3a),
                text: color(0xca, 0xd3, 0xf5),
                idle: color(0x6e, 0x73, 0x8d),
                busy: color(0xa6, 0xda, 0x95),
                warn: color(0xee, 0xd4, 0x9f),
                near_cap: color(0xed, 0x87, 0x96),
                gauge: color(0x8b, 0xd5, 0xca),
                error: color(0xed, 0x87, 0x96),
                accent: color(0xc6, 0xa0, 0xf6),
                is_light: false,
            },
            Flavor::Frappe => Palette {
                base: color(0x30, 0x34, 0x46),
                text: color(0xc6, 0xd0, 0xf5),
                idle: color(0x73, 0x79, 0x94),
                busy: color(0xa6, 0xd1, 0x89),
                warn: color(0xe5, 0xc8, 0x90),
                near_cap: color(0xe7, 0x82, 0x84),
                gauge: color(0x81, 0xc8, 0xbe),
                error: color(0xe7, 0x82, 0x84),
                accent: color(0xca, 0x9e, 0xe6),
                is_light: false,
            },
            Flavor::Latte => Palette {
                base: color(0xef, 0xf1, 0xf5),
                text: color(0x4c, 0x4f, 0x69),
                idle: color(0x9c, 0xa0, 0xb0),
                busy: color(0x40, 0xa0, 0x2b),
                warn: color(0xdf, 0x8e, 0x1d),
                near_cap: color(0xd2, 0x0f, 0x39),
                gauge: color(0x17, 0x92, 0x99),
                error: color(0xd2, 0x0f, 0x39),
                accent: color(0x88, 0x39, 0xef),
                is_light: true,
            },
        }
    }
}

/// A colour as the number that its six hexadecimal digits write.
pub open spec fn hex(c: Color) -> int {
    c.r * 0x1_0000 + c.g * 0x100 + c.b
}

/// Each role has the colour that the palette's table gives it.
pub proof fn roles_have_their_official_colours(flavor: Flavor)
    ensures
        ({
            let p = palette_of(flavor);
            match flavor {
                Flavor::Mocha => hex(p.base) == 0x1e1e2e && hex(p.text) == 0xcdd6f4 && hex(p.idle)
                    == 0x6c7086 && hex(p.busy) == 0xa6e3a1 && hex(p.warn) == 0xf9e2af && hex(
                    p.near_cap,
                ) == 0xf38ba8 && hex(p.gauge) == 0x94e2d5 && hex(p.accent) == 0xcba6f7,
                Flavor::Macchiato => hex(p.base) == 0x24273a && hex(p.text) == 0xcad3f5 && hex(
                    p.idle,
                ) == 0x6e738d && hex(p.busy) == 0xa6da95 && hex(p.warn) == 0xeed49f && hex(
                    p.near_cap,
                ) == 0xed8796 && hex(p.gauge) == 0x8bd5ca && hex(p.accent) == 0xc6a0f6,
                Flavor::Frappe => hex(p.base) == 0x303446 && hex(p.text) == 0xc6d0f5 && hex(p.idle)
                    == 0x737994 && hex(p.busy) == 0xa6d189 && hex(p.warn) == 0xe5c890 && hex(
                    p.near_cap,
                ) == 0xe78284 && hex(p.gauge) == 0x81c8be && hex(p.accent) == 0xca9ee6,
                Flavor::Latte => hex(p.base) == 0xeff1f5 && hex(p.text) == 0x4c4f69 && hex(p.idle)
                    == 0x9ca0b0 && hex(p.busy) == 0x40a02b && hex(p.warn) == 0xdf8e1d && hex(
                    p.near_cap,
                ) == 0xd20f39 && hex(p.gauge) == 0x179299 && hex(p.accent) == 0x8839ef,
            }
        }),
        palette_of(flavor).error == palette_of(flavor).near_cap,
        palette_of(flavor).is_light <==> flavor is Latte,
{
}

/// A flavor is named by its name, in any case and with whitespace round it; any other text
/// names Mocha.
pub proof fn flavors_are_named_in_any_case(a: Seq<char>, name: Seq<char>, b: Seq<char>)
    requires
        all_white(a),
        all_white(b),
        firm_ends(name),
    ensures
        flavor_named(a + name + b) is Macchiato <==> lowered(name) == "macchiato"@,
        flavor_named(a + name + b) is Frappe <==> lowered(name) == "frappe"@,
        flavor_named(a + name + b) is Latte <==> lowered(name) == "latte"@,
{
    trimming_leaves_what_is_between(a, name, b);
    reveal_strlit("macchiato");
    reveal_strlit("frappe");
    reveal_strlit("latte");
    assert("macchiato"@.len() == 9 && "frappe"@.len() == 6 && "latte"@.len() == 5);
}

} // verus!
