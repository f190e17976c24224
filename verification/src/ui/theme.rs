//! Dark palette and accent colors.
//!
//! Design direction: dark by default, one accent trio matching the tray
//! state colors (green/yellow/red).

use vstd::prelude::*;

use crate::binary32::F32;

verus! {

/// A color of the palette.
#[derive(Debug, Clone, Copy, PartialEq, Eq, Structural)]
pub enum Color {
    Green,
    Yellow,
    Red,
    Background,
    Surface,
    Text,
    TextMuted,
}

pub const GREEN: Color = Color::Green;

pub const YELLOW: Color = Color::Yellow;

pub const RED: Color = Color::Red;

pub const BACKGROUND: Color = Color::Background;

/// Slightly lighter panel color for the meter background and other
/// panel-like surfaces.
pub const SURFACE: Color = Color::Surface;

pub const TEXT: Color = Color::Text;

pub const TEXT_MUTED: Color = Color::TextMuted;

/// Red, green and blue, each from 0 to 1.
#[derive(Debug, Clone, Copy, PartialEq, Eq, Structural)]
pub struct Rgb {
    pub r: F32,
    pub g: F32,
    pub b: F32,
}

/// A color given in steps of `1 / whole`.
pub open spec fn rgb_of(r: int, g: int, b: int, whole: int) -> Rgb {
    Rgb { r: F32::of_ratio(r, whole), g: F32::of_ratio(g, whole), b: F32::of_ratio(b, whole) }
}

fn rgb(r: i32, g: i32, b: i32, whole: i32) -> (c: Rgb)
    ensures
        c == rgb_of(r as int, g as int, b as int, whole as int),
{
    Rgb { r: F32::ratio(r, whole), g: F32::ratio(g, whole), b: F32::ratio(b, whole) }
}

impl Color {
    /// Brand green #3ed67a, amber #ffb020, red #ff3b4a, ink #15171c; the rest
    /// are greys of the interface.
    pub open spec fn components(self) -> Rgb {
        match self {
            Color::Green => rgb_of(0x3e, 0xd6, 0x7a, 255),
            Color::Yellow => rgb_of(0xff, 0xb0, 0x20, 255),
            Color::Red => rgb_of(0xff, 0x3b, 0x4a, 255),
            Color::Background => rgb_of(0x15, 0x17, 0x1c, 255),
            Color::Surface => rgb_of(0x1d, 0x20, 0x26, 255),
            Color::Text => rgb_of(92, 92, 93, 100),
            Color::TextMuted => rgb_of(55, 55, 58, 100),
        }
    }

    pub fn rgb(self) -> (c: Rgb)
        ensures
            c == self.components(),
    {
        match self {
            Color::Green => rgb(0x3e, 0xd6, 0x7a, 255),
            Color::Yellow => rgb(0xff, 0xb0, 0x20, 255),
            Color::Red => rgb(0xff, 0x3b, 0x4a, 255),
            Color::Background => rgb(0x15, 0x17, 0x1c, 255),
            Color::Surface => rgb(0x1d, 0x20, 0x26, 255),
            Color::Text => rgb(92, 92, 93, 100),
            Color::TextMuted => rgb(55, 55, 58, 100),
        }
    }
}

/// A color of the palette and how opaque it is.
#[derive(Debug, Clone, Copy, PartialEq, Eq, Structural)]
pub struct Ink {
    pub color: Color,
    pub alpha: F32,
}

pub open spec fn solid(color: Color) -> Ink {
    Ink { color, alpha: F32::of_int(1) }
}

pub open spec fn faint(color: Color, percent: int) -> Ink {
    Ink { color, alpha: F32::of_ratio(percent, 100) }
}

pub fn opaque(color: Color) -> (r: Ink)
    ensures
        r == solid(color),
{
    Ink { color, alpha: F32::from_i32(1) }
}

pub fn translucent(color: Color, percent: i32) -> (r: Ink)
    ensures
        r == faint(color, percent as int),
{
    Ink { color, alpha: F32::ratio(percent, 100) }
}

/// The six colors a theme is derived from.
#[derive(Debug, Clone, Copy, PartialEq, Eq, Structural)]
pub struct Palette {
    pub background: Color,
    pub text: Color,
    pub primary: Color,
    pub success: Color,
    pub warning: Color,
    pub danger: Color,
}

/// The app's custom dark theme.
pub fn theme() -> (p: Palette)
    ensures
        p == (Palette {
            background: BACKGROUND,
            text: TEXT,
            primary: GREEN,
            success: GREEN,
            warning: YELLOW,
            danger: RED,
        }),
{
    Palette {
        background: BACKGROUND,
        text: TEXT,
        primary: GREEN,
        success: GREEN,
        warning: YELLOW,
        danger: RED,
    }
}

/// How a button looks: its fill (with its opacity), if any, and its text.
#[derive(Debug, Clone, Copy, PartialEq, Eq, Structural)]
pub struct ButtonStyle {
    pub background: Option<Ink>,
    pub text_color: Color,
}

/// The kinds of button in the window.
#[derive(Debug, Clone, Copy, PartialEq, Eq, Structural)]
pub enum ButtonKind {
    /// Green fill, dark ink.
    Primary,
    /// Panel-colored fill.
    Secondary,
    /// No fill.
    Muted,
    /// No fill, and red under the pointer.
    Close,
}

impl ButtonKind {
    /// The look of a button; `lit` while it is hovered or pressed.
    pub open spec fn look(self, lit: bool) -> ButtonStyle {
        match self {
            ButtonKind::Primary => ButtonStyle {
                background: Some(
                    if lit {
                        faint(GREEN, 85)
                    } else {
                        solid(GREEN)
                    },
                ),
                text_color: BACKGROUND,
            },
            ButtonKind::Secondary => ButtonStyle {
                background: Some(solid(SURFACE)),
                text_color: if lit {
                    TEXT
                } else {
                    TEXT_MUTED
                },
            },
            ButtonKind::Muted => ButtonStyle {
                background: None,
                text_color: if lit {
                    TEXT
                } else {
                    TEXT_MUTED
                },
            },
            ButtonKind::Close => ButtonStyle {
                background: None,
                text_color: if lit {
                    RED
                } else {
                    TEXT_MUTED
                },
            },
        }
    }

    pub fn style(self, lit: bool) -> (r: ButtonStyle)
        ensures
            r == self.look(lit),
    {
        let plain: Color = if lit {
            TEXT
        } else {
            TEXT_MUTED
        };
        match self {
            ButtonKind::Primary => {
                let fill: Ink = if lit {
                    translucent(GREEN, 85)
                } else {
                    opaque(GREEN)
                };
                ButtonStyle { background: Some(fill), text_color: BACKGROUND }
            },
            ButtonKind::Secondary => ButtonStyle {
                background: Some(opaque(SURFACE)),
                text_color: plain,
            },
            ButtonKind::Muted => ButtonStyle { background: None, text_color: plain },
            ButtonKind::Close => ButtonStyle {
                background: None,
                text_color: if lit {
                    RED
                } else {
                    TEXT_MUTED
                },
            },
        }
    }
}

/// Buttons light up under the pointer: the primary one is green with dark text and
/// pales, the others go from grey text to bright, and the close button to red.
/// Only the first two kinds are filled.
pub proof fn law_buttons_light_up(kind: ButtonKind, lit: bool)
    ensures
        ({
            let s = kind.look(lit);
            &&& s.background is Some <==> kind == ButtonKind::Primary || kind
                == ButtonKind::Secondary
            &&& kind == ButtonKind::Primary ==> s.background->0.color == Color::Green
                && s.text_color == Color::Background && s.background->0.alpha == (if lit {
                F32::of_ratio(85, 100)
            } else {
                F32::of_int(1)
            })
            &&& kind == ButtonKind::Secondary ==> s.background->0.color == Color::Surface
                && s.background->0.alpha == F32::of_int(1)
            &&& kind != ButtonKind::Primary && !lit ==> s.text_color == Color::TextMuted
            &&& kind == ButtonKind::Close && lit ==> s.text_color == Color::Red
            &&& (kind == ButtonKind::Secondary || kind == ButtonKind::Muted) && lit ==> s.text_color
                == Color::Text
        }),
{
}

/// The palette, in 255ths: green #3ed67a, amber #ffb020, red #ff3b4a and ink
/// #15171c of the brand, and the panels #1d2026; the two greys of the text in
/// hundredths.
pub proof fn law_the_palette(c: Color)
    ensures
        ({
            let rgb = c.components();
            let whole: int = if c == Color::Text || c == Color::TextMuted {
                100
            } else {
                255
            };
            let (r, g, b): (int, int, int) = match c {
                Color::Green => (62, 214, 122),
                Color::Yellow => (255, 176, 32),
                Color::Red => (255, 59, 74),
                Color::Background => (21, 23, 28),
                Color::Surface => (29, 32, 38),
                Color::Text => (92, 92, 93),
                Color::TextMuted => (55, 55, 58),
            };
            &&& rgb.r == F32::of_int(r).div_spec(F32::of_int(whole))
            &&& rgb.g == F32::of_int(g).div_spec(F32::of_int(whole))
            &&& rgb.b == F32::of_int(b).div_spec(F32::of_int(whole))
        }),
{
}

} // verus!
