//! The three themes of the graphical client, and the status colours that come
//! with them.
use crate::text::{cat3, same, trim, trim_str};
use vstd::prelude::*;
use vstd::string::*;

verus! {

/// The phases of the moon, waxing first.
pub const MOON_PHASES: [&'static str; 8] = ["🌑", "🌒", "🌓", "🌔", "🌕", "🌖", "🌗", "🌘"];

/// How long a phase is shown.
pub const MOON_FRAME_MILLIS: u64 = 130;

/// The phase that is shown so many milliseconds in.
pub fn moon_frame(millis: u64) -> (res: usize)
    ensures
        res == (millis / MOON_FRAME_MILLIS) % 8,
        res < 8,
{
    ((millis / MOON_FRAME_MILLIS) % 8) as usize
}

/// The shape of the buttons in one bar of tabs, in points. A bar mixes widgets
/// of several kinds, and one shape for all of them keeps them in line.
#[derive(Clone, Copy, Debug, PartialEq, Eq, Structural)]
pub struct BarStyle {
    /// The height of every button, and the side of the square ones.
    pub height: u32,
    /// The radius of the corners.
    pub corner: u8,
    /// The gap between buttons, and between rows.
    pub spacing: u32,
}

/// The bar of sessions: squared off, and larger than the bar of subagents below
/// it, so that the two read as a hierarchy.
pub fn session_bar() -> (res: BarStyle)
    ensures
        res == (BarStyle { height: 24, corner: 0, spacing: 6 }),
{
    BarStyle { height: 24, corner: 0, spacing: 6 }
}

/// The bar of subagents.
pub fn fork_bar() -> (res: BarStyle)
    ensures
        res == (BarStyle { height: 18, corner: 2, spacing: 6 }),
{
    BarStyle { height: 18, corner: 2, spacing: 6 }
}

/// A colour.
#[derive(Clone, Copy, Debug, PartialEq, Eq, Structural)]
pub struct Rgb {
    pub r: u8,
    pub g: u8,
    pub b: u8,
}

/// The colour that `0xRRGGBB` writes.
pub open spec fn spec_rgb(hex: u32) -> Rgb {
    Rgb {
        r: ((hex / 0x10000) % 0x100) as u8,
        g: ((hex / 0x100) % 0x100) as u8,
        b: (hex % 0x100) as u8,
    }
}

/// The colour that `0xRRGGBB` writes.
pub fn rgb(hex: u32) -> (res: Rgb)
    ensures
        res == spec_rgb(hex),
{
    Rgb {
        r: ((hex / 0x10000) % 0x100) as u8,
        g: ((hex / 0x100) % 0x100) as u8,
        b: (hex % 0x100) as u8,
    }
}

/// A theme.
#[derive(Clone, Copy, Debug, PartialEq, Eq, Structural)]
pub enum Theme {
    Light,
    Dark,
    /// Slate backgrounds, cyan accents, and moons.
    Kimi,
}

/// The colours of a theme.
#[derive(Clone, Copy, Debug, PartialEq, Eq, Structural)]
pub struct Colors {
    pub success: Rgb,
    pub error: Rgb,
    pub warning: Rgb,
    pub accent: Rgb,
    pub diff_add: Rgb,
    pub diff_del: Rgb,
}

/// Whether a theme is laid over the toolkit's light or dark look.
#[derive(Clone, Copy, Debug, PartialEq, Eq, Structural)]
pub enum Slot {
    Light,
    Dark,
}

/// The theme after another.
pub open spec fn next_theme(theme: Theme) -> Theme {
    match theme {
        Theme::Light => Theme::Dark,
        Theme::Dark => Theme::Kimi,
        Theme::Kimi => Theme::Light,
    }
}

/// How a theme is called.
pub open spec fn theme_label(theme: Theme) -> Seq<char> {
    match theme {
        Theme::Light => "light"@,
        Theme::Dark => "dark"@,
        Theme::Kimi => "Kimi"@,
    }
}

/// How a theme is remembered.
pub open spec fn theme_name(theme: Theme) -> Seq<char> {
    match theme {
        Theme::Light => "light"@,
        Theme::Dark => "dark"@,
        Theme::Kimi => "kimi"@,
    }
}

/// The theme that is remembered under a name.
pub open spec fn theme_named(name: Seq<char>) -> Option<Theme> {
    if name == "light"@ {
        Some(Theme::Light)
    } else if name == "dark"@ {
        Some(Theme::Dark)
    } else if name == "kimi"@ {
        Some(Theme::Kimi)
    } else {
        None
    }
}

impl Default for Theme {
    /// The theme of a fresh install.
    fn default() -> (res: Theme)
        ensures
            res == Theme::Dark,
    {
        Theme::Dark
    }
}

impl Theme {
    /// The next theme in the cycle.
    pub fn next(self) -> (res: Theme)
        ensures
            res == next_theme(self),
    {
        match self {
            Theme::Light => Theme::Dark,
            Theme::Dark => Theme::Kimi,
            Theme::Kimi => Theme::Light,
        }
    }

    /// What the button shows that changes the theme: the one that is on.
    pub fn glyph(self) -> (res: &'static str)
        ensures
            res@ == match self {
                Theme::Light => "☀"@,
                Theme::Dark => "☾"@,
                Theme::Kimi => "🌕"@,
            },
    {
        match self {
            Theme::Light => "☀",
            Theme::Dark => "☾",
            Theme::Kimi => "🌕",
        }
    }

    /// How the theme is called.
    pub fn label(self) -> (res: &'static str)
        ensures
            res@ == theme_label(self),
    {
        match self {
            Theme::Light => "light",
            Theme::Dark => "dark",
            Theme::Kimi => "Kimi",
        }
    }

    /// What is shown over the button: where one is, and where a click leads.
    pub fn hover(self) -> (res: String)
        ensures
            res@ == "theme: "@ + theme_label(self) + " — click for "@ + theme_label(
                next_theme(self),
            ) + " (Ctrl+D)"@,
    {
        let mut res: String = cat3("theme: ", self.label(), " — click for ");
        res.append(self.next().label());
        res.append(" (Ctrl+D)");
        res
    }

    /// The theme's status colours.
    pub fn colors(self) -> (res: Colors)
        ensures
            res == match self {
                Theme::Light => Colors {
                    success: spec_rgb(0x166534),
                    error: spec_rgb(0x991b1b),
                    warning: spec_rgb(0x92400e),
                    accent: spec_rgb(0x0e7490),
                    diff_add: spec_rgb(0x1a7f37),
                    diff_del: spec_rgb(0xcf222e),
                },
                Theme::Dark => Colors {
                    success: spec_rgb(0x50aa50),
                    error: spec_rgb(0xc85050),
                    warning: spec_rgb(0xdca03c),
                    accent: spec_rgb(0x5aa9e6),
                    diff_add: spec_rgb(0x5aaa5a),
                    diff_del: spec_rgb(0xc85a5a),
                },
                Theme::Kimi => Colors {
                    success: spec_rgb(0x86efac),
                    error: spec_rgb(0xfca5a5),
                    warning: spec_rgb(0xfbbf24),
                    accent: spec_rgb(0x67e8f9),
                    diff_add: spec_rgb(0x56d364),
                    diff_del: spec_rgb(0xff7b72),
                },
            },
    {
        match self {
            Theme::Light => Colors {
                success: rgb(0x166534),
                error: rgb(0x991b1b),
                warning: rgb(0x92400e),
                accent: rgb(0x0e7490),
                diff_add: rgb(0x1a7f37),
                diff_del: rgb(0xcf222e),
            },
            Theme::Dark => Colors {
                success: rgb(0x50aa50),
                error: rgb(0xc85050),
                warning: rgb(0xdca03c),
                accent: rgb(0x5aa9e6),
                diff_add: rgb(0x5aaa5a),
                diff_del: rgb(0xc85a5a),
            },
            Theme::Kimi => Colors {
                success: rgb(0x86efac),
                error: rgb(0xfca5a5),
                warning: rgb(0xfbbf24),
                accent: rgb(0x67e8f9),
                diff_add: rgb(0x56d364),
                diff_del: rgb(0xff7b72),
            },
        }
    }

    /// The look that the theme is laid over.
    pub fn slot(self) -> (res: Slot)
        ensures
            res == match self {
                Theme::Light => Slot::Light,
                _ => Slot::Dark,
            },
    {
        match self {
            Theme::Light => Slot::Light,
            Theme::Dark => Slot::Dark,
            Theme::Kimi => Slot::Dark,
        }
    }

    /// How the theme is remembered.
    pub fn name(self) -> (res: &'static str)
        ensures
            res@ == theme_name(self),
    {
        match self {
            Theme::Light => "light",
            Theme::Dark => "dark",
            Theme::Kimi => "kimi",
        }
    }

    /// The theme that is remembered under a name.
    pub fn from_name(name: &str) -> (res: Option<Theme>)
        ensures
            res == theme_named(name@),
    {
        if same(name, "light") {
            Some(Theme::Light)
        } else if same(name, "dark") {
            Some(Theme::Dark)
        } else if same(name, "kimi") {
            Some(Theme::Kimi)
        } else {
            None
        }
    }

    /// The theme that was chosen last, given what its file holds; the default
    /// where there is no file or it names none.
    pub fn load(stored: Option<&str>) -> (res: Theme)
        ensures
            res == match stored {
                Some(text) => match theme_named(trim(text@)) {
                    Some(theme) => theme,
                    None => Theme::Dark,
                },
                None => Theme::Dark,
            },
    {
        match stored {
            Some(text) => match Theme::from_name(&trim_str(text)) {
                Some(theme) => theme,
                None => Theme::Dark,
            },
            None => Theme::Dark,
        }
    }
}

/// The file in which the theme is remembered, in the directory that sessions
/// share.
pub fn theme_file(share_dir: &str) -> (res: String)
    ensures
        res@ == crate::kaos::path_below(share_dir@, "gui-theme"@),
{
    crate::kaos::join_path(share_dir, "gui-theme")
}

/// Three clicks come back to the same theme, and fewer do not.
pub proof fn law_cycling_visits_every_theme(theme: Theme)
    ensures
        next_theme(next_theme(next_theme(theme))) == theme,
        next_theme(theme) != theme,
        next_theme(next_theme(theme)) != theme,
{
}

/// What is remembered of a theme is that theme.
pub proof fn law_names_round_trip(theme: Theme)
    ensures
        theme_named(theme_name(theme)) == Some(theme),
{
    reveal_strlit("light");
    reveal_strlit("dark");
    reveal_strlit("kimi");
    assert("light"@.len() != "dark"@.len());
    assert("light"@.len() != "kimi"@.len());
    assert("dark"@[0] != "kimi"@[0]);
}

/// A color is red, green and blue, a byte each.
pub proof fn law_a_color_is_three_bytes(hex: u32, res: Rgb)
    requires
        call_ensures(rgb, (hex,), res),
        hex <= 0xffffff,
    ensures
        hex == res.r * 65536 + res.g * 256 + res.b,
{
}

} // verus!
