//! Terminal color themes: a dark and a light scheme, picked by probing
//! the terminal background, and the colors each scheme assigns to the
//! table and the full-screen views.

use vstd::prelude::*;

verus! {

/// The two color schemes.
#[derive(Debug, Clone, Copy, PartialEq, Eq, Structural)]
pub enum Theme {
    Dark,
    Light,
}

/// A named table color, as the table renderer understands them.
#[derive(Debug, Clone, Copy, PartialEq, Eq, Structural)]
pub enum TableColor {
    Cyan,
    Blue,
    White,
    Black,
    DarkGrey,
    Grey,
    Yellow,
    DarkYellow,
    DarkRed,
    Red,
    Green,
}

/// A full-screen view color: the terminal's own default, or a channel
/// triple.
#[derive(Debug, Clone, Copy, PartialEq, Eq, Structural)]
pub enum ScreenColor {
    TerminalDefault,
    Rgb { r: u8, g: u8, b: u8 },
}

/// Relies on `termbg::theme`: whether the terminal background reads as
/// light, dark, or could not be probed. The answer depends on the
/// terminal, so nothing is promised of it.
#[verifier::external_body]
fn probe_terminal() -> Option<bool> {
    match termbg::theme(std::time::Duration::from_millis(100)) {
        Ok(termbg::Theme::Light) => Some(true),
        Ok(termbg::Theme::Dark) => Some(false),
        Err(_) => None,
    }
}

/// The scheme a probe answer selects: light only on a light answer,
/// dark otherwise, failed probes included.
pub open spec fn theme_of_probe(light: Option<bool>) -> Theme {
    match light {
        Some(true) => Theme::Light,
        _ => Theme::Dark,
    }
}

/// Maps a probe answer to the scheme it selects.
pub fn theme_from_probe(light: Option<bool>) -> (t: Theme)
    ensures
        t == theme_of_probe(light),
{
    match light {
        Some(true) => Theme::Light,
        _ => Theme::Dark,
    }
}

impl Theme {
    /// Probes the terminal and picks the scheme; dark when the probe
    /// fails.
    pub fn detect() -> Theme {
        theme_from_probe(probe_terminal())
    }

    /// The color for table headers.
    pub fn header_color(&self) -> (c: TableColor)
        ensures
            c == (match *self {
                Theme::Dark => TableColor::Cyan,
                Theme::Light => TableColor::Blue,
            }),
    {
        match self {
            Theme::Dark => TableColor::Cyan,
            Theme::Light => TableColor::Blue,
        }
    }

    /// The color for unread articles.
    pub fn unread_color(&self) -> (c: TableColor)
        ensures
            c == (match *self {
                Theme::Dark => TableColor::White,
                Theme::Light => TableColor::Black,
            }),
    {
        match self {
            Theme::Dark => TableColor::White,
            Theme::Light => TableColor::Black,
        }
    }

    /// The color for read or archived articles.
    pub fn read_color(&self) -> (c: TableColor)
        ensures
            c == (match *self {
                Theme::Dark => TableColor::DarkGrey,
                Theme::Light => TableColor::Grey,
            }),
    {
        match self {
            Theme::Dark => TableColor::DarkGrey,
            Theme::Light => TableColor::Grey,
        }
    }

    /// The color for starred articles.
    pub fn starred_color(&self) -> (c: TableColor)
        ensures
            c == (match *self {
                Theme::Dark => TableColor::Yellow,
                Theme::Light => TableColor::DarkYellow,
            }),
    {
        match self {
            Theme::Dark => TableColor::Yellow,
            Theme::Light => TableColor::DarkYellow,
        }
    }

    /// The color for the archived marker.
    pub fn archived_color(&self) -> (c: TableColor)
        ensures
            c == (match *self {
                Theme::Dark => TableColor::DarkRed,
                Theme::Light => TableColor::Red,
            }),
    {
        match self {
            Theme::Dark => TableColor::DarkRed,
            Theme::Light => TableColor::Red,
        }
    }

    /// The background of the full-screen view.
    pub fn tui_background(&self) -> (c: ScreenColor)
        ensures
            c == (match *self {
                Theme::Dark => ScreenColor::Rgb { r: 15, g: 15, b: 20 },
                Theme::Light => ScreenColor::TerminalDefault,
            }),
    {
        match self {
            Theme::Dark => ScreenColor::Rgb { r: 15, g: 15, b: 20 },
            Theme::Light => ScreenColor::TerminalDefault,
        }
    }

    /// The primary text color of the full-screen view.
    pub fn tui_primary(&self) -> (c: ScreenColor)
        ensures
            c == (match *self {
                Theme::Dark => ScreenColor::Rgb { r: 220, g: 220, b: 230 },
                Theme::Light => ScreenColor::TerminalDefault,
            }),
    {
        match self {
            Theme::Dark => ScreenColor::Rgb { r: 220, g: 220, b: 230 },
            Theme::Light => ScreenColor::TerminalDefault,
        }
    }

    /// The secondary text color of the full-screen view.
    pub fn tui_secondary(&self) -> (c: ScreenColor)
        ensures
            c == (match *self {
                Theme::Dark => ScreenColor::Rgb { r: 100, g: 100, b: 120 },
                Theme::Light => ScreenColor::TerminalDefault,
            }),
    {
        match self {
            Theme::Dark => ScreenColor::Rgb { r: 100, g: 100, b: 120 },
            Theme::Light => ScreenColor::TerminalDefault,
        }
    }

    /// The tertiary text color of the full-screen view.
    pub fn tui_tertiary(&self) -> (c: ScreenColor)
        ensures
            c == (match *self {
                Theme::Dark => ScreenColor::Rgb { r: 60, g: 60, b: 75 },
                Theme::Light => ScreenColor::TerminalDefault,
            }),
    {
        match self {
            Theme::Dark => ScreenColor::Rgb { r: 60, g: 60, b: 75 },
            Theme::Light => ScreenColor::TerminalDefault,
        }
    }

    /// The highlight of the selected row in the full-screen view.
    pub fn tui_highlight(&self) -> (c: ScreenColor)
        ensures
            c == (match *self {
                Theme::Dark => ScreenColor::Rgb { r: 70, g: 130, b: 180 },
                Theme::Light => ScreenColor::Rgb { r: 200, g: 220, b: 240 },
            }),
    {
        match self {
            Theme::Dark => ScreenColor::Rgb { r: 70, g: 130, b: 180 },
            Theme::Light => ScreenColor::Rgb { r: 200, g: 220, b: 240 },
        }
    }

    /// The inactive highlight of the full-screen view.
    pub fn tui_highlight_inactive(&self) -> (c: ScreenColor)
        ensures
            c == (match *self {
                Theme::Dark => ScreenColor::Rgb { r: 50, g: 50, b: 65 },
                Theme::Light => ScreenColor::Rgb { r: 220, g: 220, b: 220 },
            }),
    {
        match self {
            Theme::Dark => ScreenColor::Rgb { r: 50, g: 50, b: 65 },
            Theme::Light => ScreenColor::Rgb { r: 220, g: 220, b: 220 },
        }
    }
}

} // verus!
