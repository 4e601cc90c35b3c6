//! The two colour themes of the terminal front end.

use vstd::prelude::*;

verus! {

/// Which of the two themes is shown.
#[derive(Clone, Copy, Debug, PartialEq, Eq, Structural)]
pub enum ThemeVariant {
    ThreatConnect,
    ColorPop,
}

/// A terminal colour: one of the two named colours that the themes use,
/// or red, green and blue parts.
#[derive(Clone, Copy, Debug, PartialEq, Eq, Structural)]
pub enum ThemeColor {
    White,
    DarkGray,
    Rgb(u8, u8, u8),
}

/// The colours of every part of the screen.
#[derive(Clone, Copy, Debug, PartialEq, Eq, Structural)]
pub struct AppTheme {
    pub variant: ThemeVariant,
    pub border: ThemeColor,
    pub text: ThemeColor,
    pub input_edit: ThemeColor,
    pub title_main: ThemeColor,
    pub title_secondary: ThemeColor,
    pub summary_highlight: ThemeColor,
    pub owner_label: ThemeColor,
    pub date_label: ThemeColor,
    pub active_label: ThemeColor,
    pub evilness_label: ThemeColor,
    pub confidence_filled: ThemeColor,
    pub confidence_empty: ThemeColor,
    pub separator: ThemeColor,
}

impl AppTheme {
    /// The orange-on-dark theme.
    pub open spec fn threat_connect() -> AppTheme {
        AppTheme {
            variant: ThemeVariant::ThreatConnect,
            border: ThemeColor::Rgb(255, 122, 79),
            text: ThemeColor::White,
            input_edit: ThemeColor::Rgb(255, 122, 79),
            title_main: ThemeColor::Rgb(255, 122, 79),
            title_secondary: ThemeColor::Rgb(250, 198, 148),
            summary_highlight: ThemeColor::Rgb(254, 124, 80),
            owner_label: ThemeColor::Rgb(51, 93, 127),
            date_label: ThemeColor::Rgb(179, 209, 247),
            active_label: ThemeColor::Rgb(255, 122, 79),
            evilness_label: ThemeColor::Rgb(163, 76, 0),
            confidence_filled: ThemeColor::Rgb(255, 122, 79),
            confidence_empty: ThemeColor::White,
            separator: ThemeColor::DarkGray,
        }
    }

    /// The high-contrast theme.
    pub open spec fn pop() -> AppTheme {
        AppTheme {
            variant: ThemeVariant::ColorPop,
            border: ThemeColor::Rgb(0, 191, 255),
            text: ThemeColor::Rgb(255, 255, 255),
            input_edit: ThemeColor::Rgb(255, 20, 147),
            title_main: ThemeColor::Rgb(255, 20, 147),
            title_secondary: ThemeColor::Rgb(0, 191, 255),
            summary_highlight: ThemeColor::Rgb(255, 20, 147),
            owner_label: ThemeColor::Rgb(0, 191, 255),
            date_label: ThemeColor::Rgb(129, 124, 121),
            active_label: ThemeColor::Rgb(0, 255, 0),
            evilness_label: ThemeColor::Rgb(255, 0, 0),
            confidence_filled: ThemeColor::Rgb(255, 255, 0),
            confidence_empty: ThemeColor::Rgb(129, 124, 121),
            separator: ThemeColor::Rgb(136, 136, 136),
        }
    }

    /// The theme of a variant.
    pub open spec fn of(variant: ThemeVariant) -> AppTheme {
        match variant {
            ThemeVariant::ThreatConnect => Self::threat_connect(),
            ThemeVariant::ColorPop => Self::pop(),
        }
    }

    /// The variant that a toggle leads to.
    pub open spec fn other(variant: ThemeVariant) -> ThemeVariant {
        match variant {
            ThemeVariant::ThreatConnect => ThemeVariant::ColorPop,
            ThemeVariant::ColorPop => ThemeVariant::ThreatConnect,
        }
    }

    /// The theme that the front end starts with.
    pub fn default_theme() -> (r: Self)
        ensures
            r == Self::threat_connect(),
    {
        Self {
            variant: ThemeVariant::ThreatConnect,
            border: ThemeColor::Rgb(255, 122, 79),
            text: ThemeColor::White,
            input_edit: ThemeColor::Rgb(255, 122, 79),
            title_main: ThemeColor::Rgb(255, 122, 79),
            title_secondary: ThemeColor::Rgb(250, 198, 148),
            summary_highlight: ThemeColor::Rgb(254, 124, 80),
            owner_label: ThemeColor::Rgb(51, 93, 127),
            date_label: ThemeColor::Rgb(179, 209, 247),
            active_label: ThemeColor::Rgb(255, 122, 79),
            evilness_label: ThemeColor::Rgb(163, 76, 0),
            confidence_filled: ThemeColor::Rgb(255, 122, 79),
            confidence_empty: ThemeColor::White,
            separator: ThemeColor::DarkGray,
        }
    }

    /// The high-contrast theme.
    pub fn color_pop() -> (r: Self)
        ensures
            r == Self::pop(),
    {
        Self {
            variant: ThemeVariant::ColorPop,
            border: ThemeColor::Rgb(0, 191, 255),
            text: ThemeColor::Rgb(255, 255, 255),
            input_edit: ThemeColor::Rgb(255, 20, 147),
            title_main: ThemeColor::Rgb(255, 20, 147),
            title_secondary: ThemeColor::Rgb(0, 191, 255),
            summary_highlight: ThemeColor::Rgb(255, 20, 147),
            owner_label: ThemeColor::Rgb(0, 191, 255),
            date_label: ThemeColor::Rgb(129, 124, 121),
            active_label: ThemeColor::Rgb(0, 255, 0),
            evilness_label: ThemeColor::Rgb(255, 0, 0),
            confidence_filled: ThemeColor::Rgb(255, 255, 0),
            confidence_empty: ThemeColor::Rgb(129, 124, 121),
            separator: ThemeColor::Rgb(136, 136, 136),
        }
    }

    /// The theme that a toggle leads to from this one.
    pub fn toggled(&self) -> (r: Self)
        ensures
            r == Self::of(Self::other(self.variant)),
    {
        match self.variant {
            ThemeVariant::ThreatConnect => Self::color_pop(),
            ThemeVariant::ColorPop => Self::default_theme(),
        }
    }
}

} // verus!
