//! Message levels and the colour styling they get under a light or dark
//! terminal theme. Detecting the theme and painting the text are terminal
//! work done outside the library; the mapping from level and theme to
//! style is decided here.

use vstd::prelude::*;
use vstd::string::StringExecFns;

verus! {

/// The terminal background theme.
#[derive(Debug, Clone, Copy, PartialEq, Eq, Structural)]
pub enum Theme {
    Light,
    Dark,
}

/// A colour by name, as the styling layer understands it.
#[derive(Debug, Clone, Copy, PartialEq, Eq, Structural)]
pub enum ColorName {
    Red,
    DecoOrange,
    BlazeOrange,
    Yellow,
    Blue,
    Green,
    Black,
    White,
    Cyan,
}

/// A resolved style: a colour and whether the text is bold.
#[derive(Debug, Clone, Copy, PartialEq, Eq, Structural)]
pub struct StyleSpec {
    pub color: ColorName,
    pub bold: bool,
}

/// The message levels that get their own style under either theme.
#[derive(Debug, Clone, Copy, PartialEq, Eq, Structural)]
pub enum YinYangStyle {
    Error,
    Warning,
    Emphasis,
    OuterPrompt,
    InnerPrompt,
    Info,
    Debug,
}

impl YinYangStyle {
    /// The style of each level under each theme. Warnings use an orange
    /// tuned to the theme; informational text follows the background.
    pub open spec fn spec_style(self, theme: Theme) -> StyleSpec {
        match theme {
            Theme::Light => match self {
                YinYangStyle::Error => StyleSpec { color: ColorName::Red, bold: true },
                YinYangStyle::Warning => StyleSpec { color: ColorName::DecoOrange, bold: true },
                YinYangStyle::Emphasis => StyleSpec { color: ColorName::Yellow, bold: true },
                YinYangStyle::OuterPrompt => StyleSpec { color: ColorName::Blue, bold: true },
                YinYangStyle::InnerPrompt => StyleSpec { color: ColorName::Green, bold: true },
                YinYangStyle::Info => StyleSpec { color: ColorName::Black, bold: false },
                YinYangStyle::Debug => StyleSpec { color: ColorName::Cyan, bold: false },
            },
            Theme::Dark => match self {
                YinYangStyle::Error => StyleSpec { color: ColorName::Red, bold: true },
                YinYangStyle::Warning => StyleSpec { color: ColorName::BlazeOrange, bold: true },
                YinYangStyle::Emphasis => StyleSpec { color: ColorName::Yellow, bold: true },
                YinYangStyle::OuterPrompt => StyleSpec { color: ColorName::Blue, bold: true },
                YinYangStyle::InnerPrompt => StyleSpec { color: ColorName::Green, bold: true },
                YinYangStyle::Info => StyleSpec { color: ColorName::White, bold: false },
                YinYangStyle::Debug => StyleSpec { color: ColorName::Cyan, bold: false },
            },
        }
    }

    /// The style for the message level, given the detected theme; no theme,
    /// no styling.
    pub fn get_style(&self, theme: &Option<Theme>) -> (r: Option<StyleSpec>)
        ensures
            r == match theme {
                Some(t) => Some(self.spec_style(*t)),
                None => None::<StyleSpec>,
            },
    {
        match theme {
            Some(t) => Some(
                match t {
                    Theme::Light => match self {
                        YinYangStyle::Error => StyleSpec { color: ColorName::Red, bold: true },
                        YinYangStyle::Warning => StyleSpec {
                            color: ColorName::DecoOrange,
                            bold: true,
                        },
                        YinYangStyle::Emphasis => StyleSpec { color: ColorName::Yellow, bold: true },
                        YinYangStyle::OuterPrompt => StyleSpec { color: ColorName::Blue, bold: true },
                        YinYangStyle::InnerPrompt => StyleSpec {
                            color: ColorName::Green,
                            bold: true,
                        },
                        YinYangStyle::Info => StyleSpec { color: ColorName::Black, bold: false },
                        YinYangStyle::Debug => StyleSpec { color: ColorName::Cyan, bold: false },
                    },
                    Theme::Dark => match self {
                        YinYangStyle::Error => StyleSpec { color: ColorName::Red, bold: true },
                        YinYangStyle::Warning => StyleSpec {
                            color: ColorName::BlazeOrange,
                            bold: true,
                        },
                        YinYangStyle::Emphasis => StyleSpec { color: ColorName::Yellow, bold: true },
                        YinYangStyle::OuterPrompt => StyleSpec { color: ColorName::Blue, bold: true },
                        YinYangStyle::InnerPrompt => StyleSpec {
                            color: ColorName::Green,
                            bold: true,
                        },
                        YinYangStyle::Info => StyleSpec { color: ColorName::White, bold: false },
                        YinYangStyle::Debug => StyleSpec { color: ColorName::Cyan, bold: false },
                    },
                },
            ),
            None => None,
        }
    }

    /// The level's name in lower case.
    pub open spec fn spec_name(self) -> Seq<char> {
        match self {
            YinYangStyle::Error => "error"@,
            YinYangStyle::Warning => "warning"@,
            YinYangStyle::Emphasis => "emphasis"@,
            YinYangStyle::OuterPrompt => "outer_prompt"@,
            YinYangStyle::InnerPrompt => "inner_prompt"@,
            YinYangStyle::Info => "info"@,
            YinYangStyle::Debug => "debug"@,
        }
    }

    /// Renders the level's name.
    pub fn to_string(&self) -> (r: String)
        ensures
            r@ == self.spec_name(),
    {
        match self {
            YinYangStyle::Error => String::from_str("error"),
            YinYangStyle::Warning => String::from_str("warning"),
            YinYangStyle::Emphasis => String::from_str("emphasis"),
            YinYangStyle::OuterPrompt => String::from_str("outer_prompt"),
            YinYangStyle::InnerPrompt => String::from_str("inner_prompt"),
            YinYangStyle::Info => String::from_str("info"),
            YinYangStyle::Debug => String::from_str("debug"),
        }
    }
}

} // verus!
