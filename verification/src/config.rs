//! Configuration: colors, prefixes and the selector.
//!
//! The values are handed on to whatever draws the interface; nothing here
//! reads a meaning into them.

use vstd::prelude::*;
use vstd::string::StringExecFns;

verus! {

/// A foreground and a background color, each as red, green and blue, or
/// left to the terminal.
#[derive(Clone, Copy, Debug, PartialEq, Eq)]
pub struct Color {
    pub fg: Option<[u8; 3]>,
    pub bg: Option<[u8; 3]>,
}

/// What stands before the titles of the panes and before a folder.
#[derive(Clone, Debug)]
pub struct Prefix {
    pub search: String,
    pub list: String,
    pub folder: String,
}

/// The colors of the pane that has the focus and of the others.
#[derive(Clone, Copy, Debug, PartialEq, Eq)]
pub struct Theme {
    pub selected: Color,
    pub default: Color,
}

/// The whole configuration.
#[derive(Clone, Debug)]
pub struct Config {
    pub prefixes: Prefix,
    pub theme: Theme,
    pub selector: String,
    pub lame: bool,
}

/// What a `Prefix` stands for.
pub struct PrefixView {
    pub search: Seq<char>,
    pub list: Seq<char>,
    pub folder: Seq<char>,
}

/// What a `Config` stands for.
pub struct ConfigView {
    pub prefixes: PrefixView,
    pub theme: Theme,
    pub selector: Seq<char>,
    pub lame: bool,
}

impl DeepView for Prefix {
    type V = PrefixView;

    open spec fn deep_view(&self) -> PrefixView {
        PrefixView { search: self.search@, list: self.list@, folder: self.folder@ }
    }
}

impl DeepView for Config {
    type V = ConfigView;

    open spec fn deep_view(&self) -> ConfigView {
        ConfigView {
            prefixes: self.prefixes.deep_view(),
            theme: self.theme,
            selector: self.selector@,
            lame: self.lame,
        }
    }
}

/// The configuration that holds where none is given.
pub open spec fn default_config() -> ConfigView {
    ConfigView {
        prefixes: PrefixView { search: "🔍 "@, list: "📂 "@, folder: "📁 "@ },
        theme: Theme {
            selected: Color { fg: None, bg: None },
            default: Color { fg: Some([100u8, 100u8, 100u8]), bg: None },
        },
        selector: "> "@,
        lame: false,
    }
}

/// The configuration to run with: `given`, or the default where none is
/// given, and without decoration where that or `lame` asks for it.
pub open spec fn effective_config(given: Option<ConfigView>, lame: bool) -> ConfigView {
    let base = match given {
        Some(c) => c,
        None => default_config(),
    };
    ConfigView { lame: base.lame || lame, ..base }
}

impl Config {
    /// The configuration that holds where none is given.
    pub fn standard() -> (c: Config)
        ensures
            c.deep_view() == default_config(),
    {
        Config {
            prefixes: Prefix {
                search: String::from_str("🔍 "),
                list: String::from_str("📂 "),
                folder: String::from_str("📁 "),
            },
            theme: Theme {
                selected: Color { fg: None, bg: None },
                default: Color { fg: Some([100, 100, 100]), bg: None },
            },
            selector: String::from_str("> "),
            lame: false,
        }
    }
}

/// The configuration to run with. `given` is what a configuration file held,
/// if there was one; `lame` is what the command line asked for.
pub fn read_config(given: Option<Config>, lame: bool) -> (c: Config)
    ensures
        c.deep_view() == effective_config(
            match given {
                Some(g) => Some(g.deep_view()),
                None => None,
            },
            lame,
        ),
{
    let mut config = match given {
        Some(g) => g,
        None => Config::standard(),
    };
    if lame {
        config.lame = true;
    }
    config
}

} // verus!
