//! Provides the configuration of a website.

use vstd::prelude::*;

verus! {

/// Holds website configuration information.
#[derive(Clone, Debug)]
pub struct Config {
    pub site: Site,
    pub style: Style,
}

/// Holds general information about the website.
#[derive(Clone, Debug)]
pub struct Site {
    /// Holds the website name.
    pub name: String,
    /// Holds optional instructions on how to format the page title.
    ///
    /// Options are "page", "site", "page | site", and "site | page".
    /// If not specified, Cobalt defaults to "page".
    pub title: Option<String>,
    /// Holds the Cobalt source directory.
    ///
    /// If not specified, Cobalt defaults to the current directory.
    pub path: Option<String>,
}

/// Holds information about the website's CSS style.
#[derive(Clone, Debug)]
pub struct Style {
    pub default: String,
    pub external: Option<Vec<String>>,
}

/// General information about the website, as a mathematical value.
pub struct SiteView {
    pub name: Seq<char>,
    pub title: Option<Seq<char>>,
    pub path: Option<Seq<char>>,
}

/// The website's style, as a mathematical value.
pub struct StyleView {
    pub default: Seq<char>,
    pub external: Option<Seq<Seq<char>>>,
}

/// A configuration, as a mathematical value.
pub struct ConfigView {
    pub site: SiteView,
    pub style: StyleView,
}

/// The texts that a list of strings holds.
pub open spec fn string_views(strings: Seq<String>) -> Seq<Seq<char>> {
    strings.map_values(|s: String| s@)
}

impl View for Site {
    type V = SiteView;

    open spec fn view(&self) -> SiteView {
        SiteView {
            name: self.name@,
            title: match self.title {
                Some(s) => Some(s@),
                None => None,
            },
            path: match self.path {
                Some(s) => Some(s@),
                None => None,
            },
        }
    }
}

impl View for Style {
    type V = StyleView;

    open spec fn view(&self) -> StyleView {
        StyleView {
            default: self.default@,
            external: match self.external {
                Some(v) => Some(string_views(v@)),
                None => None,
            },
        }
    }
}

impl View for Config {
    type V = ConfigView;

    open spec fn view(&self) -> ConfigView {
        ConfigView { site: self.site@, style: self.style@ }
    }
}

} // verus!
