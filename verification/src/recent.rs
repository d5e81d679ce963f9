//! Where the most recently opened target is remembered between runs.

use vstd::prelude::*;
use crate::path::{join, join_spec};

verus! {

/// The most recently opened target.
#[derive(Debug, Clone)]
pub struct RecentProject {
    pub target: String,
}

/// The configuration directory: `XDG_CONFIG_HOME` when set, else
/// `$HOME/.config`, else the current directory.
pub open spec fn config_home(xdg: Option<Seq<char>>, home: Option<Seq<char>>) -> Seq<char> {
    match xdg {
        Some(x) => x,
        None => match home {
            Some(h) => join_spec(h, ".config"@),
            None => "."@,
        },
    }
}

/// The file holding the recent target: `<config>/marshmallow/recent.json`.
pub open spec fn recent_config_path(xdg: Option<Seq<char>>, home: Option<Seq<char>>) -> Seq<char> {
    join_spec(join_spec(config_home(xdg, home), "marshmallow"@), "recent.json"@)
}

/// An optional string, read as characters.
pub open spec fn opt_view(o: Option<&str>) -> Option<Seq<char>> {
    match o {
        Some(s) => Some(s@),
        None => None,
    }
}

impl RecentProject {
    /// The recent-target file, given the values of `XDG_CONFIG_HOME` and
    /// `HOME` (each `None` when unset).
    pub fn config_path_from(xdg_config_home: Option<&str>, home: Option<&str>) -> (r: String)
        ensures
            r@ == recent_config_path(opt_view(xdg_config_home), opt_view(home)),
    {
        let base = match xdg_config_home {
            Some(x) => crate::text::string_of(&crate::text::chars_of(x)),
            None => match home {
                Some(h) => join(h, ".config"),
                None => crate::text::string_of(&crate::text::chars_of(".")),
            },
        };
        let dir = join(&base, "marshmallow");
        join(&dir, "recent.json")
    }
}

} // verus!
