use vstd::prelude::*;

use crate::text::{first_char, last_char};

verus! {

broadcast use vstd::string::group_string_axioms;

/// `base` and the relative path `part` joined by one separator: nothing is
/// put before `part` when `base` is empty, and no second separator when
/// `base` already ends with one.
pub open spec fn join_path(base: Seq<char>, part: Seq<char>) -> Seq<char> {
    if base.len() == 0 {
        part
    } else if base.last() == '/' {
        base + part
    } else {
        base + seq!['/'] + part
    }
}

/// A path that starts at the root.
pub open spec fn is_absolute_path(path: Seq<char>) -> bool {
    path.len() > 0 && path[0] == '/'
}

/// Where the history database lives inside a data directory.
pub open spec fn data_dir_suffix() -> Seq<char> {
    "rust-calc/history.ferrite"@
}

/// Where the history database lives inside a home directory.
pub open spec fn home_suffix() -> Seq<char> {
    ".local/share/rust-calc/history.ferrite"@
}

/// The path used when no directory is known.
pub open spec fn fallback_path() -> Seq<char> {
    "data/history.ferrite"@
}

/// The database path: an explicit path as it is; else inside the XDG data
/// directory when that is an absolute path; else inside the home
/// directory's `.local/share`; else the relative fallback.
pub open spec fn database_path_of(
    explicit: Option<Seq<char>>,
    xdg_data_home: Option<Seq<char>>,
    home: Option<Seq<char>>,
) -> Seq<char> {
    match explicit {
        Some(p) => p,
        None => match xdg_data_home {
            Some(x) if is_absolute_path(x) => join_path(x, data_dir_suffix()),
            _ => match home {
                Some(h) => join_path(h, home_suffix()),
                None => fallback_path(),
            },
        },
    }
}

/// The view of an optional string.
pub open spec fn optional_view(s: Option<String>) -> Option<Seq<char>> {
    match s {
        Some(t) => Some(t@),
        None => None,
    }
}

fn join(base: &str, part: &str) -> (res: String)
    ensures
        res@ == join_path(base@, part@),
{
    let mut res = String::from_str(base);
    match last_char(base) {
        None => {},
        Some(c) => {
            if c != '/' {
                res.append("/");
                proof { reveal_strlit("/"); }
            }
        },
    }
    res.append(part);
    res
}

fn is_absolute(path: &str) -> (b: bool)
    ensures
        b == is_absolute_path(path@),
{
    match first_char(path) {
        Some(c) => c == '/',
        None => false,
    }
}

/// Chooses the location of the history database from the explicitly
/// configured path, the XDG data directory and the home directory, in that
/// order of precedence.
pub fn resolve_database_path(
    explicit: Option<String>,
    xdg_data_home: Option<String>,
    home: Option<String>,
) -> (path: String)
    ensures
        path@ == database_path_of(optional_view(explicit), optional_view(xdg_data_home), optional_view(home)),
{
    proof {
        reveal_strlit("rust-calc/history.ferrite");
        reveal_strlit(".local/share/rust-calc/history.ferrite");
        reveal_strlit("data/history.ferrite");
    }
    if let Some(p) = explicit {
        return p;
    }
    if let Some(x) = &xdg_data_home {
        if is_absolute(x.as_str()) {
            return join(x.as_str(), "rust-calc/history.ferrite");
        }
    }
    match &home {
        Some(h) => join(h.as_str(), ".local/share/rust-calc/history.ferrite"),
        None => String::from_str("data/history.ferrite"),
    }
}


/// Precedence of the database location: an explicit path is used as it is,
/// whatever else is set; without one, an absolute XDG data directory is
/// used whatever the home directory is; a home directory is used only when
/// no usable XDG data directory is given.
pub proof fn lemma_database_path_precedence(
    explicit: Option<Seq<char>>,
    xdg_data_home: Option<Seq<char>>,
    home: Option<Seq<char>>,
)
    ensures
        explicit matches Some(p) ==> database_path_of(explicit, xdg_data_home, home) == p,
        explicit is None && xdg_data_home is Some && xdg_data_home->0.len() > 0 && xdg_data_home->0[0]
            == '/' ==> {
            let x = xdg_data_home->0;
            database_path_of(explicit, xdg_data_home, home) == if x.last() == '/' {
                x + "rust-calc/history.ferrite"@
            } else {
                x + "/"@ + "rust-calc/history.ferrite"@
            }
        },
        explicit is None && !(xdg_data_home is Some && xdg_data_home->0.len() > 0 && xdg_data_home->0[0] == '/')
            && home is Some && home->0.len() > 0 ==> {
            let h = home->0;
            database_path_of(explicit, xdg_data_home, home) == if h.last() == '/' {
                h + ".local/share/rust-calc/history.ferrite"@
            } else {
                h + "/"@ + ".local/share/rust-calc/history.ferrite"@
            }
        },
        explicit is None && !(xdg_data_home is Some && xdg_data_home->0.len() > 0 && xdg_data_home->0[0] == '/')
            && home is None ==> database_path_of(explicit, xdg_data_home, home)
            == "data/history.ferrite"@,
{
    reveal_strlit("/");
    assert("/"@ == seq!['/']);
}

} // verus!
