//! Plugin configuration: the session-name separator, the base paths stripped
//! from directories when deriving names, the optional default layout, and
//! whether recoverable sessions are shown.

use crate::strutil::{spec_trim, split_char_spec, trim};
use vstd::prelude::*;

verus! {

/// Immutable configuration, loaded once per plugin lifetime.
pub struct Config {
    /// Layout used for quick session creation, if any.
    pub default_layout: Option<String>,
    /// Separator between a base name and its disambiguating suffix.
    pub session_separator: String,
    /// Whether recoverable sessions appear in the unified list.
    pub show_resurrectable_sessions: bool,
    /// Prefixes stripped from directory paths before naming.
    pub base_paths: Vec<String>,
}

/// The value bound to the first pair whose key is `key`.
pub open spec fn spec_lookup(pairs: Seq<(String, String)>, key: Seq<char>) -> Option<Seq<char>>
    decreases pairs.len(),
{
    if pairs.len() == 0 {
        None
    } else if pairs[0].0@ == key {
        Some(pairs[0].1@)
    } else {
        spec_lookup(pairs.drop_first(), key)
    }
}

/// The base paths parsed from a `|`-delimited option value: each piece
/// trimmed of ASCII whitespace, empty pieces discarded.
pub open spec fn spec_base_paths(v: Seq<char>) -> Seq<Seq<char>> {
    pieces_trimmed(split_char_spec(v, '|'))
}

pub open spec fn pieces_trimmed(pieces: Seq<Seq<char>>) -> Seq<Seq<char>>
    decreases pieces.len(),
{
    if pieces.len() == 0 {
        seq![]
    } else {
        let t = spec_trim(pieces[0]);
        (if t.len() > 0 {
            seq![t]
        } else {
            seq![]
        }) + pieces_trimmed(pieces.drop_first())
    }
}

fn lookup<'a>(pairs: &'a Vec<(String, String)>, key: &str) -> (r: Option<&'a String>)
    ensures
        match r {
            Some(v) => spec_lookup(pairs@, key@) == Some(v@),
            None => spec_lookup(pairs@, key@) is None,
        },
{
    let n = pairs.len();
    let mut i: usize = 0;
    proof {
        assert(pairs@.skip(0) =~= pairs@);
    }
    while i < n
        invariant
            n == pairs@.len(),
            i <= n,
            spec_lookup(pairs@, key@) == spec_lookup(pairs@.skip(i as int), key@),
        decreases n - i,
    {
        proof {
            assert(pairs@.skip(i as int)[0] == pairs@[i as int]);
            assert(pairs@.skip(i as int).drop_first() =~= pairs@.skip(i as int + 1));
        }
        if crate::strutil::str_eq(pairs[i].0.as_str(), key) {
            return Some(&pairs[i].1);
        }
        i = i + 1;
    }
    None
}

fn parse_base_paths(v: &str) -> (r: Vec<String>)
    ensures
        r.deep_view() == spec_base_paths(v@),
{
    let pieces = crate::strutil::split_on_char(v, '|');
    let ghost pdv = pieces.deep_view();
    let mut r: Vec<String> = Vec::new();
    let n = pieces.len();
    let mut i: usize = 0;
    proof {
        assert(pdv.skip(0) =~= pdv);
        assert(r.deep_view() =~= Seq::<Seq<char>>::empty());
        assert(r.deep_view() + pieces_trimmed(pdv) =~= pieces_trimmed(pdv));
    }
    while i < n
        invariant
            n == pieces.len(),
            pdv == pieces.deep_view(),
            i <= n,
            r.deep_view() + pieces_trimmed(pdv.skip(i as int)) =~= pieces_trimmed(pdv),
        decreases n - i,
    {
        proof {
            assert(pdv.skip(i as int)[0] == pdv[i as int]);
            assert(pdv.skip(i as int).drop_first() =~= pdv.skip(i as int + 1));
        }
        let t = trim(pieces[i].as_str());
        if t.unicode_len() > 0 {
            let ghost pre = r.deep_view();
            r.push(t);
            proof {
                assert(r.deep_view() =~= pre + seq![spec_trim(pdv[i as int])]);
                assert((pre + seq![spec_trim(pdv[i as int])]) + pieces_trimmed(
                    pdv.skip(i as int + 1),
                ) =~= pre + (seq![spec_trim(pdv[i as int])] + pieces_trimmed(
                    pdv.skip(i as int + 1),
                )));
            }
        } else {
            proof {
                assert(seq![spec_trim(pdv[i as int])].len() == 1);
                assert(pieces_trimmed(pdv.skip(i as int)) =~= pieces_trimmed(
                    pdv.skip(i as int + 1),
                ));
            }
        }
        i = i + 1;
    }
    proof {
        assert(pdv.skip(n as int) =~= Seq::<Seq<char>>::empty());
        assert(r.deep_view() + pieces_trimmed(pdv.skip(n as int)) =~= r.deep_view());
    }
    r
}

impl Config {
    /// Builds the configuration from the host's key/value option pairs.
    ///
    /// Unset options take their defaults: no default layout, separator `"."`,
    /// recoverable sessions hidden, no base paths.
    pub fn from_zellij_config(pairs: &Vec<(String, String)>) -> (c: Config)
        ensures
            match spec_lookup(pairs@, "default_layout"@) {
                Some(v) => c.default_layout matches Some(l) && l@ == v,
                None => c.default_layout is None,
            },
            c.session_separator@ == match spec_lookup(pairs@, "session_separator"@) {
                Some(v) => v,
                None => "."@,
            },
            c.show_resurrectable_sessions == (spec_lookup(
                pairs@,
                "show_resurrectable_sessions"@,
            ) == Some("true"@)),
            c.base_paths.deep_view() == match spec_lookup(pairs@, "base_paths"@) {
                Some(v) => spec_base_paths(v),
                None => Seq::<Seq<char>>::empty(),
            },
    {
        let default_layout = match lookup(pairs, "default_layout") {
            Some(v) => Some(v.clone()),
            None => None,
        };
        let session_separator = match lookup(pairs, "session_separator") {
            Some(v) => v.clone(),
            None => String::from_str("."),
        };
        let show_resurrectable_sessions = match lookup(pairs, "show_resurrectable_sessions") {
            Some(v) => crate::strutil::str_eq(v.as_str(), "true"),
            None => false,
        };
        let base_paths = match lookup(pairs, "base_paths") {
            Some(v) => parse_base_paths(v.as_str()),
            None => {
                let empty: Vec<String> = Vec::new();
                proof {
                    assert(empty.deep_view() =~= Seq::<Seq<char>>::empty());
                }
                empty
            },
        };
        Config { default_layout, session_separator, show_resurrectable_sessions, base_paths }
    }
}

impl Default for Config {
    /// The configuration used when the host supplies no options.
    fn default() -> (c: Config)
        ensures
            c.default_layout is None,
            c.session_separator@ == "."@,
            !c.show_resurrectable_sessions,
            c.base_paths@.len() == 0,
    {
        Config {
            default_layout: None,
            session_separator: String::from_str("."),
            show_resurrectable_sessions: false,
            base_paths: Vec::new(),
        }
    }
}

} // verus!
