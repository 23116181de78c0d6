//! Regex routes given as `PATH_REGEX=>PORT:PATH_REPLACEMENT`, and their
//! listing.

use vstd::prelude::*;
use vstd::utf8::encode_utf8;

use crate::number::{decimal, parse_u16, parse_u16_spec, push_decimal};
use crate::text::{chars_of, push_chars, push_str, slice, string_from};

verus! {

/// A route: requests whose path matches `path` go to `port`, with the path
/// rewritten to `path_into`.
#[derive(Debug, Clone, PartialEq, Eq)]
pub struct Route {
    pub port: u16,
    /// The path pattern, a regular expression that compiles.
    pub path: String,
    pub path_into: String,
}

/// Whether the `regex` crate compiles a pattern.
pub uninterp spec fn regex_compiles(pattern: Seq<char>) -> bool;

/// Compiles a pattern with `regex::Regex::new`. Trusted: the answer is what
/// `regex_compiles` names for the pattern.
#[verifier::external_body]
fn compiles(pattern: &str) -> (ok: bool)
    ensures
        ok == regex_compiles(pattern@),
{
    regex::Regex::new(pattern).is_ok()
}

/// Index of the first `=>` in `s`.
pub open spec fn first_arrow(s: Seq<char>) -> Option<int>
    decreases s.len(),
{
    if s.len() < 2 {
        None
    } else if s[0] == '=' && s[1] == '>' {
        Some(0)
    } else {
        match first_arrow(s.drop_first()) {
            Some(i) => Some(i + 1),
            None => None,
        }
    }
}

/// Index of the first `:` in `s`.
pub open spec fn first_colon(s: Seq<char>) -> Option<int>
    decreases s.len(),
{
    if s.len() == 0 {
        None
    } else if s[0] == ':' {
        Some(0)
    } else {
        match first_colon(s.drop_first()) {
            Some(i) => Some(i + 1),
            None => None,
        }
    }
}

pub const FORMAT_ERROR: &'static str = "Expected format: PATH_REGEX=>PORT:PATH_REPLACEMENT";
pub const REGEX_ERROR: &'static str = "cannot compile path as regex";
pub const TARGET_ERROR: &'static str = "Expected format after =>: PORT:PATH_REPLACEMENT";
pub const PORT_ERROR: &'static str = "port cannot parse as u16";

/// What `PATH_REGEX=>PORT:PATH_REPLACEMENT` reads as: `s` must hold `=>`
/// exactly once; the pattern before it must compile; the text after it
/// must hold a `:`, before which stands the port.
pub open spec fn route_spec(s: Seq<char>) -> Result<(u16, Seq<char>, Seq<char>), Seq<char>> {
    match first_arrow(s) {
        None => Err(FORMAT_ERROR@),
        Some(i) => {
            let pattern = s.take(i);
            let target = s.skip(i + 2);
            if first_arrow(target) is Some {
                Err(FORMAT_ERROR@)
            } else if !regex_compiles(pattern) {
                Err(REGEX_ERROR@)
            } else {
                match first_colon(target) {
                    None => Err(TARGET_ERROR@),
                    Some(j) => match parse_u16_spec(target.take(j)) {
                        Err(_) => Err(PORT_ERROR@),
                        Ok(port) => Ok((port, pattern, target.skip(j + 1))),
                    },
                }
            }
        },
    }
}

/// Index of the first `=>` in `v` at or after `from`.
fn find_arrow(v: &Vec<char>, from: usize) -> (res: Option<usize>)
    requires
        from <= v.len(),
    ensures
        match res {
            Some(i) => first_arrow(v@.skip(from as int)) == Some(i - from) && from <= i && i + 2 <= v.len(),
            None => first_arrow(v@.skip(from as int)) is None,
        },
{
    let n = v.len();
    let mut i = from;
    assert(v@.skip(from as int).skip(0) =~= v@.skip(from as int));
    while n - i >= 2
        invariant
            from <= i <= n == v.len(),
            first_arrow(v@.skip(from as int)) == match first_arrow(v@.skip(i as int)) {
                Some(k) => Some(k + (i - from)),
                None => None,
            },
        decreases n - i,
    {
        assert(v@.skip(i as int).drop_first() =~= v@.skip(i + 1));
        if v[i] == '=' && v[i + 1] == '>' {
            return Some(i);
        }
        i = i + 1;
    }
    None
}

/// Index of the first `:` in `v` at or after `from`.
fn find_colon(v: &Vec<char>, from: usize) -> (res: Option<usize>)
    requires
        from <= v.len(),
    ensures
        match res {
            Some(i) => first_colon(v@.skip(from as int)) == Some(i - from) && from <= i < v.len(),
            None => first_colon(v@.skip(from as int)) is None,
        },
{
    let n = v.len();
    let mut i = from;
    while i < n
        invariant
            from <= i <= n == v.len(),
            first_colon(v@.skip(from as int)) == match first_colon(v@.skip(i as int)) {
                Some(k) => Some(k + (i - from)),
                None => None,
            },
        decreases n - i,
    {
        assert(v@.skip(i as int).drop_first() =~= v@.skip(i + 1));
        if v[i] == ':' {
            return Some(i);
        }
        i = i + 1;
    }
    None
}

/// A route read as plain values.
pub open spec fn route_view(r: Route) -> (u16, Seq<char>, Seq<char>) {
    (r.port, r.path@, r.path_into@)
}

impl Route {
    /// Reads a route from `PATH_REGEX=>PORT:PATH_REPLACEMENT`.
    pub fn from_str(s: &str) -> (res: Result<Route, &'static str>)
        ensures
            match route_spec(s@) {
                Ok(r) => res matches Ok(route) && route_view(route) == r,
                Err(m) => res matches Err(e) && e@ == m,
            },
    {
        let v = chars_of(s);
        let i = match find_arrow(&v, 0) {
            None => {
                assert(v@.skip(0) =~= v@);
                return Err(FORMAT_ERROR);
            },
            Some(i) => i,
        };
        assert(v@.skip(0) =~= v@);
        let pattern = slice(&v, 0, i);
        assert(pattern@ =~= v@.take(i as int));
        assert(v@.skip(i + 2) =~= v@.skip(i as int + 2));
        match find_arrow(&v, i + 2) {
            Some(_) => {
                return Err(FORMAT_ERROR);
            },
            None => {},
        }
        let pattern_text = string_from(&pattern);
        if !compiles(pattern_text.as_str()) {
            return Err(REGEX_ERROR);
        }
        let ghost target = v@.skip(i + 2);
        let j = match find_colon(&v, i + 2) {
            None => {
                return Err(TARGET_ERROR);
            },
            Some(j) => j,
        };
        let port_text = slice(&v, i + 2, j);
        assert(port_text@ =~= target.take(j - (i + 2)));
        let port = match parse_u16(&port_text) {
            Err(_) => {
                return Err(PORT_ERROR);
            },
            Ok(p) => p,
        };
        let into = slice(&v, j + 1, v.len());
        assert(into@ =~= target.skip(j - (i + 2) + 1));
        Ok(Route { port, path: pattern_text, path_into: string_from(&into) })
    }
}

/// The length in bytes of a text in UTF-8.
pub open spec fn utf8_len(s: Seq<char>) -> nat {
    encode_utf8(s).len()
}

/// The width of the pattern column: the longest pattern's length in bytes.
pub open spec fn pattern_width(routes: Seq<Route>) -> nat
    decreases routes.len(),
{
    if routes.len() == 0 {
        0
    } else {
        let w = pattern_width(routes.drop_last());
        let l = utf8_len(routes.last().path@);
        if l > w { l } else { w }
    }
}

/// `n` spaces.
pub open spec fn spaces(n: nat) -> Seq<char> {
    Seq::new(n, |i: int| ' ')
}

/// `s` followed by spaces up to `width` characters.
pub open spec fn pad_right(s: Seq<char>, width: nat) -> Seq<char> {
    if s.len() < width { s + spaces((width - s.len()) as nat) } else { s }
}

/// `s` preceded by spaces up to `width` characters.
pub open spec fn pad_left(s: Seq<char>, width: nat) -> Seq<char> {
    if s.len() < width { spaces((width - s.len()) as nat) + s } else { s }
}

/// The listing line of a route: `route <index> <pattern> => <port>:<path>`,
/// the index right-aligned in two columns and the pattern padded to the
/// column width.
pub open spec fn route_line(index: nat, r: Route, width: nat) -> Seq<char> {
    "route "@ + pad_left(decimal(index), 2) + " "@ + pad_right(r.path@, width) + " => "@ + decimal(
        r.port as nat,
    ) + ":"@ + r.path_into@
}

fn push_spaces(out: &mut Vec<char>, n: usize)
    ensures
        final(out)@ == old(out)@ + spaces(n as nat),
{
    let ghost start = out@;
    for i in 0..n
        invariant
            out@ == start + spaces(i as nat),
    {
        out.push(' ');
        assert(spaces((i + 1) as nat) =~= spaces(i as nat).push(' '));
    }
}

impl Route {
    /// The listing of routes, one line per route in order.
    pub fn prints(routes: &Vec<Route>) -> (res: Vec<String>)
        ensures
            res@.len() == routes@.len(),
            forall|i: int|
                0 <= i < routes@.len() ==> (#[trigger] res@[i])@ == route_line(
                    i as nat,
                    routes@[i],
                    pattern_width(routes@),
                ),
    {
        let n = routes.len();
        let mut width: usize = 0;
        for i in 0..n
            invariant
                n == routes@.len(),
                width == pattern_width(routes@.take(i as int)),
        {
            assert(routes@.take(i + 1).drop_last() =~= routes@.take(i as int));
            assert(routes@.take(i + 1).last() == routes@[i as int]);
            let l = routes[i].path.as_str().as_bytes().len();
            assert(l == utf8_len(routes@[i as int].path@));
            if l > width {
                width = l;
            }
        }
        assert(routes@.take(n as int) =~= routes@);
        let mut lines: Vec<String> = Vec::new();
        for i in 0..n
            invariant
                n == routes@.len(),
                width == pattern_width(routes@),
                lines@.len() == i,
                forall|k: int|
                    0 <= k < i ==> (#[trigger] lines@[k])@ == route_line(k as nat, routes@[k], width as nat),
        {
            let r = &routes[i];
            let mut v: Vec<char> = Vec::new();
            push_str(&mut v, "route ");
            let mut index: Vec<char> = Vec::new();
            push_decimal(&mut index, i as u64);
            if index.len() < 2 {
                push_spaces(&mut v, 2 - index.len());
            }
            push_chars(&mut v, &index);
            push_str(&mut v, " ");
            let path = chars_of(r.path.as_str());
            push_chars(&mut v, &path);
            if path.len() < width {
                push_spaces(&mut v, width - path.len());
            }
            push_str(&mut v, " => ");
            push_decimal(&mut v, r.port as u64);
            push_str(&mut v, ":");
            push_str(&mut v, r.path_into.as_str());
            assert(v@ =~= route_line(i as nat, *r, width as nat));
            lines.push(string_from(&v));
        }
        lines
    }
}

} // verus!
