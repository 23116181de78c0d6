//! First-match routing: which backend a request path goes to.

use vstd::prelude::*;

use crate::config::{Router, Rule, SocketAddress, opt_text};
use crate::number::{decimal, push_decimal};
use crate::text::{chars_of, push_chars, push_str, starts_with, string_from};

verus! {

/// Whether a rule serves a path: a rule without a prefix serves every path,
/// otherwise its prefix must start the path.
pub open spec fn rule_matches(r: Rule, path: Seq<char>) -> bool {
    match r.frontend_prefix {
        None => true,
        Some(p) => p@.is_prefix_of(path),
    }
}

/// The first rule, in order, that serves the path.
pub open spec fn first_match(rules: Seq<Rule>, path: Seq<char>) -> Option<Rule>
    decreases rules.len(),
{
    if rules.len() == 0 {
        None
    } else if rule_matches(rules[0], path) {
        Some(rules[0])
    } else {
        first_match(rules.drop_first(), path)
    }
}

/// The backend host of a rule: `localhost` when it names none.
pub open spec fn backend_host(r: Rule) -> Seq<char> {
    match r.backend_host {
        Some(h) => h@,
        None => "localhost"@,
    }
}

/// The backend port of a rule: the port listened on when it names none.
pub open spec fn backend_port(r: Rule, frontend: SocketAddress) -> u16 {
    match r.backend_port {
        Some(p) => p,
        None => frontend.port,
    }
}

/// The address a request is forwarded to: `http://host:port` followed by
/// the request's path and query.
pub open spec fn target_uri(r: Rule, frontend: SocketAddress, path: Seq<char>) -> Seq<char> {
    "http://"@ + backend_host(r) + ":"@ + decimal(backend_port(r, frontend) as nat) + path
}

/// Where a path is routed: the target of the first rule that serves it, or
/// nothing when no rule does.
pub open spec fn route_spec(router: Router, path: Seq<char>) -> Option<Seq<char>> {
    match first_match(router.rules@, path) {
        Some(r) => Some(target_uri(r, router.frontend, path)),
        None => None,
    }
}

/// The path and query of a request, `/` when the request has none.
pub open spec fn request_path(path_and_query: Option<Seq<char>>) -> Seq<char> {
    match path_and_query {
        Some(p) => p,
        None => "/"@,
    }
}

/// Whether `hyper` accepts a text as a URI.
pub uninterp spec fn uri_parses(text: Seq<char>) -> bool;

/// Checks a text with `hyper::Uri`'s `FromStr`. Trusted: the answer is
/// what `uri_parses` names for this text.
#[verifier::external_body]
fn uri_is_valid(text: &str) -> (ok: bool)
    ensures
        ok == uri_parses(text@),
{
    text.parse::<hyper::Uri>().is_ok()
}

/// The proxy's routing table.
pub struct RebabProxy {
    pub router: Router,
}

impl RebabProxy {
    /// Index of the first rule that serves `path`, if any.
    fn first_match_index(&self, path: &Vec<char>) -> (res: Option<usize>)
        ensures
            match res {
                Some(i) => i < self.router.rules@.len() && first_match(self.router.rules@, path@)
                    == Some(self.router.rules@[i as int]),
                None => first_match(self.router.rules@, path@) is None,
            },
    {
        let rules = &self.router.rules;
        let n = rules.len();
        let mut i: usize = 0;
        assert(rules@.skip(0) =~= rules@);
        while i < n
            invariant
                i <= n == rules@.len(),
                rules@ == self.router.rules@,
                first_match(rules@, path@) == first_match(rules@.skip(i as int), path@),
            decreases n - i,
        {
            let r = &rules[i];
            assert(rules@.skip(i as int)[0] == rules@[i as int]);
            assert(rules@.skip(i as int).drop_first() =~= rules@.skip(i + 1));
            let serves = match &r.frontend_prefix {
                None => true,
                Some(p) => starts_with(path, &chars_of(p.as_str())),
            };
            assert(serves == rule_matches(*r, path@));
            if serves {
                assert(first_match(rules@.skip(i as int), path@) == Some(rules@[i as int]));
                return Some(i);
            }
            i = i + 1;
        }
        None
    }

    /// The address a request with this path and query goes to, or nothing
    /// when no rule serves it.
    pub fn route(&self, path_and_query: &str) -> (res: Option<String>)
        ensures
            opt_text(res) == route_spec(self.router, path_and_query@),
    {
        let path = chars_of(path_and_query);
        match self.first_match_index(&path) {
            None => None,
            Some(i) => {
                let r = &self.router.rules[i];
                let mut out: Vec<char> = Vec::new();
                push_str(&mut out, "http://");
                match &r.backend_host {
                    Some(h) => push_str(&mut out, h.as_str()),
                    None => push_str(&mut out, "localhost"),
                }
                push_str(&mut out, ":");
                let port = match r.backend_port {
                    Some(p) => p,
                    None => self.router.frontend.port,
                };
                push_decimal(&mut out, port as u64);
                push_chars(&mut out, &path);
                Some(string_from(&out))
            },
        }
    }

    /// Maps the path and query of an incoming request to the address it is
    /// forwarded to: the first serving rule's target, or `/` when that
    /// target is not a valid URI; nothing when no rule serves the request.
    pub fn uri2uri(&self, path_and_query: Option<&str>) -> (res: Option<String>)
        ensures
            opt_text(res) == match route_spec(
                self.router,
                request_path(match path_and_query {
                    Some(p) => Some(p@),
                    None => None,
                }),
            ) {
                Some(t) => Some(if uri_parses(t) { t } else { "/"@ }),
                None => None,
            },
    {
        let path = match path_and_query {
            Some(p) => p,
            None => "/",
        };
        match self.route(path) {
            None => None,
            Some(target) => {
                if uri_is_valid(target.as_str()) {
                    Some(target)
                } else {
                    Some(String::from_str("/"))
                }
            },
        }
    }
}

/// The rule chosen for a path is the first one that serves it: every rule
/// before it does not, and if no rule is chosen, none serves the path.
pub proof fn lemma_first_match_wins(rules: Seq<Rule>, path: Seq<char>)
    ensures
        match first_match(rules, path) {
            Some(r) => exists|i: int|
                0 <= i < rules.len() && rules[i] == r && rule_matches(r, path) && forall|j: int|
                    0 <= j < i ==> !rule_matches(#[trigger] rules[j], path),
            None => forall|i: int| 0 <= i < rules.len() ==> !rule_matches(#[trigger] rules[i], path),
        },
    decreases rules.len(),
{
    if rules.len() > 0 {
        let rest = rules.drop_first();
        lemma_first_match_wins(rest, path);
        if !rule_matches(rules[0], path) {
            match first_match(rest, path) {
                Some(r) => {
                    let k = choose|k: int|
                        0 <= k < rest.len() && rest[k] == r && rule_matches(r, path) && forall|j: int|
                            0 <= j < k ==> !rule_matches(#[trigger] rest[j], path);
                    assert(rules[k + 1] == r);
                    assert forall|j: int| 0 <= j < k + 1 implies !rule_matches(
                        #[trigger] rules[j],
                        path,
                    ) by {
                        if j > 0 {
                            assert(rules[j] == rest[j - 1]);
                        }
                    }
                },
                None => {
                    assert forall|i: int| 0 <= i < rules.len() implies !rule_matches(
                        #[trigger] rules[i],
                        path,
                    ) by {
                        if i > 0 {
                            assert(rules[i] == rest[i - 1]);
                        }
                    }
                },
            }
        }
    }
}

/// A rule without a prefix serves every path, so it is chosen whenever no
/// rule before it serves the path, and no rule after it is ever chosen.
pub proof fn lemma_rule_without_prefix_catches_all(rules: Seq<Rule>, path: Seq<char>, i: int)
    requires
        0 <= i < rules.len(),
        rules[i].frontend_prefix is None,
        forall|j: int| 0 <= j < i ==> !rule_matches(#[trigger] rules[j], path),
    ensures
        first_match(rules, path) == Some(rules[i]),
    decreases i,
{
    if i > 0 {
        let rest = rules.drop_first();
        assert(!rule_matches(rules[0], path));
        assert forall|j: int| 0 <= j < i - 1 implies !rule_matches(#[trigger] rest[j], path) by {
            assert(rest[j] == rules[j + 1]);
        }
        lemma_rule_without_prefix_catches_all(rest, path, i - 1);
    }
}

/// Rules added after others (as the command line adds them after the
/// configuration file's) only serve the paths that none of the earlier
/// rules serves.
pub proof fn lemma_later_rules_only_serve_unmatched(
    earlier: Seq<Rule>,
    later: Seq<Rule>,
    path: Seq<char>,
)
    ensures
        first_match(earlier + later, path) == match first_match(earlier, path) {
            Some(r) => Some(r),
            None => first_match(later, path),
        },
    decreases earlier.len(),
{
    if earlier.len() == 0 {
        assert(earlier + later =~= later);
    } else {
        assert((earlier + later)[0] == earlier[0]);
        assert((earlier + later).drop_first() =~= earlier.drop_first() + later);
        lemma_later_rules_only_serve_unmatched(earlier.drop_first(), later, path);
    }
}

} // verus!

verus! {

/// A request with a path and query is routed on that whole text and
/// forwarded with it unchanged: it is routed exactly when some rule's
/// prefix starts the text, and then the target is `http://`, the backend's
/// host and port, and the request's path and query exactly as sent (query
/// string included).
pub proof fn lemma_target_carries_whole_path_and_query(router: Router, p: Seq<char>)
    ensures
        route_spec(router, request_path(Some(p))) is Some <==> exists|i: int|
            0 <= i < router.rules@.len() && rule_matches(#[trigger] router.rules@[i], p),
        route_spec(router, request_path(Some(p))) matches Some(t) ==> {
            &&& "http://"@.is_prefix_of(t)
            &&& t.len() >= p.len() + 7
            &&& t.subrange(t.len() - p.len(), t.len() as int) == p
        },
{
    reveal_strlit("http://");
    lemma_first_match_wins(router.rules@, p);
    if let Some(r) = first_match(router.rules@, p) {
        let head = "http://"@ + backend_host(r) + ":"@ + decimal(backend_port(r, router.frontend) as nat);
        let t = head + p;
        assert(t == target_uri(r, router.frontend, p));
        assert(t.subrange(t.len() - p.len(), t.len() as int) =~= p);
        assert(head.len() >= 7);
        assert(t.subrange(0, 7) =~= "http://"@);
    }
}

} // verus!
