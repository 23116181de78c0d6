//! What the proxy does with a request: where it is sent, which headers go
//! with it, and how the original host and scheme are passed on.

use vstd::prelude::*;

use crate::config::opt_text;
use crate::number::parse_u16_spec;
use crate::routing::{RebabProxy, request_path, route_spec, uri_parses};
use crate::text::{
    is_space, lemma_before_first_append, lemma_trim_end_append, lemma_trim_start_unchanged,
    before_first, chars_eq_str, chars_of, push_str, split_first, string_from, trim,
    trim_chars, trim_end, trim_start_char, trim_start_matches,
};

verus! {

/// A header: its lower-case name and its value's bytes.
pub type Header = (String, Vec<u8>);

/// The hop-by-hop headers, which concern one connection only and are never
/// passed on: `connection`, `te`, `trailer`, `transfer-encoding`,
/// `upgrade`, `proxy-authenticate`, `proxy-authorization`.
pub open spec fn is_hop_by_hop(name: Seq<char>) -> bool {
    name == "connection"@ || name == "te"@ || name == "trailer"@ || name == "transfer-encoding"@
        || name == "upgrade"@ || name == "proxy-authenticate"@ || name == "proxy-authorization"@
}

/// Decides `is_hop_by_hop`.
pub fn hop_by_hop(name: &str) -> (res: bool)
    ensures
        res == is_hop_by_hop(name@),
{
    let n = chars_of(name);
    chars_eq_str(&n, "connection") || chars_eq_str(&n, "te") || chars_eq_str(&n, "trailer")
        || chars_eq_str(&n, "transfer-encoding") || chars_eq_str(&n, "upgrade")
        || chars_eq_str(&n, "proxy-authenticate") || chars_eq_str(&n, "proxy-authorization")
}

/// The headers of a request that are copied onto the forwarded request, in
/// order: all but the hop-by-hop ones and `host`, which is set anew.
pub open spec fn copied_headers(headers: Seq<Header>) -> Seq<Header>
    decreases headers.len(),
{
    if headers.len() == 0 {
        headers
    } else {
        let kept = copied_headers(headers.drop_last());
        let name = headers.last().0@;
        if is_hop_by_hop(name) || name == "host"@ {
            kept
        } else {
            kept.push(headers.last())
        }
    }
}

/// The headers of a backend response that are passed back, in order: all
/// but the hop-by-hop ones.
pub open spec fn returned_headers(headers: Seq<Header>) -> Seq<Header>
    decreases headers.len(),
{
    if headers.len() == 0 {
        headers
    } else {
        let kept = returned_headers(headers.drop_last());
        if is_hop_by_hop(headers.last().0@) {
            kept
        } else {
            kept.push(headers.last())
        }
    }
}

/// Keeps the headers whose names pass, in order; `also_host` drops `host`
/// as well as the hop-by-hop headers.
fn keep_headers(headers: Vec<Header>, also_host: bool) -> (res: Vec<Header>)
    ensures
        also_host ==> res@ == copied_headers(headers@),
        !also_host ==> res@ == returned_headers(headers@),
{
    let ghost all = headers@;
    let mut out: Vec<Header> = Vec::new();
    for h in it: headers.into_iter()
        invariant
            it.seq() == all,
            also_host ==> out@ == copied_headers(all.take(it.index())),
            !also_host ==> out@ == returned_headers(all.take(it.index())),
    {
        let ghost i = it.index();
        assert(all.take(i + 1).drop_last() =~= all.take(i));
        assert(all.take(i + 1).last() == h);
        let drop = hop_by_hop(h.0.as_str()) || (also_host && chars_eq_str(&chars_of(h.0.as_str()), "host"));
        if !drop {
            out.push(h);
        }
    }
    assert(all.take(all.len() as int) =~= all);
    out
}

/// The headers passed back from a backend response: all but the
/// hop-by-hop ones, in order.
pub fn response_headers(headers: Vec<Header>) -> (res: Vec<Header>)
    ensures
        res@ == returned_headers(headers@),
{
    keep_headers(headers, false)
}

/// An authority (`host[:port]`, possibly with user information) and the
/// port that it names, if any.
#[derive(Debug, Clone, PartialEq, Eq)]
pub struct Authority {
    pub text: String,
    pub port: Option<u16>,
}

impl View for Authority {
    type V = (Seq<char>, Option<u16>);

    open spec fn view(&self) -> (Seq<char>, Option<u16>) {
        (self.text@, self.port)
    }
}

/// What the proxy reads of an incoming request.
#[derive(Debug, Clone)]
pub struct RequestHead {
    /// The request target as it was written.
    pub uri_text: String,
    /// The authority of the request target, when it is in absolute form.
    pub authority: Option<Authority>,
    /// The path and query of the request target.
    pub path_and_query: Option<String>,
    /// The `Host` header, when it is present and is visible ASCII text.
    pub host_header: Option<String>,
}

/// The part of `s` after its last `c`, if it has one.
pub open spec fn after_last(s: Seq<char>, c: char) -> Option<Seq<char>>
    decreases s.len(),
{
    if s.len() == 0 {
        None
    } else if s.last() == c {
        Some(Seq::empty())
    } else {
        match after_last(s.drop_last(), c) {
            Some(t) => Some(t.push(s.last())),
            None => None,
        }
    }
}

/// The port an authority text names: the text after its last `:`, when it
/// reads as a port number.
pub open spec fn authority_port(text: Seq<char>) -> Option<u16> {
    match after_last(text, ':') {
        Some(t) => match parse_u16_spec(t) {
            Ok(p) => Some(p),
            Err(_) => None,
        },
        None => None,
    }
}

/// Whether `hyper` accepts a text as an authority.
pub uninterp spec fn is_authority(text: Seq<char>) -> bool;

/// Parses an authority with `hyper`'s `Authority::from_str`. Trusted:
/// success is what `is_authority` names for the text; the parsed
/// authority's text is the input and its `port_u16` is the number after the
/// last `:`, as `Authority::port` reads it.
#[verifier::external_body]
fn parse_authority(text: &str) -> (res: Option<Authority>)
    ensures
        res is Some == is_authority(text@),
        res matches Some(a) ==> a.text@ == text@ && a.port == authority_port(text@),
{
    match text.parse::<hyper::http::uri::Authority>() {
        Ok(a) => Some(Authority { text: a.as_str().to_string(), port: a.port_u16() }),
        Err(_) => None,
    }
}

/// The authority the client addressed: the request target's, or else the
/// `Host` header when it is a valid authority.
pub open spec fn original_authority_spec(head: RequestHead) -> Option<(Seq<char>, Option<u16>)> {
    match head.authority {
        Some(a) => Some(a@),
        None => match head.host_header {
            Some(h) => if is_authority(h@) {
                Some((h@, authority_port(h@)))
            } else {
                None
            },
            None => None,
        },
    }
}

/// Finds the authority the client addressed.
pub fn original_authority(head: &RequestHead) -> (res: Option<Authority>)
    ensures
        match res {
            Some(a) => original_authority_spec(*head) == Some(a@),
            None => original_authority_spec(*head) is None,
        },
{
    match &head.authority {
        Some(a) => Some(Authority { text: a.text.clone(), port: a.port }),
        None => match &head.host_header {
            Some(h) => parse_authority(h.as_str()),
            None => None,
        },
    }
}

/// The host name in a `Host` header: after trimming white space and any
/// leading `[`, the text before the first `]` and then before the first `:`.
pub open spec fn host_name(host: Seq<char>) -> Seq<char> {
    before_first(before_first(trim_start_char(trim(host), '['), ']'), ':')
}

/// The scheme the client is taken to have used, from the `Host` header:
/// `http` for `localhost`, `127.0.0.1` and `::1`, `https` for any other
/// host; nothing when the header is missing or blank.
pub open spec fn proto_spec(host_header: Option<Seq<char>>) -> Option<Seq<char>> {
    match host_header {
        None => None,
        Some(h) => if trim(h).len() == 0 {
            None
        } else {
            let name = host_name(h);
            if name == "localhost"@ || name == "127.0.0.1"@ || name == "::1"@ {
                Some("http"@)
            } else {
                Some("https"@)
            }
        },
    }
}

/// Works out the scheme the client used.
pub fn proto(head: &RequestHead) -> (res: Option<String>)
    ensures
        opt_text(res) == proto_spec(opt_text(head.host_header)),
{
    match &head.host_header {
        None => None,
        Some(h) => {
            let host = trim_chars(&chars_of(h.as_str()));
            if host.len() == 0 {
                return None;
            }
            let name = split_first(&split_first(&trim_start_matches(&host, '['), ']'), ':');
            if chars_eq_str(&name, "localhost") || chars_eq_str(&name, "127.0.0.1")
                || chars_eq_str(&name, "::1") {
                Some(String::from_str("http"))
            } else {
                Some(String::from_str("https"))
            }
        },
    }
}

/// The headers that tell the backend how the client addressed the proxy.
#[derive(Debug, Clone, PartialEq, Eq)]
pub struct ForwardedHeaders {
    /// Value of `x-forwarded-host`: the original authority.
    pub host: String,
    /// Value of `x-forwarded-proto`: the original scheme.
    pub proto: String,
    /// Value of `x-forwarded-port`, when the original authority names a port.
    pub port: Option<u16>,
    /// Value appended as `forwarded`: `proto=<scheme>;host="<authority>"`.
    pub forwarded: String,
}

/// The `forwarded` header value for a scheme and an authority.
pub open spec fn forwarded_value(proto: Seq<char>, host: Seq<char>) -> Seq<char> {
    "proto="@ + proto + ";host=\""@ + host + "\""@
}

/// The forwarding headers for a request: present only when both the
/// original authority and the scheme are known.
pub open spec fn forwarded_spec(head: RequestHead) -> Option<(Seq<char>, Seq<char>, Option<u16>, Seq<char>)> {
    match (original_authority_spec(head), proto_spec(opt_text(head.host_header))) {
        (Some(a), Some(p)) => Some((a.0, p, a.1, forwarded_value(p, a.0))),
        _ => None,
    }
}

/// A forwarding-header set seen as plain values.
pub open spec fn forwarded_view(f: Option<ForwardedHeaders>) -> Option<(Seq<char>, Seq<char>, Option<u16>, Seq<char>)> {
    match f {
        Some(x) => Some((x.host@, x.proto@, x.port, x.forwarded@)),
        None => None,
    }
}

/// Works out the forwarding headers for a request.
pub fn forwarded_headers(head: &RequestHead) -> (res: Option<ForwardedHeaders>)
    ensures
        forwarded_view(res) == forwarded_spec(*head),
{
    let authority = original_authority(head);
    let scheme = proto(head);
    match (authority, scheme) {
        (Some(a), Some(p)) => {
            let mut v: Vec<char> = Vec::new();
            push_str(&mut v, "proto=");
            push_str(&mut v, p.as_str());
            push_str(&mut v, ";host=\"");
            push_str(&mut v, a.text.as_str());
            push_str(&mut v, "\"");
            let forwarded = string_from(&v);
            Some(ForwardedHeaders { host: a.text, proto: p, port: a.port, forwarded })
        },
        _ => None,
    }
}

/// How a request is passed on to its backend.
#[derive(Debug)]
pub struct ForwardPlan {
    /// The address the request is sent to.
    pub target: String,
    /// The request's headers that go with it, in order.
    pub headers: Vec<Header>,
    /// The forwarding headers set on it, if any.
    pub forwarded: Option<ForwardedHeaders>,
}

/// The body of the answer to a request that no rule serves.
pub open spec fn no_route_message(uri_text: Seq<char>) -> Seq<char> {
    "rebab no route for "@ + uri_text
}

/// Decides what becomes of a request: either the plan to forward it to the
/// backend that the first serving rule names, with its headers and the
/// forwarding headers, or, when no rule serves it, the message of the
/// `404` answer.
pub fn proxy(routes: &RebabProxy, head: &RequestHead, headers: Vec<Header>) -> (res: Result<ForwardPlan, String>)
    ensures
        match route_spec(routes.router, request_path(opt_text(head.path_and_query))) {
            None => res matches Err(m) && m@ == no_route_message(head.uri_text@),
            Some(t) => res matches Ok(plan) && plan.target@ == (if uri_parses(t) { t } else { "/"@ })
                && plan.headers@ == copied_headers(headers@)
                && forwarded_view(plan.forwarded) == forwarded_spec(*head),
        },
{
    let path = match &head.path_and_query {
        Some(p) => Some(p.as_str()),
        None => None,
    };
    match routes.uri2uri(path) {
        None => {
            let mut v: Vec<char> = Vec::new();
            push_str(&mut v, "rebab no route for ");
            push_str(&mut v, head.uri_text.as_str());
            Err(string_from(&v))
        },
        Some(target) => {
            let kept = keep_headers(headers, true);
            let forwarded = forwarded_headers(head);
            Ok(ForwardPlan { target, headers: kept, forwarded })
        },
    }
}

} // verus!

verus! {

/// Whether a request header is passed on to the backend.
pub open spec fn is_forwardable(h: Header) -> bool {
    !is_hop_by_hop(h.0@) && h.0@ != "host"@
}

/// The request headers passed on are exactly the forwardable ones, in
/// their order: no hop-by-hop header and no `host` header is passed on, and
/// every other header is.
pub proof fn lemma_forwarded_request_headers(headers: Seq<Header>)
    ensures
        copied_headers(headers) == headers.filter(|h: Header| is_forwardable(h)),
        forall|i: int|
            0 <= i < copied_headers(headers).len() ==> is_forwardable(
                #[trigger] copied_headers(headers)[i],
            ),
    decreases headers.len(),
{
    reveal(Seq::filter);
    if headers.len() > 0 {
        lemma_forwarded_request_headers(headers.drop_last());
    }
}

/// The response headers passed back are exactly those that are not
/// hop-by-hop, in their order.
pub proof fn lemma_returned_response_headers(headers: Seq<Header>)
    ensures
        returned_headers(headers) == headers.filter(|h: Header| !is_hop_by_hop(h.0@)),
        forall|i: int|
            0 <= i < returned_headers(headers).len() ==> !is_hop_by_hop(
                (#[trigger] returned_headers(headers)[i]).0@,
            ),
    decreases headers.len(),
{
    reveal(Seq::filter);
    if headers.len() > 0 {
        lemma_returned_response_headers(headers.drop_last());
    }
}

} // verus!

verus! {

/// Whether a name is one of the seven hop-by-hop header names, listed out.
pub open spec fn is_listed_hop_header(n: Seq<char>) -> bool {
    ||| n == "connection"@
    ||| n == "te"@
    ||| n == "trailer"@
    ||| n == "transfer-encoding"@
    ||| n == "upgrade"@
    ||| n == "proxy-authenticate"@
    ||| n == "proxy-authorization"@
}

proof fn lemma_copied_keeps(headers: Seq<Header>, i: int)
    requires
        0 <= i < headers.len(),
        !is_listed_hop_header(headers[i].0@),
        headers[i].0@ != "host"@,
    ensures
        copied_headers(headers).contains(headers[i]),
    decreases headers.len(),
{
    let before = headers.drop_last();
    if i == headers.len() - 1 {
        assert(copied_headers(headers) == copied_headers(before).push(headers[i]));
        assert(copied_headers(headers)[copied_headers(before).len() as int] == headers[i]);
    } else {
        assert(before[i] == headers[i]);
        lemma_copied_keeps(before, i);
        let k = choose|k: int| 0 <= k < copied_headers(before).len() && copied_headers(before)[k] == headers[i];
        assert(copied_headers(headers)[k] == headers[i]);
    }
}

proof fn lemma_returned_keeps(headers: Seq<Header>, i: int)
    requires
        0 <= i < headers.len(),
        !is_listed_hop_header(headers[i].0@),
    ensures
        returned_headers(headers).contains(headers[i]),
    decreases headers.len(),
{
    let before = headers.drop_last();
    if i == headers.len() - 1 {
        assert(returned_headers(headers) == returned_headers(before).push(headers[i]));
        assert(returned_headers(headers)[returned_headers(before).len() as int] == headers[i]);
    } else {
        assert(before[i] == headers[i]);
        lemma_returned_keeps(before, i);
        let k = choose|k: int| 0 <= k < returned_headers(before).len() && returned_headers(before)[k] == headers[i];
        assert(returned_headers(headers)[k] == headers[i]);
    }
}

/// Exactly the seven hop-by-hop headers (`connection`, `te`, `trailer`,
/// `transfer-encoding`, `upgrade`, `proxy-authenticate`,
/// `proxy-authorization`) and `host` are kept from the backend: every other
/// request header, `authorization` and cookies included, is passed on, and
/// no passed-on header has one of those eight names.
pub proof fn lemma_only_hop_headers_and_host_are_withheld(headers: Seq<Header>)
    ensures
        forall|i: int|
            0 <= i < headers.len() && !is_listed_hop_header((#[trigger] headers[i]).0@)
                && headers[i].0@ != "host"@ ==> copied_headers(headers).contains(headers[i]),
        forall|k: int|
            0 <= k < copied_headers(headers).len() ==> !is_listed_hop_header(
                (#[trigger] copied_headers(headers)[k]).0@,
            ) && copied_headers(headers)[k].0@ != "host"@,
{
    assert forall|i: int|
        0 <= i < headers.len() && !is_listed_hop_header((#[trigger] headers[i]).0@)
            && headers[i].0@ != "host"@ implies copied_headers(headers).contains(headers[i]) by {
        lemma_copied_keeps(headers, i);
    }
    lemma_forwarded_request_headers(headers);
}

/// Exactly the seven hop-by-hop headers are stripped from a backend
/// response: every other response header is passed back, and none of the
/// seven is.
pub proof fn lemma_only_hop_headers_are_stripped(headers: Seq<Header>)
    ensures
        forall|i: int|
            0 <= i < headers.len() && !is_listed_hop_header((#[trigger] headers[i]).0@)
                ==> returned_headers(headers).contains(headers[i]),
        forall|k: int|
            0 <= k < returned_headers(headers).len() ==> !is_listed_hop_header(
                (#[trigger] returned_headers(headers)[k]).0@,
            ),
{
    assert forall|i: int|
        0 <= i < headers.len() && !is_listed_hop_header((#[trigger] headers[i]).0@)
            implies returned_headers(headers).contains(headers[i]) by {
        lemma_returned_keeps(headers, i);
    }
    lemma_returned_response_headers(headers);
}

} // verus!

verus! {

/// A plain host name: not empty, without white space, `:`, `[` or `]`.
pub open spec fn is_plain_host_name(n: Seq<char>) -> bool {
    &&& n.len() > 0
    &&& forall|k: int|
        0 <= k < n.len() ==> !is_space(#[trigger] n[k]) && n[k] != ':' && n[k] != '[' && n[k]
            != ']'
}

proof fn lemma_host_name_of_plain(n: Seq<char>, r: Seq<char>)
    requires
        is_plain_host_name(n),
    ensures
        trim(n).len() > 0,
        host_name(n) == n,
        trim(n + ":"@ + r).len() > 0,
        host_name(n + ":"@ + r) == n,
{
    reveal_strlit(":");
    lemma_trim_start_unchanged(n);
    lemma_trim_end_append(n, Seq::empty());
    assert(n + Seq::<char>::empty() =~= n);
    assert(trim(n) == n);
    assert(trim_start_char(n, '[') == n);
    lemma_before_first_append(n, Seq::empty(), ']');
    lemma_before_first_append(n, Seq::empty(), ':');
    assert(before_first(Seq::<char>::empty(), ']') =~= Seq::<char>::empty());
    assert(before_first(Seq::<char>::empty(), ':') =~= Seq::<char>::empty());
    assert(host_name(n) == n);

    let a = n + ":"@;
    let s = a + r;
    assert(n + ":"@ + r == s);
    assert(a.last() == ':');
    assert(s[0] == n[0]);
    lemma_trim_start_unchanged(s);
    lemma_trim_end_append(a, r);
    let t = a + trim_end(r);
    assert(trim(s) == t);
    assert(t[0] == n[0]);
    assert(trim_start_char(t, '[') == t);
    assert forall|k: int| 0 <= k < a.len() implies a[k] != ']' by {
        if k < n.len() {
            assert(a[k] == n[k]);
        }
    }
    lemma_before_first_append(a, trim_end(r), ']');
    let u = a + before_first(trim_end(r), ']');
    assert(u == n + (":"@ + before_first(trim_end(r), ']')));
    lemma_before_first_append(n, ":"@ + before_first(trim_end(r), ']'), ':');
    assert(before_first(":"@ + before_first(trim_end(r), ']'), ':') =~= Seq::<char>::empty());
    assert(n + Seq::<char>::empty() =~= n);
}

/// The scheme is judged on the host name alone: a `:port` after a plain
/// host name never changes it, whatever follows the colon.
pub proof fn lemma_port_does_not_change_scheme(n: Seq<char>, r: Seq<char>)
    requires
        is_plain_host_name(n),
    ensures
        proto_spec(Some(n + ":"@ + r)) == proto_spec(Some(n)),
{
    lemma_host_name_of_plain(n, r);
}

/// Requests addressed to `localhost` or `127.0.0.1`, with or without a
/// port, are taken as plain `http`; any other plain host name, with or
/// without a port, as `https`.
pub proof fn lemma_local_hosts_are_http(n: Seq<char>, r: Seq<char>)
    requires
        is_plain_host_name(n),
    ensures
        n == "localhost"@ || n == "127.0.0.1"@ ==> proto_spec(Some(n)) == Some("http"@)
            && proto_spec(Some(n + ":"@ + r)) == Some("http"@),
        n != "localhost"@ && n != "127.0.0.1"@ ==> proto_spec(Some(n)) == Some("https"@)
            && proto_spec(Some(n + ":"@ + r)) == Some("https"@),
{
    reveal_strlit("::1");
    lemma_host_name_of_plain(n, r);
    assert(n != "::1"@) by {
        if n == "::1"@ {
            assert(n[0] == ':');
        }
    }
}

} // verus!
