//! Routing configuration: the rules, the address to listen on, how a rule
//! is read from its command-line form, and how the configuration file and
//! the command line are combined.

use vstd::prelude::*;

use crate::number::{IntErrorKind, int_error_message, parse_u16, parse_u16_spec};
use crate::text::{chars_eq_str, chars_of, push_str, string_from};

verus! {

/// An IP address: four octets, or eight 16-bit segments.
#[derive(Debug, Clone, Copy, PartialEq, Eq)]
pub enum IpAddress {
    V4([u8; 4]),
    V6([u16; 8]),
}

/// An IP address and a port.
#[derive(Debug, Clone, Copy, PartialEq, Eq)]
pub struct SocketAddress {
    pub ip: IpAddress,
    pub port: u16,
}

/// The address listened on when neither the configuration file nor the
/// command line names one: `0.0.0.0:8080`.
pub open spec fn is_default_frontend(a: SocketAddress) -> bool {
    &&& a.port == 8080
    &&& a.ip matches IpAddress::V4(octets) && octets@ == seq![0u8, 0u8, 0u8, 0u8]
}

/// Builds `0.0.0.0:8080`.
pub fn default_frontend() -> (res: SocketAddress)
    ensures
        is_default_frontend(res),
{
    let res = SocketAddress { ip: IpAddress::V4([0u8, 0u8, 0u8, 0u8]), port: 8080 };
    assert(res.ip->V4_0@ =~= seq![0u8, 0u8, 0u8, 0u8]);
    res
}

/// One routing rule. Rules are tried in order; the first whose prefix
/// starts the request path serves it.
#[derive(Debug, Clone, PartialEq, Eq)]
pub struct Rule {
    /// Path prefix to match; every path matches when it is absent.
    pub frontend_prefix: Option<String>,
    /// Backend host name or address; `localhost` when absent.
    pub backend_host: Option<String>,
    /// Backend port; the port listened on when absent.
    pub backend_port: Option<u16>,
    /// Command started for this rule, with `PORT` set to the backend port.
    pub command: Option<String>,
}

/// A rule with its texts as character sequences.
pub struct RuleView {
    pub frontend_prefix: Option<Seq<char>>,
    pub backend_host: Option<Seq<char>>,
    pub backend_port: Option<u16>,
    pub command: Option<Seq<char>>,
}

/// The characters of an optional text.
pub open spec fn opt_text(s: Option<String>) -> Option<Seq<char>> {
    match s {
        Some(t) => Some(t@),
        None => None,
    }
}

impl View for Rule {
    type V = RuleView;

    open spec fn view(&self) -> RuleView {
        RuleView {
            frontend_prefix: opt_text(self.frontend_prefix),
            backend_host: opt_text(self.backend_host),
            backend_port: self.backend_port,
            command: opt_text(self.command),
        }
    }
}

/// The whole configuration: where to listen and the rules, in order.
#[derive(Debug, Clone)]
pub struct Router {
    pub frontend: SocketAddress,
    pub rules: Vec<Rule>,
}

/// The rules of an optional configuration file, none when there is no file.
pub open spec fn file_rules(file_config: Option<Router>) -> Seq<Rule> {
    match file_config {
        Some(r) => r.rules@,
        None => Seq::empty(),
    }
}

/// Combines the configuration file, if any, with the command line: the
/// command-line address replaces the file's, which replaces the default;
/// the command-line rules come after the file's rules.
pub fn load(file_config: Option<Router>, frontend: Option<SocketAddress>, cli_rules: Vec<Rule>) -> (res: Router)
    ensures
        res.rules@ == file_rules(file_config) + cli_rules@,
        frontend matches Some(a) ==> res.frontend == a,
        frontend is None ==> match file_config {
            Some(r) => res.frontend == r.frontend,
            None => is_default_frontend(res.frontend),
        },
{
    let mut router = match file_config {
        Some(r) => r,
        None => Router { frontend: default_frontend(), rules: Vec::new() },
    };
    if let Some(a) = frontend {
        router.frontend = a;
    }
    let mut extra = cli_rules;
    router.rules.append(&mut extra);
    router
}

/// The fields of a rule, as named in its text form.
#[derive(Debug, Clone, Copy, PartialEq, Eq, Structural)]
pub enum RuleField {
    FrontendPrefix,
    BackendHost,
    BackendPort,
    Command,
}

/// The field a key names: each field by its full name, the first three also
/// by a short alias (`prefix`, `host`, `port`). Other keys name nothing and
/// are ignored.
pub open spec fn field_for_key(key: Seq<char>) -> Option<RuleField> {
    if key == "frontend_prefix"@ || key == "prefix"@ {
        Some(RuleField::FrontendPrefix)
    } else if key == "backend_host"@ || key == "host"@ {
        Some(RuleField::BackendHost)
    } else if key == "backend_port"@ || key == "port"@ {
        Some(RuleField::BackendPort)
    } else if key == "command"@ {
        Some(RuleField::Command)
    } else {
        None
    }
}

/// The full name of a field.
pub open spec fn field_name(f: RuleField) -> Seq<char> {
    match f {
        RuleField::FrontendPrefix => "frontend_prefix"@,
        RuleField::BackendHost => "backend_host"@,
        RuleField::BackendPort => "backend_port"@,
        RuleField::Command => "command"@,
    }
}

/// Why the text form of a rule was refused.
#[derive(Debug, Clone, PartialEq, Eq)]
pub enum RuleError {
    /// A field was given twice (under its name or its alias).
    DuplicateField(RuleField),
    /// The port is not a number from 0 to 65535.
    InvalidPort(IntErrorKind),
    /// The text is not `key=value` pairs; the decoder's message.
    Syntax(String),
}

impl RuleView {
    /// A rule with no field set.
    pub open spec fn empty() -> RuleView {
        RuleView { frontend_prefix: None, backend_host: None, backend_port: None, command: None }
    }

    /// Whether the field is already set.
    pub open spec fn has(self, f: RuleField) -> bool {
        match f {
            RuleField::FrontendPrefix => self.frontend_prefix is Some,
            RuleField::BackendHost => self.backend_host is Some,
            RuleField::BackendPort => self.backend_port is Some,
            RuleField::Command => self.command is Some,
        }
    }

    /// Sets a text field (any field but the port).
    pub open spec fn with_text(self, f: RuleField, v: Seq<char>) -> RuleView {
        match f {
            RuleField::FrontendPrefix => RuleView { frontend_prefix: Some(v), ..self },
            RuleField::BackendHost => RuleView { backend_host: Some(v), ..self },
            RuleField::Command => RuleView { command: Some(v), ..self },
            RuleField::BackendPort => self,
        }
    }
}

/// Reads the decoded `key=value` pairs of a rule in order onto `acc`: a key
/// that names no field is skipped; a field given a second time, or a port
/// that is not a number, stops the reading with that error.
pub open spec fn fill_rule(acc: RuleView, pairs: Seq<(Seq<char>, Seq<char>)>) -> Result<RuleView, RuleError>
    decreases pairs.len(),
{
    if pairs.len() == 0 {
        Ok(acc)
    } else {
        let key = pairs[0].0;
        let value = pairs[0].1;
        let rest = pairs.drop_first();
        match field_for_key(key) {
            None => fill_rule(acc, rest),
            Some(f) => if acc.has(f) {
                Err(RuleError::DuplicateField(f))
            } else if f == RuleField::BackendPort {
                match parse_u16_spec(value) {
                    Ok(p) => fill_rule(RuleView { backend_port: Some(p), ..acc }, rest),
                    Err(e) => Err(RuleError::InvalidPort(e)),
                }
            } else {
                fill_rule(acc.with_text(f, value), rest)
            },
        }
    }
}

/// The rule that a sequence of decoded `key=value` pairs describes.
pub open spec fn rule_from_pairs(pairs: Seq<(Seq<char>, Seq<char>)>) -> Result<RuleView, RuleError> {
    fill_rule(RuleView::empty(), pairs)
}

/// A parsed rule seen through its view.
pub open spec fn rule_result(r: Result<Rule, RuleError>) -> Result<RuleView, RuleError> {
    match r {
        Ok(x) => Ok(x@),
        Err(e) => Err(e),
    }
}

/// The text with every `,` turned into `&`, so that `key=value,key=value`
/// reads as a form.
pub open spec fn commas_to_ampersands(s: Seq<char>) -> Seq<char> {
    s.map_values(|c: char| if c == ',' { '&' } else { c })
}

/// The `key=value` pairs that `serde_urlencoded` decodes from a form text
/// (split on `&`, then at the first `=`, with `+` and `%XX` decoded), or
/// `None` when it refuses the text.
pub uninterp spec fn form_pairs(text: Seq<char>) -> Option<Seq<(Seq<char>, Seq<char>)>>;

/// Decodes a form text into its pairs with `serde_urlencoded::from_str`.
/// Trusted: the pairs (or the refusal) are what `form_pairs` names for this
/// text; the error message is not described.
#[verifier::external_body]
fn decode_form(text: &str) -> (res: Result<Vec<(String, String)>, String>)
    ensures
        match res {
            Ok(pairs) => form_pairs(text@) == Some(pairs.deep_view()),
            Err(_) => form_pairs(text@) is None,
        },
{
    match serde_urlencoded::from_str::<Vec<(String, String)>>(text) {
        Ok(pairs) => Ok(pairs),
        Err(e) => Err(e.to_string()),
    }
}

fn field_of_key(key: &str) -> (res: Option<RuleField>)
    ensures
        res == field_for_key(key@),
{
    let k = chars_of(key);
    if chars_eq_str(&k, "frontend_prefix") || chars_eq_str(&k, "prefix") {
        Some(RuleField::FrontendPrefix)
    } else if chars_eq_str(&k, "backend_host") || chars_eq_str(&k, "host") {
        Some(RuleField::BackendHost)
    } else if chars_eq_str(&k, "backend_port") || chars_eq_str(&k, "port") {
        Some(RuleField::BackendPort)
    } else if chars_eq_str(&k, "command") {
        Some(RuleField::Command)
    } else {
        None
    }
}

impl Rule {
    /// A rule with no field set.
    pub fn empty() -> (res: Rule)
        ensures
            res@ == RuleView::empty(),
    {
        Rule { frontend_prefix: None, backend_host: None, backend_port: None, command: None }
    }

    /// Builds a rule from decoded `key=value` pairs, read in order.
    pub fn from_pairs(pairs: &Vec<(String, String)>) -> (res: Result<Rule, RuleError>)
        ensures
            rule_result(res) == rule_from_pairs(pairs.deep_view()),
    {
        let ghost all = pairs.deep_view();
        let mut acc = Rule::empty();
        let n = pairs.len();
        let mut i: usize = 0;
        assert(all.skip(0) =~= all);
        while i < n
            invariant
                i <= n == pairs.len(),
                all == pairs.deep_view(),
                rule_from_pairs(all) == fill_rule(acc@, all.skip(i as int)),
            decreases n - i,
        {
            let key = &pairs[i].0;
            let value = &pairs[i].1;
            let ghost rest = all.skip(i + 1);
            assert(all.skip(i as int).drop_first() =~= rest);
            assert(all.skip(i as int)[0] == (key@, value@));
            match field_of_key(key.as_str()) {
                None => {},
                Some(RuleField::FrontendPrefix) => {
                    if acc.frontend_prefix.is_some() {
                        return Err(RuleError::DuplicateField(RuleField::FrontendPrefix));
                    }
                    acc.frontend_prefix = Some(value.clone());
                },
                Some(RuleField::BackendHost) => {
                    if acc.backend_host.is_some() {
                        return Err(RuleError::DuplicateField(RuleField::BackendHost));
                    }
                    acc.backend_host = Some(value.clone());
                },
                Some(RuleField::Command) => {
                    if acc.command.is_some() {
                        return Err(RuleError::DuplicateField(RuleField::Command));
                    }
                    acc.command = Some(value.clone());
                },
                Some(RuleField::BackendPort) => {
                    if acc.backend_port.is_some() {
                        return Err(RuleError::DuplicateField(RuleField::BackendPort));
                    }
                    match parse_u16(&chars_of(value.as_str())) {
                        Ok(p) => {
                            acc.backend_port = Some(p);
                        },
                        Err(e) => {
                            return Err(RuleError::InvalidPort(e));
                        },
                    }
                },
            }
            i = i + 1;
        }
        assert(all.skip(n as int).len() == 0);
        Ok(acc)
    }

    /// Reads a rule from its command-line form `key=value,key=value,...`:
    /// the commas become `&` and the text is decoded as a form; keys are
    /// `prefix` (or `frontend_prefix`), `host` (or `backend_host`), `port`
    /// (or `backend_port`) and `command`.
    pub fn parse(s: &str) -> (res: Result<Rule, RuleError>)
        ensures
            match form_pairs(commas_to_ampersands(s@)) {
                Some(pairs) => rule_result(res) == rule_from_pairs(pairs),
                None => res matches Err(RuleError::Syntax(_)),
            },
    {
        let form = replace_commas(s);
        match decode_form(form.as_str()) {
            Ok(pairs) => Rule::from_pairs(&pairs),
            Err(message) => Err(RuleError::Syntax(message)),
        }
    }
}

/// The text with every `,` turned into `&`.
pub fn replace_commas(s: &str) -> (res: String)
    ensures
        res@ == commas_to_ampersands(s@),
{
    let v = chars_of(s);
    let mut out: Vec<char> = Vec::new();
    for i in 0..v.len()
        invariant
            v@ == s@,
            out@ == commas_to_ampersands(s@).take(i as int),
    {
        let c = v[i];
        out.push(if c == ',' { '&' } else { c });
        assert(commas_to_ampersands(s@).take(i + 1) =~= commas_to_ampersands(s@).take(i as int).push(
            if c == ',' { '&' } else { c },
        ));
    }
    assert(commas_to_ampersands(s@).take(v.len() as int) =~= commas_to_ampersands(s@));
    string_from(&out)
}

/// The message of each error: `duplicate field `name``, the integer
/// parser's message for a bad port, or the decoder's own message.
pub open spec fn rule_error_message(e: RuleError) -> Seq<char> {
    match e {
        RuleError::DuplicateField(f) => "duplicate field `"@ + field_name(f) + "`"@,
        RuleError::InvalidPort(k) => int_error_message(k),
        RuleError::Syntax(m) => m@,
    }
}

impl RuleField {
    /// The full name of this field.
    pub fn name(&self) -> (res: &'static str)
        ensures
            res@ == field_name(*self),
    {
        match self {
            RuleField::FrontendPrefix => "frontend_prefix",
            RuleField::BackendHost => "backend_host",
            RuleField::BackendPort => "backend_port",
            RuleField::Command => "command",
        }
    }
}

impl RuleError {
    /// The text of this error.
    pub fn message(&self) -> (res: String)
        ensures
            res@ == rule_error_message(*self),
    {
        match self {
            RuleError::DuplicateField(f) => {
                let mut out: Vec<char> = Vec::new();
                push_str(&mut out, "duplicate field `");
                push_str(&mut out, f.name());
                push_str(&mut out, "`");
                string_from(&out)
            },
            RuleError::InvalidPort(k) => {
                let mut out: Vec<char> = Vec::new();
                push_str(&mut out, k.message());
                assert(out@ =~= int_error_message(*k));
                string_from(&out)
            },
            RuleError::Syntax(m) => m.clone(),
        }
    }
}

impl core::str::FromStr for Rule {
    type Err = String;

    /// Reads a rule from its command-line form, as `Rule::parse` does, with
    /// the error given as its message.
    fn from_str(s: &str) -> (res: Result<Rule, String>)
        ensures
            match form_pairs(commas_to_ampersands(s@)) {
                Some(pairs) => match rule_from_pairs(pairs) {
                    Ok(v) => res matches Ok(r) && r@ == v,
                    Err(e) => res matches Err(m) && m@ == rule_error_message(e),
                },
                None => res is Err,
            },
    {
        match Rule::parse(s) {
            Ok(r) => Ok(r),
            Err(e) => Err(e.message()),
        }
    }
}

} // verus!

verus! {

proof fn lemma_fill_by_fields(
    acc: RuleView,
    p1: Seq<(Seq<char>, Seq<char>)>,
    p2: Seq<(Seq<char>, Seq<char>)>,
)
    requires
        p1.len() == p2.len(),
        forall|i: int|
            0 <= i < p1.len() ==> field_for_key(#[trigger] p1[i].0) == field_for_key(p2[i].0)
                && p1[i].1 == p2[i].1,
    ensures
        fill_rule(acc, p1) == fill_rule(acc, p2),
    decreases p1.len(),
{
    if p1.len() > 0 {
        assert(field_for_key(p1[0].0) == field_for_key(p2[0].0));
        let r1 = p1.drop_first();
        let r2 = p2.drop_first();
        assert forall|i: int| 0 <= i < r1.len() implies field_for_key(#[trigger] r1[i].0)
            == field_for_key(r2[i].0) && r1[i].1 == r2[i].1 by {
            assert(r1[i] == p1[i + 1]);
            assert(r2[i] == p2[i + 1]);
        }
        match field_for_key(p1[0].0) {
            None => lemma_fill_by_fields(acc, r1, r2),
            Some(f) => {
                if !acc.has(f) {
                    if f == RuleField::BackendPort {
                        if let Ok(p) = parse_u16_spec(p1[0].1) {
                            lemma_fill_by_fields(RuleView { backend_port: Some(p), ..acc }, r1, r2);
                        }
                    } else {
                        lemma_fill_by_fields(acc.with_text(f, p1[0].1), r1, r2);
                    }
                }
            },
        }
    }
}

/// A key counts only through the field it names: two pair sequences whose
/// keys name the same fields, pair by pair, with the same values, describe
/// the same rule. So `prefix` and `frontend_prefix`, `host` and
/// `backend_host`, `port` and `backend_port` are interchangeable.
pub proof fn lemma_aliases_are_equivalent(
    p1: Seq<(Seq<char>, Seq<char>)>,
    p2: Seq<(Seq<char>, Seq<char>)>,
)
    requires
        p1.len() == p2.len(),
        forall|i: int|
            0 <= i < p1.len() ==> field_for_key(#[trigger] p1[i].0) == field_for_key(p2[i].0)
                && p1[i].1 == p2[i].1,
    ensures
        rule_from_pairs(p1) == rule_from_pairs(p2),
{
    lemma_fill_by_fields(RuleView::empty(), p1, p2);
}

proof fn lemma_fill_skips_unknown(
    acc: RuleView,
    pairs: Seq<(Seq<char>, Seq<char>)>,
    i: int,
    key: Seq<char>,
    value: Seq<char>,
)
    requires
        0 <= i <= pairs.len(),
        field_for_key(key) is None,
    ensures
        fill_rule(acc, pairs.insert(i, (key, value))) == fill_rule(acc, pairs),
    decreases i,
{
    let q = pairs.insert(i, (key, value));
    if i == 0 {
        assert(q.drop_first() =~= pairs);
    } else {
        assert(q[0] == pairs[0]);
        assert(q.drop_first() =~= pairs.drop_first().insert(i - 1, (key, value)));
        match field_for_key(pairs[0].0) {
            None => lemma_fill_skips_unknown(acc, pairs.drop_first(), i - 1, key, value),
            Some(f) => {
                if !acc.has(f) {
                    if f == RuleField::BackendPort {
                        if let Ok(p) = parse_u16_spec(pairs[0].1) {
                            lemma_fill_skips_unknown(
                                RuleView { backend_port: Some(p), ..acc },
                                pairs.drop_first(),
                                i - 1,
                                key,
                                value,
                            );
                        }
                    } else {
                        lemma_fill_skips_unknown(
                            acc.with_text(f, pairs[0].1),
                            pairs.drop_first(),
                            i - 1,
                            key,
                            value,
                        );
                    }
                }
            },
        }
    }
}

/// A pair whose key names no field is ignored wherever it stands.
pub proof fn lemma_unknown_keys_are_ignored(
    pairs: Seq<(Seq<char>, Seq<char>)>,
    i: int,
    key: Seq<char>,
    value: Seq<char>,
)
    requires
        0 <= i <= pairs.len(),
        field_for_key(key) is None,
    ensures
        rule_from_pairs(pairs.insert(i, (key, value))) == rule_from_pairs(pairs),
{
    lemma_fill_skips_unknown(RuleView::empty(), pairs, i, key, value);
}

/// In the command-line form a `,` separates pairs just as `&` does: writing
/// `&` in place of any `,` leaves the form that is decoded unchanged.
pub proof fn lemma_comma_separates_like_ampersand(s: Seq<char>, i: int)
    requires
        0 <= i < s.len(),
        s[i] == ',',
    ensures
        commas_to_ampersands(s.update(i, '&')) == commas_to_ampersands(s),
{
    assert(commas_to_ampersands(s.update(i, '&')) =~= commas_to_ampersands(s));
}

} // verus!

verus! {

/// The field that the pair at index `i` names, if any.
pub open spec fn named(pairs: Seq<(Seq<char>, Seq<char>)>, i: int) -> Option<RuleField> {
    field_for_key(pairs[i].0)
}

/// No field is named by two pairs.
pub open spec fn fields_distinct(pairs: Seq<(Seq<char>, Seq<char>)>) -> bool {
    forall|i: int, j: int|
        0 <= i < j < pairs.len() && #[trigger] named(pairs, i) is Some ==> named(pairs, i)
            != #[trigger] named(pairs, j)
}

/// Every pair naming the port holds a port number.
pub open spec fn ports_are_numbers(pairs: Seq<(Seq<char>, Seq<char>)>) -> bool {
    forall|i: int|
        0 <= i < pairs.len() && #[trigger] named(pairs, i) == Some(RuleField::BackendPort)
            ==> parse_u16_spec(pairs[i].1) is Ok
}

/// No pair names a field that is already set in `acc`.
pub open spec fn fresh_for(acc: RuleView, pairs: Seq<(Seq<char>, Seq<char>)>) -> bool {
    forall|i: int| 0 <= i < pairs.len() && #[trigger] named(pairs, i) is Some ==> !acc.has(named(pairs, i)->0)
}

/// Field `f` of `v` holds `value` (for the port: the number `value` reads as).
pub open spec fn holds(v: RuleView, f: RuleField, value: Seq<char>) -> bool {
    match f {
        RuleField::FrontendPrefix => v.frontend_prefix == Some(value),
        RuleField::BackendHost => v.backend_host == Some(value),
        RuleField::Command => v.command == Some(value),
        RuleField::BackendPort => parse_u16_spec(value) matches Ok(p) && v.backend_port == Some(p),
    }
}

/// Field `f` is the same in `v` and `w`.
pub open spec fn same_field(v: RuleView, w: RuleView, f: RuleField) -> bool {
    match f {
        RuleField::FrontendPrefix => v.frontend_prefix == w.frontend_prefix,
        RuleField::BackendHost => v.backend_host == w.backend_host,
        RuleField::Command => v.command == w.command,
        RuleField::BackendPort => v.backend_port == w.backend_port,
    }
}

proof fn lemma_fill_succeeds(acc: RuleView, pairs: Seq<(Seq<char>, Seq<char>)>)
    ensures
        fill_rule(acc, pairs) is Ok <==> fields_distinct(pairs) && ports_are_numbers(pairs)
            && fresh_for(acc, pairs),
    decreases pairs.len(),
{
    if pairs.len() > 0 {
        let rest = pairs.drop_first();
        assert forall|i: int| 0 <= i < rest.len() implies #[trigger] named(rest, i) == named(
            pairs,
            i + 1,
        ) by {
            assert(rest[i] == pairs[i + 1]);
        }
        match field_for_key(pairs[0].0) {
            None => {
                lemma_fill_succeeds(acc, rest);
                assert(named(pairs, 0) is None);
                if fields_distinct(rest) && ports_are_numbers(rest) && fresh_for(acc, rest) {
                    assert forall|i: int, j: int|
                        0 <= i < j < pairs.len() && #[trigger] named(pairs, i) is Some implies named(
                            pairs,
                            i,
                        ) != #[trigger] named(pairs, j) by {
                        assert(named(rest, i - 1) == named(pairs, i));
                        assert(named(rest, j - 1) == named(pairs, j));
                    }
                    assert forall|i: int|
                        0 <= i < pairs.len() && #[trigger] named(pairs, i) == Some(
                            RuleField::BackendPort,
                        ) implies parse_u16_spec(pairs[i].1) is Ok by {
                        assert(named(rest, i - 1) == named(pairs, i));
                        assert(rest[i - 1] == pairs[i]);
                    }
                    assert forall|i: int|
                        0 <= i < pairs.len() && #[trigger] named(pairs, i) is Some implies !acc.has(
                            named(pairs, i)->0,
                        ) by {
                        assert(named(rest, i - 1) == named(pairs, i));
                    }
                }
                if fields_distinct(pairs) && ports_are_numbers(pairs) && fresh_for(acc, pairs) {
                    assert forall|i: int, j: int|
                        0 <= i < j < rest.len() && #[trigger] named(rest, i) is Some implies named(
                            rest,
                            i,
                        ) != #[trigger] named(rest, j) by {
                        assert(named(pairs, i + 1) != named(pairs, j + 1));
                    }
                    assert forall|i: int|
                        0 <= i < rest.len() && #[trigger] named(rest, i) == Some(RuleField::BackendPort)
                            implies parse_u16_spec(rest[i].1) is Ok by {
                        assert(named(pairs, i + 1) == Some(RuleField::BackendPort));
                        assert(rest[i] == pairs[i + 1]);
                    }
                    assert forall|i: int|
                        0 <= i < rest.len() && #[trigger] named(rest, i) is Some implies !acc.has(
                            named(rest, i)->0,
                        ) by {
                        assert(named(pairs, i + 1) is Some);
                    }
                }
            },
            Some(f) => {
                assert(named(pairs, 0) == Some(f));
                if acc.has(f) {
                } else if f == RuleField::BackendPort && parse_u16_spec(pairs[0].1) is Err {
                } else {
                    let next = if f == RuleField::BackendPort {
                        RuleView { backend_port: Some(parse_u16_spec(pairs[0].1)->Ok_0), ..acc }
                    } else {
                        acc.with_text(f, pairs[0].1)
                    };
                    assert(fill_rule(acc, pairs) == fill_rule(next, rest));
                    assert(forall|g: RuleField| #[trigger] next.has(g) <==> acc.has(g) || g == f);
                    lemma_fill_succeeds(next, rest);
                    if fields_distinct(rest) && ports_are_numbers(rest) && fresh_for(next, rest) {
                        assert forall|i: int, j: int|
                            0 <= i < j < pairs.len() && #[trigger] named(pairs, i) is Some implies named(
                                pairs,
                                i,
                            ) != #[trigger] named(pairs, j) by {
                            assert(named(rest, j - 1) == named(pairs, j));
                            if i > 0 {
                                assert(named(rest, i - 1) == named(pairs, i));
                            } else if named(pairs, j) is Some {
                                assert(next.has(named(rest, j - 1)->0) == false);
                            }
                        }
                        assert forall|i: int|
                            0 <= i < pairs.len() && #[trigger] named(pairs, i) == Some(
                                RuleField::BackendPort,
                            ) implies parse_u16_spec(pairs[i].1) is Ok by {
                            if i > 0 {
                                assert(named(rest, i - 1) == named(pairs, i));
                                assert(rest[i - 1] == pairs[i]);
                            }
                        }
                        assert forall|i: int|
                            0 <= i < pairs.len() && #[trigger] named(pairs, i) is Some implies !acc.has(
                                named(pairs, i)->0,
                            ) by {
                            if i > 0 {
                                assert(named(rest, i - 1) == named(pairs, i));
                                assert(!next.has(named(rest, i - 1)->0));
                            }
                        }
                    }
                    if fields_distinct(pairs) && ports_are_numbers(pairs) && fresh_for(acc, pairs) {
                        assert forall|i: int, j: int|
                            0 <= i < j < rest.len() && #[trigger] named(rest, i) is Some implies named(
                                rest,
                                i,
                            ) != #[trigger] named(rest, j) by {
                            assert(named(pairs, i + 1) != named(pairs, j + 1));
                        }
                        assert forall|i: int|
                            0 <= i < rest.len() && #[trigger] named(rest, i) == Some(
                                RuleField::BackendPort,
                            ) implies parse_u16_spec(rest[i].1) is Ok by {
                            assert(named(pairs, i + 1) == Some(RuleField::BackendPort));
                            assert(rest[i] == pairs[i + 1]);
                        }
                        assert forall|i: int|
                            0 <= i < rest.len() && #[trigger] named(rest, i) is Some implies !next.has(
                                named(rest, i)->0,
                            ) by {
                            assert(named(pairs, i + 1) is Some);
                            assert(named(pairs, 0) != named(pairs, i + 1));
                        }
                    }
                }
            },
        }
    }
}

} // verus!

verus! {

proof fn lemma_fill_values(acc: RuleView, pairs: Seq<(Seq<char>, Seq<char>)>, v: RuleView)
    requires
        fill_rule(acc, pairs) == Ok::<RuleView, RuleError>(v),
    ensures
        forall|i: int|
            0 <= i < pairs.len() && #[trigger] named(pairs, i) is Some ==> holds(
                v,
                named(pairs, i)->0,
                pairs[i].1,
            ),
        forall|f: RuleField|
            (forall|i: int| 0 <= i < pairs.len() ==> #[trigger] named(pairs, i) != Some(f))
                ==> #[trigger] same_field(v, acc, f),
    decreases pairs.len(),
{
    if pairs.len() > 0 {
        let rest = pairs.drop_first();
        assert forall|i: int| 0 <= i < rest.len() implies #[trigger] named(rest, i) == named(
            pairs,
            i + 1,
        ) && rest[i] == pairs[i + 1] by {
            assert(rest[i] == pairs[i + 1]);
        }
        match field_for_key(pairs[0].0) {
            None => {
                lemma_fill_values(acc, rest, v);
                assert forall|i: int|
                    0 <= i < pairs.len() && #[trigger] named(pairs, i) is Some implies holds(
                        v,
                        named(pairs, i)->0,
                        pairs[i].1,
                    ) by {
                    assert(named(rest, i - 1) == named(pairs, i));
                }
                assert forall|f: RuleField|
                    (forall|i: int| 0 <= i < pairs.len() ==> #[trigger] named(pairs, i) != Some(f))
                        implies #[trigger] same_field(v, acc, f) by {
                    assert forall|i: int| 0 <= i < rest.len() implies #[trigger] named(rest, i)
                        != Some(f) by {
                        assert(named(pairs, i + 1) != Some(f));
                    }
                }
            },
            Some(f) => {
                assert(named(pairs, 0) == Some(f));
                let next = if f == RuleField::BackendPort {
                    RuleView { backend_port: Some(parse_u16_spec(pairs[0].1)->Ok_0), ..acc }
                } else {
                    acc.with_text(f, pairs[0].1)
                };
                assert(!acc.has(f));
                assert(f == RuleField::BackendPort ==> parse_u16_spec(pairs[0].1) is Ok);
                assert(fill_rule(acc, pairs) == fill_rule(next, rest));
                lemma_fill_values(next, rest, v);
                lemma_fill_succeeds(next, rest);
                assert(next.has(f));
                assert forall|i: int| 0 <= i < rest.len() implies #[trigger] named(rest, i) != Some(
                    f,
                ) by {
                    if named(rest, i) == Some(f) {
                        assert(!next.has(named(rest, i)->0));
                    }
                }
                assert(same_field(v, next, f));
                assert(holds(v, f, pairs[0].1));
                assert forall|i: int|
                    0 <= i < pairs.len() && #[trigger] named(pairs, i) is Some implies holds(
                        v,
                        named(pairs, i)->0,
                        pairs[i].1,
                    ) by {
                    if i > 0 {
                        assert(named(rest, i - 1) == named(pairs, i));
                    }
                }
                assert forall|g: RuleField|
                    (forall|i: int| 0 <= i < pairs.len() ==> #[trigger] named(pairs, i) != Some(g))
                        implies #[trigger] same_field(v, acc, g) by {
                    assert(named(pairs, 0) != Some(g));
                    assert forall|i: int| 0 <= i < rest.len() implies #[trigger] named(rest, i)
                        != Some(g) by {
                        assert(named(pairs, i + 1) != Some(g));
                    }
                    assert(same_field(v, next, g));
                }
            },
        }
    }
}

/// A rule text is accepted exactly when no field is given twice (under its
/// name or its alias) and every port is a number; the order of the pairs
/// does not matter for this.
pub proof fn lemma_rule_accepted_iff_well_formed(pairs: Seq<(Seq<char>, Seq<char>)>)
    ensures
        rule_from_pairs(pairs) is Ok <==> fields_distinct(pairs) && ports_are_numbers(pairs),
{
    lemma_fill_succeeds(RuleView::empty(), pairs);
}

/// In an accepted rule, each field holds the value of the pair that names
/// it, wherever that pair stands, and a field no pair names is absent; so
/// the rule read does not depend on the order of its pairs.
pub proof fn lemma_rule_fields_come_from_their_pairs(pairs: Seq<(Seq<char>, Seq<char>)>)
    ensures
        rule_from_pairs(pairs) matches Ok(v) ==> {
            &&& forall|i: int|
                0 <= i < pairs.len() && #[trigger] named(pairs, i) is Some ==> holds(
                    v,
                    named(pairs, i)->0,
                    pairs[i].1,
                )
            &&& forall|f: RuleField|
                (forall|i: int| 0 <= i < pairs.len() ==> #[trigger] named(pairs, i) != Some(f))
                    ==> !#[trigger] v.has(f)
        },
{
    if let Ok(v) = rule_from_pairs(pairs) {
        lemma_fill_values(RuleView::empty(), pairs, v);
        assert forall|f: RuleField|
            (forall|i: int| 0 <= i < pairs.len() ==> #[trigger] named(pairs, i) != Some(f))
                implies !#[trigger] v.has(f) by {
            assert(same_field(v, RuleView::empty(), f));
        }
    }
}

} // verus!
