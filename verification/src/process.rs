//! Commands started for rules: which ones, how a command line is split and
//! run, and what is reported about the processes.

use vstd::prelude::*;

use crate::config::{Router, Rule};
use crate::number::{decimal, push_decimal, push_signed_decimal, signed_decimal};
use crate::text::{chars_of, is_space, is_space_char, push_chars, push_str, string_from};

verus! {

/// The name under which the command of the rule at `index` runs.
pub open spec fn rule_id_text(index: nat) -> Seq<char> {
    "rule_"@ + decimal(index)
}

/// Names the command of the rule at `index`: `rule_<index>`.
pub fn rule_id(index: usize) -> (res: String)
    ensures
        res@ == rule_id_text(index as nat),
{
    let mut v: Vec<char> = Vec::new();
    push_str(&mut v, "rule_");
    push_decimal(&mut v, index as u64);
    string_from(&v)
}

/// A command to start: its name, its command line and the port it is
/// told to serve on.
#[derive(Debug, Clone, PartialEq, Eq)]
pub struct SpawnRequest {
    pub rule_id: String,
    pub command: String,
    pub port: Option<u16>,
}

/// The commands to start for a list of rules, in rule order: one for each
/// rule that has a command, named after the rule's position.
pub open spec fn spawn_list(rules: Seq<Rule>) -> Seq<(Seq<char>, Seq<char>, Option<u16>)>
    decreases rules.len(),
{
    if rules.len() == 0 {
        Seq::empty()
    } else {
        let before = spawn_list(rules.drop_last());
        let r = rules.last();
        match r.command {
            Some(c) => before.push((rule_id_text((rules.len() - 1) as nat), c@, r.backend_port)),
            None => before,
        }
    }
}

/// A list of spawn requests seen as plain values.
pub open spec fn spawn_view(v: Seq<SpawnRequest>) -> Seq<(Seq<char>, Seq<char>, Option<u16>)> {
    v.map_values(|s: SpawnRequest| (s.rule_id@, s.command@, s.port))
}

/// The commands to start when the proxy starts.
pub fn commands(router: &Router) -> (res: Vec<SpawnRequest>)
    ensures
        spawn_view(res@) == spawn_list(router.rules@),
{
    let rules = &router.rules;
    let mut out: Vec<SpawnRequest> = Vec::new();
    for i in 0..rules.len()
        invariant
            rules@ == router.rules@,
            spawn_view(out@) == spawn_list(rules@.take(i as int)),
    {
        let r = &rules[i];
        assert(rules@.take(i + 1).drop_last() =~= rules@.take(i as int));
        assert(rules@.take(i + 1).last() == rules@[i as int]);
        match &r.command {
            Some(c) => {
                let req = SpawnRequest { rule_id: rule_id(i), command: c.clone(), port: r.backend_port };
                out.push(req);
                assert(spawn_view(out@) =~= spawn_view(out@.drop_last()).push(
                    (req.rule_id@, req.command@, req.port),
                ));
            },
            None => {},
        }
    }
    assert(rules@.take(rules@.len() as int) =~= rules@);
    out
}

/// The line logged when a command is started: `PORT=<port> <command>`, or
/// the command alone when there is no port.
pub open spec fn spawn_message_text(command: Seq<char>, port: Option<u16>) -> Seq<char> {
    match port {
        Some(p) => "PORT="@ + decimal(p as nat) + " "@ + command,
        None => command,
    }
}

/// Builds the line logged when a command is started.
pub fn spawn_message(command: &str, port: Option<u16>) -> (res: String)
    ensures
        res@ == spawn_message_text(command@, port),
{
    let mut v: Vec<char> = Vec::new();
    match port {
        Some(p) => {
            push_str(&mut v, "PORT=");
            push_decimal(&mut v, p as u64);
            push_str(&mut v, " ");
            push_str(&mut v, command);
        },
        None => push_str(&mut v, command),
    }
    string_from(&v)
}

/// The words of `s` from its start, `cur` being the word read so far:
/// white space separates words and empty words are dropped.
pub open spec fn words_from(s: Seq<char>, cur: Seq<char>) -> Seq<Seq<char>>
    decreases s.len(),
{
    if s.len() == 0 {
        if cur.len() > 0 { seq![cur] } else { Seq::empty() }
    } else if is_space(s[0]) {
        let rest = words_from(s.drop_first(), Seq::empty());
        if cur.len() > 0 { seq![cur] + rest } else { rest }
    } else {
        words_from(s.drop_first(), cur.push(s[0]))
    }
}

/// The words of `s`, as `str::split_whitespace` gives them.
pub open spec fn words(s: Seq<char>) -> Seq<Seq<char>> {
    words_from(s, Seq::empty())
}

/// Splits a command line into its words.
pub fn split_words(s: &str) -> (res: Vec<String>)
    ensures
        res@.map_values(|w: String| w@) == words(s@),
{
    let v = chars_of(s);
    let mut out: Vec<String> = Vec::new();
    let mut cur: Vec<char> = Vec::new();
    let ghost done: Seq<Seq<char>> = Seq::empty();
    assert(v@.skip(0) =~= v@);
    for i in 0..v.len()
        invariant
            v@ == s@,
            out@.map_values(|w: String| w@) == done,
            words(s@) == done + words_from(v@.skip(i as int), cur@),
    {
        let c = v[i];
        let ghost rest = v@.skip(i + 1);
        assert(v@.skip(i as int).drop_first() =~= rest);
        assert(v@.skip(i as int)[0] == c);
        if is_space_char(c) {
            if cur.len() > 0 {
                let w = string_from(&cur);
                out.push(w);
                proof {
                    assert(out@.map_values(|w: String| w@) =~= done.push(cur@));
                    assert(done + (seq![cur@] + words_from(rest, Seq::empty())) =~= done.push(cur@)
                        + words_from(rest, Seq::empty()));
                    done = done.push(cur@);
                }
                cur = Vec::new();
            } else {
                assert(cur@ =~= Seq::<char>::empty());
            }
        } else {
            cur.push(c);
        }
    }
    assert(v@.skip(v.len() as int) =~= Seq::<char>::empty());
    if cur.len() > 0 {
        let w = string_from(&cur);
        out.push(w);
        assert(out@.map_values(|w: String| w@) =~= done.push(cur@));
        assert(done + seq![cur@] =~= done.push(cur@));
    } else {
        assert(done + Seq::<Seq<char>>::empty() =~= done);
    }
    out
}

/// How a command is run: the program, its arguments, and the value given
/// to the `PORT` environment variable, if any.
#[derive(Debug, Clone, PartialEq, Eq)]
pub struct CommandPlan {
    pub program: String,
    pub args: Vec<String>,
    pub port_env: Option<String>,
}

/// Splits a command into the program and its arguments and sets `PORT` to
/// the port's decimal text; a command with no words is refused with
/// `Empty command`.
pub fn plan_command(command: &str, port: Option<u16>) -> (res: Result<CommandPlan, String>)
    ensures
        words(command@).len() == 0 <==> res is Err,
        res matches Err(m) ==> m@ == "Empty command"@,
        res matches Ok(plan) ==> {
            &&& plan.program@ == words(command@)[0]
            &&& plan.args@.map_values(|w: String| w@) == words(command@).drop_first()
            &&& match port {
                Some(p) => plan.port_env matches Some(e) && e@ == decimal(p as nat),
                None => plan.port_env is None,
            }
        },
{
    let mut parts = split_words(command);
    if parts.len() == 0 {
        return Err(String::from_str("Empty command"));
    }
    let ghost all = parts@;
    let program = parts.remove(0);
    assert(parts@ =~= all.drop_first());
    assert(parts@.map_values(|w: String| w@) =~= all.map_values(|w: String| w@).drop_first());
    let port_env = match port {
        Some(p) => {
            let mut v: Vec<char> = Vec::new();
            push_decimal(&mut v, p as u64);
            Some(string_from(&v))
        },
        None => None,
    };
    Ok(CommandPlan { program, args: parts, port_env })
}

/// The line logged when a command could not be started.
pub open spec fn spawn_failure_text(rule_id: Seq<char>, error: Seq<char>) -> Seq<char> {
    "Failed to execute command ["@ + rule_id + "]: "@ + error
}

/// Builds the line logged, and returned as the error, when a command could
/// not be started.
pub fn spawn_failure_message(rule_id: &str, error: &str) -> (res: String)
    ensures
        res@ == spawn_failure_text(rule_id@, error@),
{
    let mut v: Vec<char> = Vec::new();
    push_str(&mut v, "Failed to execute command [");
    push_str(&mut v, rule_id);
    push_str(&mut v, "]: ");
    push_str(&mut v, error);
    string_from(&v)
}

/// What a check finds of a started process.
#[derive(Debug, Clone, PartialEq, Eq)]
pub enum ProcessState {
    /// Still running.
    Running,
    /// Exited, successfully or not, with its exit code when it has one.
    Exited { success: bool, code: Option<i32> },
    /// Its state could not be read; the error's text.
    Unknown(String),
}

/// `{:?}` of an exit code: `Some(<code>)` or `None`.
pub open spec fn code_text(code: Option<i32>) -> Seq<char> {
    match code {
        Some(c) => "Some("@ + signed_decimal(c as int) + ")"@,
        None => "None"@,
    }
}

/// The line logged about a process that is no longer running, if any.
pub open spec fn state_message(rule_id: Seq<char>, state: ProcessState) -> Option<Seq<char>> {
    match state {
        ProcessState::Running => None,
        ProcessState::Exited { success, code } => Some(
            "Process ["@ + rule_id + (if success {
                "] exited successfully (exit code: "@
            } else {
                "] exited with error (exit code: "@
            }) + code_text(code) + ")"@,
        ),
        ProcessState::Unknown(e) => Some("Failed to check process ["@ + rule_id + "]: "@ + e@),
    }
}

/// `items` joined by `sep`.
pub open spec fn join(items: Seq<Seq<char>>, sep: Seq<char>) -> Seq<char>
    decreases items.len(),
{
    if items.len() == 0 {
        Seq::empty()
    } else if items.len() == 1 {
        items[0]
    } else {
        join(items.drop_last(), sep) + sep + items.last()
    }
}

/// What one check of all processes finds: the lines to log, in the order
/// the processes were given, and the names of those no longer running.
pub open spec fn check_spec(states: Seq<(Seq<char>, ProcessState)>) -> (Seq<Seq<char>>, Seq<Seq<char>>)
    decreases states.len(),
{
    if states.len() == 0 {
        (Seq::empty(), Seq::empty())
    } else {
        let (messages, exited) = check_spec(states.drop_last());
        let (id, state) = states.last();
        match state_message(id, state) {
            Some(m) => (messages.push(m), exited.push(id)),
            None => (messages, exited),
        }
    }
}

/// The outcome of checking all processes.
#[derive(Debug)]
pub struct CheckReport {
    /// Lines to log, one per process that is no longer running.
    pub messages: Vec<String>,
    /// `Ok` when every process still runs, else the error naming those that
    /// exited.
    pub result: Result<(), String>,
}

/// The states seen as plain values.
pub open spec fn states_view(states: Seq<(String, ProcessState)>) -> Seq<(Seq<char>, ProcessState)> {
    states.map_values(|s: (String, ProcessState)| (s.0@, s.1))
}

fn state_line(rule_id: &str, state: &ProcessState) -> (res: Option<String>)
    ensures
        match res {
            Some(m) => state_message(rule_id@, *state) == Some(m@),
            None => state_message(rule_id@, *state) is None,
        },
{
    match state {
        ProcessState::Running => None,
        ProcessState::Exited { success, code } => {
            let mut v: Vec<char> = Vec::new();
            push_str(&mut v, "Process [");
            push_str(&mut v, rule_id);
            if *success {
                push_str(&mut v, "] exited successfully (exit code: ");
            } else {
                push_str(&mut v, "] exited with error (exit code: ");
            }
            match code {
                Some(c) => {
                    push_str(&mut v, "Some(");
                    push_signed_decimal(&mut v, *c as i64);
                    push_str(&mut v, ")");
                },
                None => push_str(&mut v, "None"),
            }
            push_str(&mut v, ")");
            assert(v@ =~= state_message(rule_id@, *state)->0);
            Some(string_from(&v))
        },
        ProcessState::Unknown(e) => {
            let mut v: Vec<char> = Vec::new();
            push_str(&mut v, "Failed to check process [");
            push_str(&mut v, rule_id);
            push_str(&mut v, "]: ");
            push_str(&mut v, e.as_str());
            Some(string_from(&v))
        },
    }
}

/// Checks all processes: every one that is no longer running is reported,
/// and the result is an error naming them all, comma-separated, when there
/// is any.
pub fn check_all(states: &Vec<(String, ProcessState)>) -> (res: CheckReport)
    ensures
        res.messages@.map_values(|m: String| m@) == check_spec(states_view(states@)).0,
        match res.result {
            Ok(_) => check_spec(states_view(states@)).1.len() == 0,
            Err(m) => check_spec(states_view(states@)).1.len() > 0 && m@ == "The following processes exited: "@
                + join(check_spec(states_view(states@)).1, ", "@),
        },
{
    let ghost all = states_view(states@);
    let mut messages: Vec<String> = Vec::new();
    let mut text: Vec<char> = Vec::new();
    let mut exited: usize = 0;
    for i in 0..states.len()
        invariant
            all == states_view(states@),
            messages@.map_values(|m: String| m@) == check_spec(all.take(i as int)).0,
            exited == check_spec(all.take(i as int)).1.len(),
            text@ == join(check_spec(all.take(i as int)).1, ", "@),
            exited <= i,
    {
        let id = &states[i].0;
        let state = &states[i].1;
        assert(all.take(i + 1).drop_last() =~= all.take(i as int));
        assert(all.take(i + 1).last() == (id@, *state));
        match state_line(id.as_str(), state) {
            Some(m) => {
                let ghost before = check_spec(all.take(i as int)).1;
                messages.push(m);
                assert(messages@.map_values(|m: String| m@) =~= check_spec(all.take(i as int)).0.push(m@));
                if exited > 0 {
                    push_str(&mut text, ", ");
                }
                push_str(&mut text, id.as_str());
                proof {
                    let after = before.push(id@);
                    assert(after.drop_last() =~= before);
                    if before.len() == 0 {
                        assert(join(after, ", "@) == after[0]);
                        assert(text@ =~= id@);
                    } else {
                        assert(text@ =~= join(before, ", "@) + ", "@ + id@);
                    }
                }
                exited = exited + 1;
            },
            None => {},
        }
    }
    assert(all.take(states.len() as int) =~= all);
    let result = if exited > 0 {
        let mut v: Vec<char> = Vec::new();
        push_str(&mut v, "The following processes exited: ");
        push_chars(&mut v, &text);
        Err(string_from(&v))
    } else {
        Ok(())
    };
    CheckReport { messages, result }
}

/// The line logged before a process is stopped.
pub fn terminating_message(rule_id: &str) -> (res: String)
    ensures
        res@ == "Terminating process ["@ + rule_id@ + "]..."@,
{
    let mut v: Vec<char> = Vec::new();
    push_str(&mut v, "Terminating process [");
    push_str(&mut v, rule_id);
    push_str(&mut v, "]...");
    string_from(&v)
}

/// One step of relaying a process's output: a line read is logged as
/// `<rule_id>: <line>`; when reading fails or ends (`None`), relaying stops
/// (`None`).
pub fn stream_output(rule_id: &str, line: Option<&str>) -> (res: Option<String>)
    ensures
        match line {
            Some(l) => res matches Some(m) && m@ == rule_id@ + ": "@ + l@,
            None => res is None,
        },
{
    match line {
        Some(l) => {
            let mut v: Vec<char> = Vec::new();
            push_str(&mut v, rule_id);
            push_str(&mut v, ": ");
            push_str(&mut v, l);
            Some(string_from(&v))
        },
        None => None,
    }
}

} // verus!

verus! {

/// A check finds a problem exactly when some process is no longer running,
/// whether it exited successfully, exited with an error, or could not be
/// read; each such process gets one logged line.
pub proof fn lemma_check_fails_iff_some_process_stopped(states: Seq<(Seq<char>, ProcessState)>)
    ensures
        check_spec(states).1.len() > 0 <==> exists|i: int|
            0 <= i < states.len() && (#[trigger] states[i]).1 !is Running,
        check_spec(states).0.len() == check_spec(states).1.len(),
    decreases states.len(),
{
    if states.len() > 0 {
        let before = states.drop_last();
        lemma_check_fails_iff_some_process_stopped(before);
        if exists|i: int| 0 <= i < before.len() && (#[trigger] before[i]).1 !is Running {
            let i = choose|i: int| 0 <= i < before.len() && (#[trigger] before[i]).1 !is Running;
            assert(states[i] == before[i]);
        }
        if exists|i: int| 0 <= i < states.len() && (#[trigger] states[i]).1 !is Running {
            let i = choose|i: int| 0 <= i < states.len() && (#[trigger] states[i]).1 !is Running;
            if i < states.len() - 1 {
                assert(before[i] == states[i]);
            }
        }
    }
}

} // verus!

verus! {

/// Every rule that has a command gets its command started, whatever its
/// prefix, host or port: under the name `rule_<index>`, with the rule's
/// backend port; and exactly one command is started per such rule.
pub proof fn lemma_every_command_is_started(rules: Seq<Rule>)
    ensures
        forall|i: int|
            0 <= i < rules.len() && (#[trigger] rules[i]).command is Some ==> spawn_list(
                rules,
            ).contains((rule_id_text(i as nat), rules[i].command->0@, rules[i].backend_port)),
        spawn_list(rules).len() == rules.filter(|r: Rule| r.command is Some).len(),
    decreases rules.len(),
{
    reveal(Seq::filter);
    if rules.len() > 0 {
        let before = rules.drop_last();
        lemma_every_command_is_started(before);
        let n = rules.len() - 1;
        assert forall|i: int|
            0 <= i < rules.len() && (#[trigger] rules[i]).command is Some implies spawn_list(
                rules,
            ).contains((rule_id_text(i as nat), rules[i].command->0@, rules[i].backend_port)) by {
            let item = (rule_id_text(i as nat), rules[i].command->0@, rules[i].backend_port);
            if i == n {
                let s = spawn_list(rules);
                assert(s[s.len() - 1] == item);
            } else {
                assert(before[i] == rules[i]);
                let k = choose|k: int| 0 <= k < spawn_list(before).len() && spawn_list(before)[k] == item;
                assert(spawn_list(rules)[k] == item);
            }
        }
    }
}

} // verus!
