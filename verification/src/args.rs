//! The command lines of the daemon and of the scripted daemon.

use vstd::prelude::*;
use crate::client;
use crate::scripted;
use crate::text;
use crate::tool_probe;

verus! {

/// Where a flag is given, at or after `from`.
pub open spec fn flag_index(args: Seq<Seq<char>>, flag: Seq<char>, from: int) -> Option<int>
    decreases args.len() - from,
{
    if from < 0 || from >= args.len() {
        None
    } else if args[from] == flag {
        Some(from)
    } else {
        flag_index(args, flag, from + 1)
    }
}

/// What becomes of a command line when a flag and its value are taken out of it.
pub enum Taken {
    /// The flag is not given.
    Absent,
    /// It is given last, with no value behind it.
    NoValue,
    /// It has this value, and this is what remains.
    Value(Seq<char>, Seq<Seq<char>>),
}

/// What becomes of a command line when a flag and its value are taken out of it.
pub open spec fn taken(args: Seq<Seq<char>>, flag: Seq<char>) -> Taken {
    match flag_index(args, flag, 0) {
        None => Taken::Absent,
        Some(i) => if i + 1 >= args.len() {
            Taken::NoValue
        } else {
            Taken::Value(args[i + 1], args.remove(i).remove(i))
        },
    }
}

impl Taken {
    /// The flag's value.
    pub open spec fn value(self) -> Option<Seq<char>> {
        match self {
            Taken::Value(value, _) => Some(value),
            _ => None,
        }
    }

    /// What remains of `args`.
    pub open spec fn rest(self, args: Seq<Seq<char>>) -> Seq<Seq<char>> {
        match self {
            Taken::Value(_, rest) => rest,
            _ => args,
        }
    }
}

/// Whether a flag is given, and where.
fn position(args: &[String], flag: &str) -> (r: Option<usize>)
    ensures
        match r {
            Some(i) => flag_index(client::texts_view(args@), flag@, 0) == Some(i as int) && i
                < args@.len(),
            None => flag_index(client::texts_view(args@), flag@, 0) is None,
        },
{
    let ghost views = client::texts_view(args@);
    let mut i: usize = 0;
    while i < args.len()
        invariant
            i <= args.len(),
            views == client::texts_view(args@),
            flag_index(views, flag@, 0) == flag_index(views, flag@, i as int),
        decreases args.len() - i,
    {
        assert(views[i as int] == args@[i as int]@);
        if text::same_text(args[i].as_str(), flag) {
            return Some(i);
        }
        i += 1;
    }
    None
}

/// Takes a flag and its value out of the command line. Where the flag has no value, the command
/// line stays as it is.
pub fn take_flag_value(args: &mut Vec<String>, flag: &str) -> (r: Result<Option<String>, ()>)
    ensures
        match taken(client::texts_view(old(args)@), flag@) {
            Taken::NoValue => r is Err,
            _ => r is Ok && tool_probe::text_option(r->Ok_0) == taken(
                client::texts_view(old(args)@),
                flag@,
            ).value(),
        },
        client::texts_view(final(args)@) == taken(client::texts_view(old(args)@), flag@).rest(
            client::texts_view(old(args)@),
        ),
{
    let ghost before = args@;
    match position(args.as_slice(), flag) {
        None => Ok(None),
        Some(at) => {
            if args.len() - at <= 1 {
                return Err(());
            }
            args.remove(at);
            let value: String = args.remove(at);
            assert(client::texts_view(args@) =~= client::texts_view(before).remove(
                at as int,
            ).remove(at as int));
            assert(value@ == client::texts_view(before)[at + 1]);
            Ok(Some(value))
        },
    }
}

/// The command line asks for help.
pub open spec fn wants_help(args: Seq<Seq<char>>) -> bool {
    flag_index(args, "-h"@, 0) is Some || flag_index(args, "--help"@, 0) is Some
}

/// What the daemon's command line says.
#[derive(Debug)]
pub enum DaemonCommand {
    Help,
    Run(DaemonFlags),
}

/// The daemon's flags, as they are written, and what else there is.
#[derive(Debug)]
pub struct DaemonFlags {
    pub socket: Option<String>,
    pub budget_fraction: Option<String>,
    pub rest: Vec<String>,
}

/// What is said where a flag of the daemon has no value.
pub open spec fn value_required(flag: Seq<char>) -> Seq<char> {
    flag + " requires a value"@
}

/// Reads the daemon's flags.
pub fn daemon_flags(args: Vec<String>) -> (r: Result<DaemonCommand, String>)
    ensures
        ({
            let all = client::texts_view(args@);
            let socket = taken(all, "--socket"@);
            let others = socket.rest(all);
            let budget = taken(others, "--budget-fraction"@);
            if wants_help(all) {
                r matches Ok(DaemonCommand::Help)
            } else if socket is NoValue {
                r is Err && r->Err_0@ == value_required("--socket"@)
            } else if budget is NoValue {
                r is Err && r->Err_0@ == value_required("--budget-fraction"@)
            } else {
                &&& r matches Ok(DaemonCommand::Run(flags))
                &&& tool_probe::text_option(flags.socket) == socket.value()
                &&& tool_probe::text_option(flags.budget_fraction) == budget.value()
                &&& client::texts_view(flags.rest@) == budget.rest(others)
            }
        }),
{
    let mut args = args;
    if position(args.as_slice(), "-h").is_some() || position(
        args.as_slice(),
        "--help",
    ).is_some() {
        return Ok(DaemonCommand::Help);
    }
    let socket: Option<String> = match take_flag_value(&mut args, "--socket") {
        Ok(socket) => socket,
        Err(_) => {
            let mut message: String = "--socket".to_string();
            message.append(" requires a value");
            return Err(message);
        },
    };
    let budget_fraction: Option<String> = match take_flag_value(&mut args, "--budget-fraction") {
        Ok(budget) => budget,
        Err(_) => {
            let mut message: String = "--budget-fraction".to_string();
            message.append(" requires a value");
            return Err(message);
        },
    };
    Ok(DaemonCommand::Run(DaemonFlags { socket, budget_fraction, rest: args }))
}

/// What is said of arguments that mean nothing.
pub open spec fn unrecognized(rest: Seq<String>) -> Seq<char> {
    "unrecognized argument(s): "@ + scripted::joined(rest, " "@)
}

/// Refuses arguments that mean nothing.
pub fn check_rest(rest: &[String]) -> (r: Result<(), String>)
    ensures
        r is Ok <==> rest@.len() == 0,
        r is Err ==> r->Err_0@ == unrecognized(rest@),
{
    if rest.len() == 0 {
        return Ok(());
    }
    let mut message: String = "unrecognized argument(s): ".to_string();
    message.append(scripted::join(rest, " ").as_str());
    Err(message)
}

/// What the scripted daemon's command line says.
#[derive(Debug)]
pub enum ScriptCommand {
    Help,
    Run(ScriptFlags),
}

/// The scripted daemon's flags.
#[derive(Debug)]
pub struct ScriptFlags {
    pub socket: String,
    pub transcript: Option<String>,
    pub script: String,
}

/// What is said where a flag of the scripted daemon has no value.
pub open spec fn value_needed(flag: Seq<char>) -> Seq<char> {
    flag + " needs a value"@
}

/// Reads the scripted daemon's flags.
pub fn script_flags(args: Vec<String>) -> (r: Result<ScriptCommand, String>)
    ensures
        ({
            let all = client::texts_view(args@);
            let socket = taken(all, "--socket"@);
            let others = socket.rest(all);
            let transcript = taken(others, "--transcript"@);
            let fewer = transcript.rest(others);
            let script = taken(fewer, "--script"@);
            let rest = script.rest(fewer);
            if wants_help(all) {
                r matches Ok(ScriptCommand::Help)
            } else if socket is NoValue {
                r is Err && r->Err_0@ == value_needed("--socket"@)
            } else if socket is Absent {
                r is Err && r->Err_0@ == "--socket is required"@
            } else if transcript is NoValue {
                r is Err && r->Err_0@ == value_needed("--transcript"@)
            } else if script is NoValue {
                r is Err && r->Err_0@ == value_needed("--script"@)
            } else if script is Absent {
                r is Err && r->Err_0@ == "--script is required"@
            } else if rest.len() > 0 {
                r is Err && exists|left: Seq<String>| #[trigger]
                    client::texts_view(left) == rest && r->Err_0@ == unrecognized(left)
            } else {
                &&& r matches Ok(ScriptCommand::Run(flags))
                &&& Some(flags.socket@) == socket.value()
                &&& tool_probe::text_option(flags.transcript) == transcript.value()
                &&& Some(flags.script@) == script.value()
            }
        }),
{
    let mut args = args;
    if position(args.as_slice(), "-h").is_some() || position(
        args.as_slice(),
        "--help",
    ).is_some() {
        return Ok(ScriptCommand::Help);
    }
    let socket: String = match take_flag_value(&mut args, "--socket") {
        Ok(Some(socket)) => socket,
        Ok(None) => {
            return Err("--socket is required".to_string());
        },
        Err(_) => {
            let mut message: String = "--socket".to_string();
            message.append(" needs a value");
            return Err(message);
        },
    };
    let transcript: Option<String> = match take_flag_value(&mut args, "--transcript") {
        Ok(transcript) => transcript,
        Err(_) => {
            let mut message: String = "--transcript".to_string();
            message.append(" needs a value");
            return Err(message);
        },
    };
    let script: String = match take_flag_value(&mut args, "--script") {
        Ok(Some(script)) => script,
        Ok(None) => {
            return Err("--script is required".to_string());
        },
        Err(_) => {
            let mut message: String = "--script".to_string();
            message.append(" needs a value");
            return Err(message);
        },
    };
    match check_rest(args.as_slice()) {
        Ok(_) => Ok(ScriptCommand::Run(ScriptFlags { socket, transcript, script })),
        Err(message) => Err(message),
    }
}

/// A flag and its value that stand first are taken out, and nothing else is.
pub proof fn law_a_flag_is_taken_out(args: Seq<Seq<char>>, flag: Seq<char>, value: Seq<char>)
    ensures
        taken(seq![flag, value] + args, flag) == Taken::Value(value, args),
{
    let all = seq![flag, value] + args;
    assert(all[0] == flag && all[1] == value);
    assert(all.remove(0).remove(0) =~= args);
}

/// A flag is taken out wherever it stands, with the value behind it; what stands before and behind
/// the two remains. It is taken out where it stands first, and nothing is where it is not given.
pub proof fn law_a_flag_is_taken_out_anywhere(
    front: Seq<Seq<char>>,
    flag: Seq<char>,
    value: Seq<char>,
    back: Seq<Seq<char>>,
)
    requires
        !front.contains(flag),
    ensures
        taken(front + seq![flag, value] + back, flag).value() == Some(value),
        taken(front + seq![flag, value] + back, flag).rest(front + seq![flag, value] + back) == front
            + back,
        taken(front + seq![flag], flag) is NoValue,
        taken(front, flag) is Absent,
        taken(front, flag).value() is None,
        taken(front, flag).rest(front) == front,
        taken(front + seq![flag], flag).value() is None,
{
    let all = front + seq![flag, value] + back;
    assert(all[front.len() as int] == flag);
    assert(all[front.len() as int + 1] == value);
    lemma_first_flag(all, flag, 0, front.len() as int, front);
    assert(all.remove(front.len() as int).remove(front.len() as int) =~= front + back);
    let last = front + seq![flag];
    assert(last[front.len() as int] == flag);
    lemma_first_flag(last, flag, 0, front.len() as int, front);
    lemma_no_flag(front, flag, 0);
}

proof fn lemma_first_flag(
    args: Seq<Seq<char>>,
    flag: Seq<char>,
    from: int,
    i: int,
    front: Seq<Seq<char>>,
)
    requires
        0 <= from <= i < args.len(),
        front.len() == i,
        args[i] == flag,
        forall|j: int| 0 <= j < i ==> #[trigger] args[j] == front[j],
        !front.contains(flag),
    ensures
        flag_index(args, flag, from) == Some(i),
    decreases i - from,
{
    if from < i {
        assert(args[from] == front[from]);
        lemma_first_flag(args, flag, from + 1, i, front);
    }
}

proof fn lemma_no_flag(args: Seq<Seq<char>>, flag: Seq<char>, from: int)
    requires
        0 <= from,
    ensures
        flag_index(args, flag, from) is Some <==> exists|j: int|
            from <= j < args.len() && #[trigger] args[j] == flag,
    decreases args.len() - from,
{
    if from < args.len() {
        lemma_no_flag(args, flag, from + 1);
        if args[from] != flag && flag_index(args, flag, from) is Some {
            let j = choose|j: int| from + 1 <= j < args.len() && #[trigger] args[j] == flag;
            assert(args[j] == flag);
        }
    }
}

/// Help is wanted if one of the words for it stands anywhere.
pub proof fn law_when_help_is_wanted(args: Seq<Seq<char>>)
    ensures
        wants_help(args) <==> args.contains("-h"@) || args.contains("--help"@),
{
    lemma_no_flag(args, "-h"@, 0);
    lemma_no_flag(args, "--help"@, 0);
}

/// The daemon's flags are read in whichever order they are given: each has the value that stands
/// behind it, and what is neither a flag nor a value remains.
pub proof fn law_the_daemons_flags_are_read(
    args: Vec<String>,
    r: Result<DaemonCommand, String>,
    front: Seq<Seq<char>>,
    socket: Seq<char>,
    back: Seq<Seq<char>>,
    left: Seq<Seq<char>>,
    budget: Seq<char>,
    right: Seq<Seq<char>>,
)
    requires
        call_ensures(daemon_flags, (args,), r),
    ensures
        ({
            let all = client::texts_view(args@);
            let help = all.contains("-h"@) || all.contains("--help"@);
            let given = all == front + seq!["--socket"@, socket] + back && !front.contains(
                "--socket"@,
            );
            let both = given && front + back == left + seq!["--budget-fraction"@, budget] + right
                && !left.contains("--budget-fraction"@);
            &&& help <==> (r is Ok && r->Ok_0 is Help)
            &&& !help && both ==> r is Ok && r->Ok_0 is Run && {
                let flags = r->Ok_0->Run_0;
                &&& flags.socket is Some
                &&& flags.socket->0@ == socket
                &&& flags.budget_fraction is Some
                &&& flags.budget_fraction->0@ == budget
                &&& client::texts_view(flags.rest@) == left + right
            }
            &&& !help && given && !(front + back).contains("--budget-fraction"@) ==> r is Ok
                && r->Ok_0 is Run && {
                let flags = r->Ok_0->Run_0;
                &&& flags.socket is Some
                &&& flags.socket->0@ == socket
                &&& flags.budget_fraction is None
                &&& client::texts_view(flags.rest@) == front + back
            }
            &&& !help && !all.contains("--socket"@) && !all.contains("--budget-fraction"@) ==> r
                is Ok && r->Ok_0 is Run && {
                let flags = r->Ok_0->Run_0;
                &&& flags.socket is None
                &&& flags.budget_fraction is None
                &&& client::texts_view(flags.rest@) == all
            }
        }),
{
    let all = client::texts_view(args@);
    law_when_help_is_wanted(all);
    if all == front + seq!["--socket"@, socket] + back && !front.contains("--socket"@) {
        law_a_flag_is_taken_out_anywhere(front, "--socket"@, socket, back);
        if !(front + back).contains("--budget-fraction"@) {
            law_a_flag_is_taken_out_anywhere(front + back, "--budget-fraction"@, budget, right);
        }
    }
    if !left.contains("--budget-fraction"@) {
        law_a_flag_is_taken_out_anywhere(left, "--budget-fraction"@, budget, right);
    }
    if !all.contains("--socket"@) {
        law_a_flag_is_taken_out_anywhere(all, "--socket"@, socket, back);
    }
    if !all.contains("--budget-fraction"@) {
        law_a_flag_is_taken_out_anywhere(all, "--budget-fraction"@, budget, right);
    }
}

/// The scripted daemon needs a socket and a script; a transcript is kept where it is asked for.
pub proof fn law_the_scripted_daemons_flags_are_read(
    args: Vec<String>,
    r: Result<ScriptCommand, String>,
    socket: Seq<char>,
    transcript: Seq<char>,
    script: Seq<char>,
)
    requires
        call_ensures(script_flags, (args,), r),
    ensures
        ({
            let all = client::texts_view(args@);
            let help = all.contains("-h"@) || all.contains("--help"@);
            &&& help <==> (r is Ok && r->Ok_0 is Help)
            &&& !help && !all.contains("--socket"@) ==> r is Err
            &&& !help && !all.contains("--script"@) ==> r is Err
            &&& !help && all == seq!["--socket"@, socket, "--script"@, script] && script
                != "--transcript"@ ==> r is Ok && r->Ok_0 is Run && {
                let flags = r->Ok_0->Run_0;
                &&& flags.socket@ == socket
                &&& flags.script@ == script
                &&& flags.transcript is None
            }
            &&& !help && all == seq![
                "--socket"@,
                socket,
                "--transcript"@,
                transcript,
                "--script"@,
                script,
            ] ==> r is Ok && r->Ok_0 is Run && {
                let flags = r->Ok_0->Run_0;
                &&& flags.socket@ == socket
                &&& flags.script@ == script
                &&& flags.transcript is Some
                &&& flags.transcript->0@ == transcript
            }
        }),
{
    reveal_strlit("--socket");
    reveal_strlit("--script");
    reveal_strlit("--transcript");
    assert("--socket"@.len() == 8 && "--transcript"@.len() == 12);
    assert("--socket"@[4] == 'c' && "--script"@[4] == 'r');
    let all = client::texts_view(args@);
    law_when_help_is_wanted(all);
    let none = Seq::<Seq<char>>::empty();
    let behind = taken(all, "--socket"@).rest(all);
    let fewer = taken(behind, "--transcript"@).rest(behind);
    if !all.contains("--socket"@) {
        law_a_flag_is_taken_out_anywhere(all, "--socket"@, socket, none);
    }
    if !all.contains("--script"@) {
        lemma_rest_contains(all, "--socket"@, "--script"@);
        lemma_rest_contains(behind, "--transcript"@, "--script"@);
        law_a_flag_is_taken_out_anywhere(fewer, "--script"@, script, none);
    }
    if all == seq!["--socket"@, socket, "--script"@, script] && script != "--transcript"@ {
        let tail = seq!["--script"@, script];
        assert(all =~= seq!["--socket"@, socket] + tail);
        law_a_flag_is_taken_out(tail, "--socket"@, socket);
        assert(!tail.contains("--transcript"@)) by {
            assert("--script"@.len() == 8);
        }
        law_a_flag_is_taken_out_anywhere(tail, "--transcript"@, transcript, none);
        assert(tail =~= tail + none);
        law_a_flag_is_taken_out(none, "--script"@, script);
    }
    if all == seq!["--socket"@, socket, "--transcript"@, transcript, "--script"@, script] {
        let tail = seq!["--script"@, script];
        let middle = seq!["--transcript"@, transcript] + tail;
        assert(all =~= seq!["--socket"@, socket] + middle);
        law_a_flag_is_taken_out(middle, "--socket"@, socket);
        law_a_flag_is_taken_out(tail, "--transcript"@, transcript);
        assert(tail =~= tail + none);
        law_a_flag_is_taken_out(none, "--script"@, script);
    }
}

/// Nothing comes up by taking something out.
proof fn lemma_rest_contains(args: Seq<Seq<char>>, flag: Seq<char>, word: Seq<char>)
    requires
        !args.contains(word),
    ensures
        !taken(args, flag).rest(args).contains(word),
{
    let rest = taken(args, flag).rest(args);
    match flag_index(args, flag, 0) {
        Some(i) => {
            lemma_flag_index(args, flag, 0);
            if i + 1 < args.len() && rest.contains(word) {
                let j = choose|j: int| 0 <= j < rest.len() && #[trigger] rest[j] == word;
                let k = if j < i {
                    j
                } else {
                    j + 2
                };
                assert(rest[j] == args[k]);
            }
        },
        None => {},
    }
}

proof fn lemma_flag_index(args: Seq<Seq<char>>, flag: Seq<char>, from: int)
    requires
        0 <= from,
    ensures
        flag_index(args, flag, from) matches Some(i) ==> from <= i < args.len(),
    decreases args.len() - from,
{
    if from < args.len() && args[from] != flag {
        lemma_flag_index(args, flag, from + 1);
    }
}

/// What is said of a flag names it, and what is said of arguments that mean nothing lists them.
pub proof fn law_what_is_said_of_arguments(flag: Seq<char>, rest: Seq<String>)
    ensures
        flag.is_prefix_of(value_required(flag)),
        flag.is_prefix_of(value_needed(flag)),
        value_required(flag) != value_needed(flag),
        ({
            let said = unrecognized(rest);
            let list = scripted::joined(rest, " "@);
            said.len() > list.len() && said.skip(said.len() - list.len()) == list
        }),
{
    reveal_strlit(" requires a value");
    reveal_strlit(" needs a value");
    reveal_strlit("unrecognized argument(s): ");
    assert(value_required(flag).take(flag.len() as int) =~= flag);
    assert(value_needed(flag).take(flag.len() as int) =~= flag);
    assert(value_required(flag).len() != value_needed(flag).len());
    let said = unrecognized(rest);
    let list = scripted::joined(rest, " "@);
    assert(said.skip(said.len() - list.len()) =~= list);
}

} // verus!
