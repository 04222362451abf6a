//! The evaluator: a step machine over the operand stack, the variable memory
//! and a stack of frames (programs being run, loops, iterations).
//!
//! `step` does one piece of work. When a command needs the host (the
//! console, files, network, clock, or arithmetic in IEEE-754 doubles), `step`
//! hands out a `Request` and the machine waits until `resume` brings the
//! `Reply`.
use vstd::prelude::*;

use crate::bindings::{
    bind, bindings_model, get_bound, lookup, remove_bound, set_bound, unbind, unique_names,
};
use crate::builtins::{
    arg_list, arity, below, empty_string, error_value, pops, stack_after, stack_command, strs, text_arg,
};
use crate::outside::{is_permutation, random_below, shuffle_values};
use crate::commands::{command_named, command_of, Cmd};
use crate::lexer::{tokenize, unescape, unescape_text};
use crate::number::{decimal_literal, is_decimal};
use crate::text::{
    decimal_string, is_word, join_all, replace, replace_all, same, starts, to_chars, to_text, views,
};
use crate::value::{
    copy_values, display, items_of, model, models, number_source, number_text, string_value, text_of, truth, Type, Val,
};

verus! {

/// How the evaluator reports what it does.
#[derive(Clone, Copy, Debug, PartialEq, Eq, Structural)]
pub enum Mode {
    /// Runs a script: only the program's own output.
    Script,
    /// Traces each token and the stack, and marks the program's output.
    Debug,
}

/// What an iteration over a list does with each item.
#[derive(Clone, Copy, Debug, PartialEq, Eq, Structural)]
pub enum EachKind {
    /// `for`: runs the body.
    Visit,
    /// `map`: collects what the body leaves on top.
    Transform,
    /// `filter`: keeps the items for which the body leaves a true value.
    Select,
}

/// Work in progress.
#[derive(Debug)]
pub enum Frame {
    /// A program, and the index of its next token.
    Run { tokens: Vec<Vec<char>>, next: usize },
    /// A list literal: what its program leaves above `base` becomes a list.
    Collect { base: usize },
    /// `while`: `testing` when the condition has just run.
    Loop { body: String, cond: String, testing: bool },
    /// `for`, `map` or `filter`: `next` items have been started.
    Each {
        kind: EachKind,
        items: Vec<Type>,
        name: String,
        code: String,
        next: usize,
        results: Vec<Type>,
    },
    /// `reduce`: `next` items have been started.
    Fold { items: Vec<Type>, acc: String, now: String, code: String, next: usize },
}

/// A binary operation in IEEE-754 doubles.
#[derive(Clone, Copy, Debug, PartialEq, Eq, Structural)]
pub enum Arith {
    Add,
    Sub,
    Mul,
    Div,
    Rem,
    Pow,
}

/// A unary operation in IEEE-754 doubles.
#[derive(Clone, Copy, Debug, PartialEq, Eq, Structural)]
pub enum Math {
    Round,
    Sin,
    Cos,
    Tan,
}

/// A system-information probe.
#[derive(Clone, Copy, Debug, PartialEq, Eq, Structural)]
pub enum Probe {
    OsRelease,
    OsType,
    CpuNum,
    CpuSpeed,
    HostName,
    MemSize,
    MemUsed,
}

/// Work that only the host can do. Numbers go out as texts to parse (a text
/// that does not parse stands for 0) and come back as the text the double
/// prints as.
#[derive(Debug)]
pub enum Request {
    /// Parse a number.
    Parse(String),
    Arith(Arith, String, String),
    Math(Math, String),
    /// Whether the first number is less than the second.
    Less(String, String),
    /// Show the prompt and read a line.
    Input(String),
    ReadFile(String),
    /// Write the text (second) to the path (first).
    WriteFile(String, String),
    /// An HTTP GET of the URL.
    Fetch(String),
    /// Open a file or URL with the system's default program.
    Open(String),
    ChangeDir(String),
    CurrentDir,
    MakeDir(String),
    Remove(String),
    Rename(String, String),
    CopyFile(String, String),
    FileSize(String),
    ListDir,
    IsFolder(String),
    SysInfo(Probe),
    SetClipboard(String),
    GetClipboard,
    ClearScreen,
    /// A sine tone: frequency and duration in seconds.
    PlaySound(String, String),
    PlayFile(String),
    /// The process's command-line arguments.
    Arguments,
    /// Seconds since the Unix epoch.
    Now,
    Sleep(String),
    Exit(String),
    /// Run this evaluator on a thread of its own.
    Spawn(Executor),
}

/// What the host answers.
#[derive(Debug)]
pub enum Reply {
    Done,
    Failed,
    /// A file could not be created or opened.
    Unopened,
    Number(String),
    Flag(bool),
    Text(String),
    Texts(Vec<String>),
}

/// What a step did.
#[derive(Debug)]
pub enum Action {
    /// Work was done; step again.
    Continue,
    /// Nothing is left to do.
    Finished,
    /// The host must do this and `resume` with the reply.
    Ask(Request),
}

/// How a reply is taken.
#[derive(Debug)]
pub enum Pending {
    /// Push what the reply carries; `done`, `failed` and `unopened` are what
    /// a reply without a value pushes.
    Answer { done: Option<Type>, failed: Option<Type>, unopened: Option<Type> },
    /// The number parsed for the operand `depth` below the top; then the
    /// command runs again.
    Operand { depth: usize, command: Cmd, word: Vec<char> },
}

pub open spec fn opt_vals(o: Option<Type>) -> Seq<Val> {
    match o {
        Some(v) => seq![model(v)],
        None => seq![],
    }
}

/// What an answer pushes for a reply.
pub open spec fn reply_values(done: Option<Type>, failed: Option<Type>, unopened: Option<Type>, reply: Reply) -> Seq<Val> {
    match reply {
        Reply::Done => opt_vals(done),
        Reply::Failed => opt_vals(failed),
        Reply::Unopened => if unopened is Some { opt_vals(unopened) } else { opt_vals(failed) },
        Reply::Number(t) => seq![Val::Number(t@)],
        Reply::Flag(b) => seq![Val::Bool(b)],
        Reply::Text(s) => seq![Val::Str(s@)],
        Reply::Texts(v) => seq![Val::List(v@.map_values(|s: String| Val::Str(s@)))],
    }
}

/// Whether the value must be parsed by the host to be used as a number.
pub open spec fn needs_parse(v: Val) -> bool {
    v is Str || v is Error
}

/// Whether the operand `d` below the top is there and must be parsed.
pub open spec fn needs_at(s: Seq<Val>, d: nat) -> bool {
    d < s.len() && needs_parse(s[s.len() - 1 - d])
}

/// The operand that must be parsed before a stack command can use it as a
/// count, if any.
pub open spec fn operand_to_parse(c: Cmd, s: Seq<Val>) -> Option<nat> {
    match c {
        Cmd::Repeat | Cmd::Decode | Cmd::GetItem | Cmd::DelItem => if needs_at(s, 0) { Some(0) } else { None },
        Cmd::SetItem | Cmd::Insert => if needs_at(s, 1) { Some(1) } else { None },
        Cmd::Range => if needs_at(s, 0) {
            Some(0)
        } else if needs_at(s, 1) {
            Some(1)
        } else if needs_at(s, 2) {
            Some(2)
        } else {
            None
        },
        Cmd::Cast => if s.len() > 0 && crate::value::text_of(s.last()) == "number"@ && needs_at(s, 1) {
            Some(1)
        } else {
            None
        },
        _ => None,
    }
}

/// What a `while` frame does when it comes back on top: after the
/// condition ran, it takes the value left on top and runs the body if that
/// value is true (and is done otherwise); after the body ran, it runs the
/// condition again.
pub open spec fn loop_effect(body: Seq<char>, cond: Seq<char>, testing: bool, e0: Executor, e1: Executor, a: Action) -> bool {
    let s = e0.stack_model();
    &&& a is Continue
    &&& e1.memory == e0.memory
    &&& testing ==> e1.stack_model() == below(s, 1)
    &&& testing && truth(arg_list(s, 1)[0]) ==> runs_program(e1, body) && e1.frames@.len() == e0.frames@.len() + 1
    &&& testing && !truth(arg_list(s, 1)[0]) ==> e1.frames@.len() == e0.frames@.len() - 1
    &&& !testing ==> e1.stack == e0.stack && runs_program(e1, cond) && e1.frames@.len() == e0.frames@.len() + 1
}

/// What a `for`, `map` or `filter` frame does when it comes back on top:
/// it takes what the body left (for `map` and `filter`), then binds the name
/// to the next item and runs the body, or, with no item left, pushes the
/// collected list (for `map` and `filter`).
pub open spec fn each_effect(
    kind: EachKind,
    items: Seq<Val>,
    name: Seq<char>,
    code: Seq<char>,
    next: nat,
    e0: Executor,
    e1: Executor,
    a: Action,
) -> bool {
    let s = e0.stack_model();
    let taken = if next > 0 && kind != EachKind::Visit { below(s, 1) } else { s };
    &&& a is Continue
    &&& next < items.len() ==> {
        &&& e1.stack_model() == taken
        &&& e1.memory_model() == bind(e0.memory_model(), name, items[next as int])
        &&& runs_program(e1, code)
    }
    &&& next >= items.len() ==> e1.memory == e0.memory && (kind == EachKind::Visit
        ==> e1.stack_model() == taken) && (kind != EachKind::Visit ==> e1.stack_model().len()
        == taken.len() + 1)
}

/// What a `reduce` frame does when it comes back on top: it binds the
/// accumulator to what the body left, then binds the current name to the
/// next item and runs the body, or, with no item left, pushes the
/// accumulator's value and binds the accumulator to the empty string.
pub open spec fn fold_effect(
    items: Seq<Val>,
    acc: Seq<char>,
    now: Seq<char>,
    code: Seq<char>,
    next: nat,
    e0: Executor,
    e1: Executor,
    a: Action,
) -> bool {
    let s = e0.stack_model();
    let m = if next > 0 { bind(e0.memory_model(), acc, arg_list(s, 1)[0]) } else { e0.memory_model() };
    let taken = if next > 0 { below(s, 1) } else { s };
    &&& a is Continue
    &&& next < items.len() ==> {
        &&& e1.stack_model() == taken
        &&& e1.memory_model() == bind(m, now, items[next as int])
        &&& runs_program(e1, code)
    }
    &&& next >= items.len() ==> {
        &&& e1.stack_model() == taken.push(
            match lookup(m, acc) {
                Some(v) => v,
                None => empty_string(),
            },
        )
        &&& e1.memory_model() == bind(m, acc, empty_string())
    }
}

/// The display forms of the values.
pub open spec fn displays(s: Seq<Val>) -> Seq<Seq<char>> {
    s.map_values(|v: Val| display(v))
}

/// The values of `l` in the order `p`.
pub open spec fn permuted(l: Seq<Val>, p: Seq<int>) -> Seq<Val> {
    Seq::new(l.len(), |i: int| l[p[i]])
}

/// The names bound, in order.
pub open spec fn names_of(m: Seq<(Seq<char>, Val)>) -> Seq<Seq<char>> {
    m.map_values(|p: (Seq<char>, Val)| p.0)
}

/// The binary operation that a command asks the host for.
pub open spec fn arith_of(c: Cmd) -> Arith {
    match c {
        Cmd::Add => Arith::Add,
        Cmd::Sub => Arith::Sub,
        Cmd::Mul => Arith::Mul,
        Cmd::Div => Arith::Div,
        Cmd::Mod => Arith::Rem,
        _ => Arith::Pow,
    }
}

/// The unary operation that a command asks the host for.
pub open spec fn math_of(c: Cmd) -> Math {
    match c {
        Cmd::Round => Math::Round,
        Cmd::Sin => Math::Sin,
        Cmd::Cos => Math::Cos,
        _ => Math::Tan,
    }
}

/// How many values a command that only asks the host takes.
pub open spec fn host_pops(c: Cmd) -> Option<nat> {
    match c {
        Cmd::WriteFile | Cmd::PlaySound | Cmd::Rename | Cmd::Cp => Some(2),
        Cmd::ReadFile | Cmd::Input | Cmd::PlayFile | Cmd::Thread | Cmd::Exit | Cmd::Sleep
        | Cmd::Request | Cmd::Open | Cmd::Cd | Cmd::Mkdir | Cmd::Rm | Cmd::SizeFile | Cmd::Folder
        | Cmd::SetClipboard => Some(1),
        Cmd::ArgsCmd | Cmd::Clear | Cmd::NowTime | Cmd::Pwd | Cmd::Ls | Cmd::GetClipboard => Some(0),
        _ => None,
    }
}

/// The error that a command pushes when the host reports a failure.
pub open spec fn failure_code(c: Cmd) -> Option<Seq<char>> {
    match c {
        Cmd::WriteFile => Some("write-file"@),
        Cmd::ReadFile => Some("read-file"@),
        Cmd::PlayFile => Some("play-file"@),
        Cmd::Clear => Some("failed-to-clear-screen"@),
        Cmd::Request => Some("request"@),
        Cmd::Open => Some("open"@),
        Cmd::Cd => Some("cd"@),
        Cmd::Mkdir => Some("mkdir"@),
        Cmd::Rm => Some("rm"@),
        Cmd::Rename => Some("rename"@),
        Cmd::Cp => Some("cp"@),
        Cmd::SizeFile => Some("size-file"@),
        Cmd::Ls => Some("ls"@),
        Cmd::SetClipboard => Some("set-clipboard"@),
        Cmd::GetClipboard => Some("get-clipboard"@),
        _ => None,
    }
}

/// Whether the machine waits for a reply whose failure pushes `code`.
pub open spec fn fails_with(e: Executor, code: Seq<char>) -> bool {
    e.pending matches Some(Pending::Answer { failed: Some(f), .. }) && model(f) == Val::Error(code)
}

/// Whether the innermost frame runs the program `code` from its start.
pub open spec fn runs_program(e: Executor, code: Seq<char>) -> bool {
    &&& e.frames@.len() > 0
    &&& (e.frames@.last() matches Frame::Run { tokens, next } && next == 0 && views(tokens@)
        == crate::lexer::tokens_of(code))
}

/// Whether the machine waits for a reply whose `Done`, `Failed` and
/// `Unopened` forms push `done`, `failed` and `unopened` (numbers, flags and
/// texts push themselves).
pub open spec fn answers(e: Executor, done: Seq<Val>, failed: Seq<Val>, unopened: Seq<Val>) -> bool {
    e.pending matches Some(Pending::Answer { done: d, failed: f, unopened: u }) && opt_vals(d)
        == done && opt_vals(f) == failed && opt_vals(u) == unopened
}

/// Whether the machine waits for a reply that pushes only what it carries.
pub open spec fn answers_plain(e: Executor) -> bool {
    e.pending == Some(Pending::Answer { done: None, failed: None, unopened: None })
}

pub open spec fn is_ascii_space(c: char) -> bool {
    c == ' ' || c == '\t' || c == '\n' || c == '\r' || c == '\x0C'
}

/// Whether `r` is `t` without its leading and trailing ASCII whitespace.
pub open spec fn trims(t: Seq<char>, r: Seq<char>) -> bool {
    exists|a: int, b: int|
        0 <= a <= b <= t.len() && r == t.subrange(a, b) && (forall|i: int|
            0 <= i < a ==> is_ascii_space(#[trigger] t[i])) && (forall|i: int|
            b <= i < t.len() ==> is_ascii_space(#[trigger] t[i])) && (a < b ==> !is_ascii_space(t[a])
            && !is_ascii_space(t[b - 1]))
}

/// What a command that asks the host hands to it, from its arguments.
pub open spec fn host_asks(c: Cmd, args: Seq<Val>, req: Request) -> bool {
    match c {
        Cmd::WriteFile => req matches Request::WriteFile(p, x) && p@ == text_of(args[1]) && x@
            == text_of(args[0]),
        Cmd::ReadFile => req matches Request::ReadFile(p) && trims(text_of(args[0]), p@),
        Cmd::Input => req matches Request::Input(p) && p@ == text_of(args[0]),
        Cmd::ArgsCmd => req is Arguments,
        Cmd::PlaySound => req matches Request::PlaySound(f, d) && f@ == number_source(args[0]) && d@
            == number_source(args[1]),
        Cmd::PlayFile => req matches Request::PlayFile(p) && p@ == text_of(args[0]),
        Cmd::Clear => req is ClearScreen,
        Cmd::Exit => req matches Request::Exit(t) && t@ == number_source(args[0]),
        Cmd::NowTime => req is Now,
        Cmd::Sleep => req matches Request::Sleep(t) && t@ == number_source(args[0]),
        Cmd::Request => req matches Request::Fetch(u) && u@ == text_of(args[0]),
        Cmd::Open => req matches Request::Open(n) && n@ == text_of(args[0]),
        Cmd::Cd => req matches Request::ChangeDir(n) && n@ == text_of(args[0]),
        Cmd::Mkdir => req matches Request::MakeDir(n) && n@ == text_of(args[0]),
        Cmd::Rm => req matches Request::Remove(n) && n@ == text_of(args[0]),
        Cmd::Pwd => req is CurrentDir,
        Cmd::Rename => req matches Request::Rename(f, t) && f@ == text_of(args[0]) && t@ == text_of(
            args[1],
        ),
        Cmd::Cp => req matches Request::CopyFile(f, t) && f@ == text_of(args[0]) && t@ == text_of(
            args[1],
        ),
        Cmd::SizeFile => req matches Request::FileSize(p) && p@ == text_of(args[0]),
        Cmd::Ls => req is ListDir,
        Cmd::Folder => req matches Request::IsFolder(p) && p@ == text_of(args[0]),
        Cmd::SetClipboard => req matches Request::SetClipboard(v) && v@ == text_of(args[0]),
        Cmd::GetClipboard => req is GetClipboard,
        _ => true,
    }
}

/// What a `Done` reply pushes for a command that asks the host.
pub open spec fn done_values(c: Cmd, args: Seq<Val>) -> Seq<Val> {
    match c {
        Cmd::PlayFile | Cmd::Open | Cmd::Cd | Cmd::Mkdir | Cmd::Rm | Cmd::SetClipboard => seq![
            Val::Str(text_of(args[0])),
        ],
        Cmd::Rename => seq![Val::Str(text_of(args[1]))],
        _ => seq![],
    }
}

/// What a `Failed` reply pushes for a command that asks the host.
pub open spec fn failed_values(c: Cmd) -> Seq<Val> {
    match failure_code(c) {
        Some(code) => seq![Val::Error(code)],
        None => seq![],
    }
}

/// What an `Unopened` reply pushes for a command that asks the host (when
/// nothing is given, it counts as `Failed`).
pub open spec fn unopened_values(c: Cmd) -> Seq<Val> {
    if c == Cmd::WriteFile { seq![Val::Error("create-file"@)] } else { seq![] }
}

/// The probe that a `sys-info` option names.
pub open spec fn probe_named(t: Seq<char>) -> Option<Probe> {
    if t == "os-release"@ {
        Some(Probe::OsRelease)
    } else if t == "os-type"@ {
        Some(Probe::OsType)
    } else if t == "cpu-num"@ {
        Some(Probe::CpuNum)
    } else if t == "cpu-speed"@ {
        Some(Probe::CpuSpeed)
    } else if t == "host-name"@ {
        Some(Probe::HostName)
    } else if t == "mem-size"@ {
        Some(Probe::MemSize)
    } else if t == "mem-used"@ {
        Some(Probe::MemUsed)
    } else {
        None
    }
}

/// What a failed probe pushes: an empty text, zero, or an error.
pub open spec fn probe_fallback(p: Probe) -> Val {
    match p {
        Probe::OsRelease | Probe::OsType | Probe::HostName => Val::Str(seq![]),
        Probe::CpuNum | Probe::CpuSpeed => Val::Number(seq!['0']),
        _ => Val::Error("sys-info"@),
    }
}

/// The program that `method` runs: the named property's text, or nothing.
pub open spec fn method_program(props: Seq<(Seq<char>, Val)>, name: Seq<char>) -> Seq<char> {
    match lookup(props, name) {
        Some(v) => text_of(v),
        None => seq![],
    }
}

/// What the commands that are not stack commands do, on the stack `s`, the
/// memory `m` and in `mode`.
pub open spec fn other_effect(
    c: Cmd,
    s: Seq<Val>,
    m: Seq<(Seq<char>, Val)>,
    mode: Mode,
    n0: nat,
    e1: Executor,
    a: Action,
) -> bool {
    let s1 = e1.stack_model();
    let m1 = e1.memory_model();
    &&& e1.frames@.len() == n0 + frames_started(c, s)
    &&& match c {
        Cmd::Add | Cmd::Sub | Cmd::Mul | Cmd::Div | Cmd::Mod | Cmd::Pow => {
            &&& s1 == below(s, 2)
            &&& m1 == m
            &&& answers_plain(e1)
            &&& a matches Action::Ask(Request::Arith(o, x, y)) && o == arith_of(c) && x@
                == number_source(arg_list(s, 2)[0]) && y@ == number_source(arg_list(s, 2)[1])
        },
        Cmd::Less => {
            &&& s1 == below(s, 2)
            &&& m1 == m
            &&& answers_plain(e1)
            &&& a matches Action::Ask(Request::Less(x, y)) && x@ == number_source(arg_list(s, 2)[0])
                && y@ == number_source(arg_list(s, 2)[1])
        },
        Cmd::Round | Cmd::Sin | Cmd::Cos | Cmd::Tan => {
            &&& s1 == below(s, 1)
            &&& m1 == m
            &&& answers_plain(e1)
            &&& a matches Action::Ask(Request::Math(o, x)) && o == math_of(c) && x@ == number_source(
                arg_list(s, 1)[0],
            )
        },
        Cmd::Rand => {
            let l = items_of(arg_list(s, 1)[0]);
            &&& a is Continue
            &&& m1 == m
            &&& l.len() == 0 ==> s1 == below(s, 1).push(Val::List(l))
            &&& l.len() > 0 ==> exists|i: int| 0 <= i < l.len() && s1 == below(s, 1).push(l[i])
        },
        Cmd::Shuffle => {
            let l = items_of(arg_list(s, 1)[0]);
            &&& a is Continue
            &&& m1 == m
            &&& exists|p: Seq<int>|
                #[trigger] is_permutation(p, l.len()) && s1 == below(s, 1).push(
                    Val::List(permuted(l, p)),
                )
        },
        Cmd::Print | Cmd::Println => {
            &&& a is Continue
            &&& s1 == below(s, 1)
            &&& m1 == m
            &&& e1.output@.len() > 0
            &&& e1.output@.last()@ == printed(
                text_of(arg_list(s, 1)[0]),
                mode == Mode::Debug,
                c == Cmd::Println,
            )
        },
        Cmd::Eval => a is Continue && s1 == below(s, 1) && m1 == m && runs_program(
            e1,
            text_of(arg_list(s, 1)[0]),
        ),
        Cmd::If => {
            let args = arg_list(s, 3);
            &&& a is Continue
            &&& s1 == below(s, 3)
            &&& m1 == m
            &&& runs_program(e1, if truth(args[2]) { text_of(args[0]) } else { text_of(args[1]) })
        },
        Cmd::While => {
            let args = arg_list(s, 2);
            &&& a is Continue
            &&& s1 == below(s, 2)
            &&& m1 == m
            &&& runs_program(e1, text_of(args[1]))
            &&& e1.frames@.len() >= 2
            &&& e1.frames@[e1.frames@.len() - 2] matches Frame::Loop { body, cond, testing }
                && body@ == text_of(args[0]) && cond@ == text_of(args[1]) && testing
        },
        Cmd::Var => {
            &&& a is Continue
            &&& s1 == below(s, 2)
            &&& m1 == bind(m, text_of(arg_list(s, 2)[1]), arg_list(s, 2)[0])
        },
        Cmd::Free => a is Continue && s1 == below(s, 1) && m1 == unbind(m, text_of(arg_list(s, 1)[0])),
        Cmd::Mem => a is Continue && s1 == s.push(Val::List(strs(names_of(m)))) && m1 == m,
        Cmd::Reduce => {
            let args = arg_list(s, 5);
            &&& a is Continue
            &&& s1 == below(s, 5)
            &&& m1 == bind(m, text_of(args[1]), args[2])
            &&& e1.frames@.len() > 0
            &&& e1.frames@.last() matches Frame::Fold { items, acc, now, code, next } && models(
                items@,
            ) == items_of(args[0]) && acc@ == text_of(args[1]) && now@ == text_of(args[3]) && code@
                == text_of(args[4]) && next == 0
        },
        Cmd::For | Cmd::MapList | Cmd::Filter => {
            let args = arg_list(s, 3);
            &&& a is Continue
            &&& s1 == below(s, 3)
            &&& m1 == m
            &&& e1.frames@.len() > 0
            &&& e1.frames@.last() matches Frame::Each { kind, items, name, code, next, results }
                && kind == each_kind(c) && models(items@) == items_of(args[0]) && name@ == text_of(
                args[1],
            ) && code@ == text_of(args[2]) && next == 0 && results@.len() == 0
        },
        Cmd::Method => {
            let args = arg_list(s, 2);
            &&& a is Continue
            &&& match args[0] {
                Val::Object(_, props) => {
                    &&& s1 == below(s, 2)
                    &&& m1 == bind(m, "self"@, args[0])
                    &&& runs_program(e1, method_program(props, text_of(args[1])))
                },
                _ => s1 == below(s, 2).push(Val::Error("not-object"@)) && m1 == m,
            }
        },
        Cmd::SysInfo => {
            &&& m1 == m
            &&& match probe_named(text_of(arg_list(s, 1)[0])) {
                Some(p) => {
                    &&& s1 == below(s, 1)
                    &&& a matches Action::Ask(Request::SysInfo(q)) && q == p
                    &&& answers(e1, seq![], seq![probe_fallback(p)], seq![])
                },
                None => a is Continue && s1 == below(s, 1).push(Val::Error("sys-info"@)),
            }
        },
        Cmd::Thread => {
            &&& s1 == below(s, 1)
            &&& m1 == m
            &&& answers_plain(e1)
            &&& a matches Action::Ask(Request::Spawn(child)) && child.stack_model() == below(s, 1)
                && child.memory_model() == m && child.mode == mode && runs_program(
                child,
                text_of(arg_list(s, 1)[0]),
            ) && child.frames@.len() == 1 && child.pending is None
        },
        _ => match host_pops(c) {
            Some(k) => {
                let args = arg_list(s, k);
                &&& s1 == below(s, k)
                &&& m1 == m
                &&& a matches Action::Ask(req) && host_asks(c, args, req)
                &&& answers(e1, done_values(c, args), failed_values(c), unopened_values(c))
            },
            None => true,
        },
    }
}

/// How many frames a command that is not a stack command starts.
pub open spec fn frames_started(c: Cmd, s: Seq<Val>) -> nat {
    match c {
        Cmd::Eval | Cmd::If | Cmd::For | Cmd::MapList | Cmd::Filter | Cmd::Reduce => 1,
        Cmd::While => 2,
        Cmd::Method => if arg_list(s, 2)[0] is Object { 1 } else { 0 },
        _ => 0,
    }
}

/// The iteration that `for`, `map` and `filter` start.
pub open spec fn each_kind(c: Cmd) -> EachKind {
    match c {
        Cmd::For => EachKind::Visit,
        Cmd::MapList => EachKind::Transform,
        _ => EachKind::Select,
    }
}

/// What running the command `c`, named `word`, does on the stack `s`, the
/// memory `m` and in `mode`: a stack command whose counts must first be
/// parsed asks the host for that and waits with the operand's depth.
pub open spec fn run_effect(
    c: Cmd,
    word: Seq<char>,
    s: Seq<Val>,
    m: Seq<(Seq<char>, Val)>,
    mode: Mode,
    n0: nat,
    e1: Executor,
    a: Action,
) -> bool {
    if arity(c) is Some {
        &&& e1.frames@.len() == n0
        &&& match operand_to_parse(c, s) {
            Some(d) => {
                &&& a matches Action::Ask(Request::Parse(t)) && t@ == number_source(s[s.len() - 1 - d])
                &&& e1.stack_model() == s
                &&& e1.memory_model() == m
                &&& e1.pending matches Some(Pending::Operand { depth, command, word: w }) && depth
                    == d && command == c && w@ == word
            },
            None => {
                &&& a is Continue
                &&& e1.stack_model() == stack_after(c, s)
                &&& e1.memory_model() == m
            },
        }
    } else {
        other_effect(c, s, m, mode, n0, e1, a)
    }
}

/// What running the word `t` as a command does on the stack `s`, the memory
/// `m` and in `mode`.
pub open spec fn command_effect(
    t: Seq<char>,
    s: Seq<Val>,
    m: Seq<(Seq<char>, Val)>,
    mode: Mode,
    n0: nat,
    e1: Executor,
    a: Action,
) -> bool {
    match command_named(t) {
        None => a is Continue && e1.stack_model() == s.push(Val::Str(t)) && e1.memory_model() == m
            && e1.frames@.len() == n0,
        Some(c) => run_effect(c, t, s, m, mode, n0, e1, a),
    }
}

/// Whether `f1` keeps the frames of `f0`, perhaps with more above them.
pub open spec fn extends(f0: Seq<Frame>, f1: Seq<Frame>) -> bool {
    f1.len() >= f0.len() && forall|i: int| 0 <= i < f0.len() ==> #[trigger] f1[i] == f0[i]
}

/// What handling the token `t` does: the classification runs in this order.
pub open spec fn token_effect(t: Seq<char>, e0: Executor, e1: Executor, a: Action) -> bool {
    let s = e0.stack_model();
    let s1 = e1.stack_model();
    let n = t.len() as int;
    if is_decimal(t) {
        e1.frames@.len() == e0.frames@.len() && e1.memory == e0.memory && (a matches Action::Ask(Request::Parse(x)) && x@ == t
            && s1 == s && e1.pending == Some(Pending::Answer { done: None, failed: None, unopened: None }))
    } else if t == "true"@ {
        a is Continue && s1 == s.push(Val::Bool(true)) && e1.frames@.len() == e0.frames@.len() && e1.memory == e0.memory
    } else if t == "false"@ {
        a is Continue && s1 == s.push(Val::Bool(false)) && e1.frames@.len() == e0.frames@.len() && e1.memory == e0.memory
    } else if n >= 2 && t[0] == '(' && t[n - 1] == ')' {
        a is Continue && s1 == s.push(Val::Str(unescape(t.subrange(1, n - 1)))) && e1.frames@.len()
            == e0.frames@.len() && e1.memory == e0.memory
    } else if n >= 2 && t[0] == '[' && t[n - 1] == ']' {
        &&& a is Continue
        &&& s1 == s
        &&& e1.frames@.len() == e0.frames@.len() + 2
        &&& e1.memory == e0.memory
        &&& runs_program(e1, t.subrange(1, n - 1))
        &&& e1.frames@[e1.frames@.len() - 2] matches Frame::Collect { base } && base == s.len()
    } else if starts(t, "error:"@) {
        a is Continue && s1 == s.push(Val::Error(t.subrange(6, n))) && e1.frames@.len() == e0.frames@.len() && e1.memory == e0.memory
    } else if lookup(e0.memory_model(), t) is Some {
        a is Continue && s1 == s.push(lookup(e0.memory_model(), t)->0) && e1.frames@.len()
            == e0.frames@.len()
    } else if n >= 1 && t[0] == '#' && t[n - 1] == '#' {
        a is Continue && s1 == s && e1.frames@.len() == e0.frames@.len() && e1.memory == e0.memory
    } else {
        command_effect(t, s, e0.memory_model(), e0.mode, e0.frames@.len(), e1, a)
    }
}

/// The token that the next step handles, if the innermost frame is a
/// program with tokens left.
pub open spec fn next_token(e: Executor) -> Option<Seq<char>> {
    if e.frames@.len() > 0 {
        match e.frames@.last() {
            Frame::Run { tokens, next } => if next < tokens@.len() {
                Some(tokens@[next as int]@)
            } else {
                None
            },
            _ => None,
        }
    } else {
        None
    }
}

/// The stack after a list literal's program: what it left above `base`
/// becomes one list (nothing, if the stack went below `base`).
pub open spec fn collected(s: Seq<Val>, base: nat) -> Seq<Val> {
    if base <= s.len() {
        s.subrange(0, base as int).push(Val::List(s.subrange(base as int, s.len() as int)))
    } else {
        s.push(Val::List(seq![]))
    }
}

/// The program frame moved on by one token.
pub open spec fn advanced(f: Frame) -> Frame {
    match f {
        Frame::Run { tokens, next } => Frame::Run { tokens, next: (next + 1) as usize },
        _ => f,
    }
}

/// Whether the innermost frame is a program with no tokens left.
pub open spec fn program_done(e: Executor) -> bool {
    e.frames@.len() > 0 && match e.frames@.last() {
        Frame::Run { tokens, next } => next >= tokens@.len(),
        _ => false,
    }
}

/// What one step does, from `e0` to `e1`. The frames below the innermost
/// one stay as they were. A program's next token is handled and its frame
/// moves on by one token; a program with no tokens left is dropped; the
/// other frames do their part of a list literal, `while`, `for`, `map`,
/// `filter` or `reduce`.
pub open spec fn step_effect(e0: Executor, e1: Executor, a: Action) -> bool {
    let n = e0.frames@.len();
    &&& a is Finished <==> n == 0
    &&& n == 0 ==> e1.stack == e0.stack && e1.memory == e0.memory && e1.frames@.len() == 0
    &&& n > 0 ==> e1.frames@.len() + 1 >= n && forall|i: int|
        0 <= i < n - 1 ==> #[trigger] e1.frames@[i] == e0.frames@[i]
    &&& next_token(e0) matches Some(t) ==> {
        &&& token_effect(t, e0, e1, a)
        &&& e1.frames@.len() >= n
        &&& e1.frames@[n - 1] == advanced(e0.frames@[n - 1])
    }
    &&& program_done(e0) ==> {
        &&& a is Continue
        &&& e1.stack == e0.stack
        &&& e1.memory == e0.memory
        &&& e1.frames@ == e0.frames@.drop_last()
        &&& e1.pending is None
    }
    &&& n > 0 ==> (e0.frames@.last() matches Frame::Collect { base } ==> a is Continue
        && e1.stack_model() == collected(e0.stack_model(), base as nat))
    &&& n > 0 ==> (e0.frames@.last() matches Frame::Loop { body, cond, testing } ==> loop_effect(
        body@,
        cond@,
        testing,
        e0,
        e1,
        a,
    ))
    &&& n > 0 ==> (e0.frames@.last() matches Frame::Each { kind, items, name, code, next, results }
        ==> each_effect(kind, models(items@), name@, code@, next as nat, e0, e1, a))
    &&& n > 0 ==> (e0.frames@.last() matches Frame::Fold { items, acc, now, code, next }
        ==> fold_effect(models(items@), acc@, now@, code@, next as nat, e0, e1, a))
}

/// The number text a parse reply carries (anything else counts as 0).
pub open spec fn reply_number(reply: Reply) -> Seq<char> {
    match reply {
        Reply::Number(t) => t@,
        _ => seq!['0'],
    }
}

/// The stack with the operand `depth` below the top replaced by the parsed
/// number.
pub open spec fn with_operand(s: Seq<Val>, depth: nat, reply: Reply) -> Seq<Val> {
    if depth < s.len() {
        s.update(s.len() - 1 - depth, Val::Number(reply_number(reply)))
    } else {
        s
    }
}

/// `k` spaces.
pub open spec fn spaces(k: nat) -> Seq<char> {
    Seq::new(k, |i: int| ' ')
}

/// The length of the longest name bound.
pub open spec fn name_width(m: Seq<(Seq<char>, Val)>) -> nat
    decreases m.len(),
{
    if m.len() == 0 {
        0
    } else {
        let w = name_width(m.drop_last());
        if m.last().0.len() > w { m.last().0.len() } else { w }
    }
}

/// One variable as `show_variables` lists it: the name aligned to the
/// right in `width` columns, then its display form.
pub open spec fn variable_line(name: Seq<char>, v: Val, width: nat) -> Seq<char> {
    let pad = if width >= name.len() { (width - name.len()) as nat } else { 0 };
    seq![' '] + spaces(pad) + name + seq![':', ' '] + display(v) + seq!['\n']
}

/// The lines of all variables.
pub open spec fn variable_lines(m: Seq<(Seq<char>, Val)>, width: nat) -> Seq<char>
    decreases m.len(),
{
    if m.len() == 0 {
        seq![]
    } else {
        variable_lines(m.drop_last(), width) + variable_line(m.last().0, m.last().1, width)
    }
}

/// What `show_variables` logs.
pub open spec fn variables_text(m: Seq<(Seq<char>, Val)>) -> Seq<char> {
    "Variables {\n"@ + variable_lines(m, name_width(m)) + seq!['}', '\n']
}

/// The state of an interpreter.
#[derive(Debug)]
pub struct Executor {
    /// The operand stack, top last.
    pub stack: Vec<Type>,
    /// The variables, by name.
    pub memory: Vec<(String, Type)>,
    pub mode: Mode,
    /// Text for the console, in order, not yet taken by the host.
    pub output: Vec<String>,
    /// Work in progress, innermost last.
    pub frames: Vec<Frame>,
    /// How the reply to the request handed out is taken.
    pub pending: Option<Pending>,
}

/// How many values a stack command takes and gives back.
pub fn stack_arity(c: Cmd) -> (r: Option<(usize, usize)>)
    ensures
        r is None <==> arity(c) is None,
        r matches Some((p, q)) ==> arity(c) == Some((p as nat, q as nat)),
{
    match c {
        Cmd::And | Cmd::Or | Cmd::Equal | Cmd::Repeat | Cmd::Concat | Cmd::Split | Cmd::Case
        | Cmd::Join | Cmd::Find | Cmd::Regex | Cmd::GetItem | Cmd::DelItem | Cmd::Append
        | Cmd::Index | Cmd::Cast | Cmd::Instance | Cmd::Property => Some((2, 1)),
        Cmd::Not | Cmd::Decode | Cmd::Encode | Cmd::Sort | Cmd::Reverse | Cmd::Len | Cmd::TypeOf
        | Cmd::All => Some((1, 1)),
        Cmd::Replace | Cmd::SetItem | Cmd::Insert | Cmd::Range | Cmd::Modify => Some((3, 1)),
        Cmd::Pop => Some((1, 0)),
        Cmd::SizeStack | Cmd::GetStack => Some((0, 1)),
        Cmd::CopyTop => Some((1, 2)),
        Cmd::Swap => Some((2, 2)),
        _ => None,
    }
}

/// The characters `cs[from..to]`.
fn part(cs: &[char], from: usize, to: usize) -> (r: Vec<char>)
    requires
        from <= to <= cs@.len(),
    ensures
        r@ == cs@.subrange(from as int, to as int),
{
    let mut r: Vec<char> = Vec::new();
    let mut i = from;
    while i < to
        invariant
            from <= i <= to <= cs@.len(),
            r@ == cs@.subrange(from as int, i as int),
        decreases to - i,
    {
        r.push(cs[i]);
        i += 1;
        assert(r@ =~= cs@.subrange(from as int, i as int));
    }
    r
}

fn ascii_space_here(c: char) -> (r: bool)
    ensures
        r == is_ascii_space(c),
{
    c == ' ' || c == '\t' || c == '\n' || c == '\r' || c == '\x0C'
}

/// `text` without leading and trailing ASCII whitespace.
pub fn trim_ascii(text: &[char]) -> (r: Vec<char>)
    ensures
        trims(text@, r@),
{
    let mut a: usize = 0;
    let mut b: usize = text.len();
    while a < b && ascii_space_here(text[a])
        invariant
            a <= b == text@.len(),
            forall|i: int| 0 <= i < a ==> is_ascii_space(#[trigger] text@[i]),
        decreases b - a,
    {
        a += 1;
    }
    while b > a && ascii_space_here(text[b - 1])
        invariant
            a <= b <= text@.len(),
            a < b ==> !is_ascii_space(text@[a as int]),
            forall|i: int| 0 <= i < a ==> is_ascii_space(#[trigger] text@[i]),
            forall|i: int| b <= i < text@.len() ==> is_ascii_space(#[trigger] text@[i]),
        decreases b,
    {
        b -= 1;
    }
    let r = part(text, a, b);
    assert(trims(text@, r@)) by {
        assert(0 <= a <= b <= text@.len() && r@ == text@.subrange(a as int, b as int));
    }
    r
}

/// The three two-character escapes `\n`, `\t`, `\r` turned into the control
/// characters they name.
pub open spec fn with_controls(t: Seq<char>) -> Seq<char> {
    replace_all(
        replace_all(replace_all(t, seq!['\\', 'n'], seq!['\n']), seq!['\\', 't'], seq!['\t']),
        seq!['\\', 'r'],
        seq!['\r'],
    )
}

/// What `print` (or, with `newline`, `println`) writes for a text.
pub open spec fn printed(t: Seq<char>, debug: bool, newline: bool) -> Seq<char> {
    if debug {
        "[Output]: "@ + with_controls(t) + seq!['\n']
    } else if newline {
        with_controls(t) + seq!['\n']
    } else {
        with_controls(t)
    }
}

/// The three two-character escapes turned into the control characters.
pub fn control_chars(text: &[char]) -> (r: Vec<char>)
    ensures
        r@ == with_controls(text@),
{
    let n = ['\\', 'n'];
    let t = ['\\', 't'];
    let r = ['\\', 'r'];
    let cn = ['\n'];
    let ct = ['\t'];
    let cr = ['\r'];
    assert(n@ =~= seq!['\\', 'n'] && t@ =~= seq!['\\', 't'] && r@ =~= seq!['\\', 'r']);
    assert(cn@ =~= seq!['\n'] && ct@ =~= seq!['\t'] && cr@ =~= seq!['\r']);
    let a = replace(text, &n, &cn);
    let b = replace(a.as_slice(), &t, &ct);
    replace(b.as_slice(), &r, &cr)
}

/// The operand that `c` needs parsed, if any.
fn parse_needed(stack: &Vec<Type>, c: Cmd) -> (r: Option<usize>)
    ensures
        r matches Some(d) ==> operand_to_parse(c, models(stack@)) == Some(d as nat) && d < stack@.len(),
        r is None ==> operand_to_parse(c, models(stack@)) is None,
{
    let ghost s = models(stack@);
    let n = stack.len();
    let mut at: [bool; 3] = [false, false, false];
    let mut d: usize = 0;
    while d < 3
        invariant
            d <= 3,
            n == stack@.len(),
            s == models(stack@),
            forall|k: int| 0 <= k < d ==> at@[k] == needs_at(s, k as nat),
        decreases 3 - d,
    {
        let here = d < n && match &stack[n - 1 - d] {
            Type::String(_) | Type::Error(_) => true,
            _ => false,
        };
        at[d] = here;
        d += 1;
    }
    match c {
        Cmd::Repeat | Cmd::Decode | Cmd::GetItem | Cmd::DelItem => if at[0] { Some(0) } else { None },
        Cmd::SetItem | Cmd::Insert => if at[1] { Some(1) } else { None },
        Cmd::Range => if at[0] {
            Some(0)
        } else if at[1] {
            Some(1)
        } else if at[2] {
            Some(2)
        } else {
            None
        },
        Cmd::Cast => {
            if n > 0 && at[1] {
                let t = text_arg(&stack[n - 1]);
                if is_word(t.as_slice(), "number") {
                    Some(1)
                } else {
                    None
                }
            } else {
                None
            }
        },
        _ => None,
    }
}

impl Executor {
    /// The stack as values.
    pub open spec fn stack_model(&self) -> Seq<Val> {
        models(self.stack@)
    }

    /// The memory as named values.
    pub open spec fn memory_model(&self) -> Seq<(Seq<char>, Val)> {
        bindings_model(self.memory@)
    }

    /// No variable is bound twice.
    pub open spec fn wf(&self) -> bool {
        unique_names(self.memory_model())
    }

    /// An interpreter with nothing to do.
    pub fn new(mode: Mode) -> (r: Executor)
        ensures
            r.wf(),
            r.stack@.len() == 0,
            r.memory@.len() == 0,
            r.frames@.len() == 0,
            r.pending is None,
            r.mode == mode,
    {
        let r = Executor {
            stack: Vec::new(),
            memory: Vec::new(),
            mode,
            output: Vec::new(),
            frames: Vec::new(),
            pending: None,
        };
        assert(r.memory_model() =~= seq![]);
        r
    }

    /// Whether the machine waits for a reply.
    pub fn awaiting(&self) -> (r: bool)
        ensures
            r == self.pending is Some,
    {
        self.pending.is_some()
    }

    /// Whether work is left.
    pub fn busy(&self) -> (r: bool)
        ensures
            r == (self.frames@.len() > 0),
    {
        self.frames.len() > 0
    }

    /// Hands over the console text gathered so far.
    pub fn take_output(&mut self) -> (r: Vec<String>)
        ensures
            r@ == old(self).output@,
            final(self).output@.len() == 0,
            final(self).stack == old(self).stack,
            final(self).memory == old(self).memory,
            final(self).mode == old(self).mode,
            final(self).frames == old(self).frames,
            final(self).pending == old(self).pending,
    {
        let mut r: Vec<String> = Vec::new();
        std::mem::swap(&mut r, &mut self.output);
        r
    }

    /// Adds a diagnostic line to the output in debug mode.
    pub fn log_print(&mut self, msg: String)
        ensures
            final(self).stack == old(self).stack,
            final(self).memory == old(self).memory,
            final(self).mode == old(self).mode,
            final(self).frames == old(self).frames,
            final(self).pending == old(self).pending,
            old(self).mode == Mode::Debug ==> final(self).output@ == old(self).output@.push(msg),
            old(self).mode == Mode::Script ==> final(self).output == old(self).output,
    {
        if self.mode == Mode::Debug {
            self.output.push(msg);
        }
    }

    /// Takes the top value; an empty stack gives an empty string.
    pub fn pop_stack(&mut self) -> (r: Type)
        ensures
            final(self).stack_model() == below(old(self).stack_model(), 1),
            r@ == arg_list(old(self).stack_model(), 1)[0],
            final(self).memory == old(self).memory,
            final(self).mode == old(self).mode,
            final(self).frames == old(self).frames,
            final(self).pending == old(self).pending,
    {
        let ghost s = self.stack_model();
        match self.stack.pop() {
            Some(v) => {
                assert(self.stack_model() =~= below(s, 1));
                assert(arg_list(s, 1) =~= seq![s[s.len() - 1]]);
                v
            },
            None => {
                let msg = to_text(&to_chars("Error! There are not enough values on the stack. returns default value\n"));
                self.log_print(msg);
                let e: [char; 0] = [];
                assert(e@ =~= Seq::<char>::empty());
                assert(arg_list(s, 1) =~= seq![empty_string()]);
                assert(self.stack_model() =~= below(s, 1));
                string_value(&e)
            },
        }
    }

    /// Takes the top `k` values, deepest first.
    fn pop_args(&mut self, k: usize) -> (r: Vec<Type>)
        ensures
            r@.len() == k,
            models(r@) == arg_list(old(self).stack_model(), k as nat),
            forall|i: int| 0 <= i < k ==> model(#[trigger] r@[i]) == arg_list(old(self).stack_model(), k as nat)[i],
            final(self).stack_model() == below(old(self).stack_model(), k as nat),
            final(self).memory == old(self).memory,
            final(self).mode == old(self).mode,
            final(self).frames == old(self).frames,
            final(self).pending == old(self).pending,
    {
        let ghost s = self.stack_model();
        let mut rev: Vec<Type> = Vec::new();
        let mut i: usize = 0;
        while i < k
            invariant
                i <= k,
                rev@.len() == i,
                self.stack_model() == below(s, i as nat),
                forall|j: int| 0 <= j < i ==> model(#[trigger] rev@[j]) == arg_list(s, k as nat)[k - 1 - j],
                self.memory == old(self).memory,
                self.mode == old(self).mode,
                self.frames == old(self).frames,
                self.pending == old(self).pending,
            decreases k - i,
        {
            let ghost before = self.stack_model();
            let v = self.pop_stack();
            proof {
                assert(below(before, 1) =~= below(s, (i + 1) as nat));
                assert(arg_list(before, 1)[0] == arg_list(s, k as nat)[k - 1 - i]);
            }
            rev.push(v);
            i += 1;
        }
        let mut out: Vec<Type> = Vec::new();
        let mut j: usize = 0;
        while j < k
            invariant
                j <= k,
                rev@.len() == k,
                out@.len() == j,
                forall|a: int| 0 <= a < k ==> model(#[trigger] rev@[a]) == arg_list(s, k as nat)[k - 1 - a],
                forall|a: int| 0 <= a < j ==> model(#[trigger] out@[a]) == arg_list(s, k as nat)[a],
            decreases k - j,
        {
            out.push(rev[k - 1 - j].clone());
            j += 1;
        }
        assert(models(out@) =~= arg_list(s, k as nat));
        out
    }

    /// The stack shown for tracing: `Stack〔 a | b 〕`.
    pub fn show_stack(&self) -> (r: String)
        ensures
            r@ == "Stack〔 "@ + join_all(displays(self.stack_model()), " | "@) + " 〕"@,
    {
        let sep = to_chars(" | ");
        let mut body: Vec<char> = Vec::new();
        let ghost d = displays(self.stack_model());
        let mut i: usize = 0;
        while i < self.stack.len()
            invariant
                i <= self.stack@.len(),
                d == displays(self.stack_model()),
                sep@ == " | "@,
                body@ == join_all(d.subrange(0, i as int), " | "@),
            decreases self.stack@.len() - i,
        {
            let ghost before = d.subrange(0, i as int);
            if i > 0 {
                body.extend_from_slice(sep.as_slice());
            }
            let shown = self.stack[i].display_chars();
            body.extend_from_slice(shown.as_slice());
            i += 1;
            proof {
                let now = d.subrange(0, i as int);
                assert(now.drop_last() =~= before);
                assert(now.last() == display(model(self.stack@[i - 1])));
                if i == 1 {
                    assert(body@ =~= now[0]);
                } else {
                    assert(body@ =~= join_all(before, " | "@) + " | "@ + now.last());
                }
            }
        }
        assert(d.subrange(0, i as int) =~= d);
        let mut out: Vec<char> = to_chars("Stack〔 ");
        out.extend_from_slice(body.as_slice());
        let end = to_chars(" 〕");
        out.extend_from_slice(end.as_slice());
        to_text(out.as_slice())
    }

    /// Logs the variables in debug mode, names aligned to the right.
    pub fn show_variables(&mut self)
        ensures
            old(self).mode == Mode::Script ==> final(self).output == old(self).output,
            old(self).mode == Mode::Debug ==> final(self).output@ == old(self).output@.push(
                final(self).output@.last(),
            ) && final(self).output@.last()@ == variables_text(old(self).memory_model()),
            final(self).stack == old(self).stack,
            final(self).memory == old(self).memory,
            final(self).mode == old(self).mode,
            final(self).frames == old(self).frames,
            final(self).pending == old(self).pending,
    {
        if self.mode != Mode::Debug {
            return;
        }
        let ghost m = self.memory_model();
        let mut width: usize = 0;
        let mut i: usize = 0;
        while i < self.memory.len()
            invariant
                i <= self.memory@.len(),
                m == self.memory_model(),
                width as nat == name_width(m.subrange(0, i as int)),
            decreases self.memory@.len() - i,
        {
            let n = to_chars(self.memory[i].0.as_str());
            assert(m.subrange(0, i + 1).drop_last() =~= m.subrange(0, i as int));
            if n.len() > width {
                width = n.len();
            }
            i += 1;
        }
        assert(m.subrange(0, i as int) =~= m);
        let mut out: Vec<char> = to_chars("Variables {\n");
        let mut i: usize = 0;
        while i < self.memory.len()
            invariant
                i <= self.memory@.len(),
                m == self.memory_model(),
                width as nat == name_width(m),
                out@ == "Variables {\n"@ + variable_lines(m.subrange(0, i as int), width as nat),
            decreases self.memory@.len() - i,
        {
            let ghost before = out@;
            let n = to_chars(self.memory[i].0.as_str());
            out.push(' ');
            let mut pad = n.len();
            while pad < width
                invariant
                    n@.len() <= pad,
                    pad <= width || pad == n@.len(),
                    out@ == before + seq![' '] + spaces((pad - n@.len()) as nat),
                decreases width - pad,
            {
                out.push(' ');
                pad += 1;
                assert(spaces((pad - n@.len()) as nat) =~= spaces((pad - 1 - n@.len()) as nat).push(' '));
            }
            out.extend_from_slice(n.as_slice());
            out.push(':');
            out.push(' ');
            let d = self.memory[i].1.display_chars();
            out.extend_from_slice(d.as_slice());
            out.push('\n');
            proof {
                assert(m.subrange(0, i + 1).drop_last() =~= m.subrange(0, i as int));
                assert(m.subrange(0, i + 1).last() == m[i as int]);
                let w = if width >= n@.len() { (width - n@.len()) as nat } else { 0 };
                assert(spaces((pad - n@.len()) as nat) == spaces(w));
                assert(out@ =~= "Variables {\n"@ + variable_lines(m.subrange(0, i as int), width as nat)
                    + variable_line(m[i as int].0, m[i as int].1, width as nat));
            }
            i += 1;
        }
        assert(m.subrange(0, i as int) =~= m);
        out.push('}');
        out.push('\n');
        assert(out@ =~= variables_text(m));
        let text = to_text(out.as_slice());
        self.log_print(text);
    }

    /// The tokens of a program.
    pub fn analyze_syntax(&self, code: String) -> (r: Vec<String>)
        ensures
            r@.map_values(|t: String| t@) == crate::lexer::tokens_of(code@),
    {
        let cs = to_chars(code.as_str());
        let tokens = tokenize(cs.as_slice());
        let mut out: Vec<String> = Vec::new();
        let mut i: usize = 0;
        while i < tokens.len()
            invariant
                i <= tokens@.len(),
                out@.len() == i,
                forall|k: int| 0 <= k < i ==> (#[trigger] out@[k])@ == tokens@[k]@,
            decreases tokens@.len() - i,
        {
            out.push(to_text(tokens[i].as_slice()));
            i += 1;
        }
        assert(out@.map_values(|t: String| t@) =~= views(tokens@));
        out
    }

    /// Schedules a program: the next steps run its tokens, before any work
    /// that was already scheduled.
    pub fn evaluate_program(&mut self, code: String)
        ensures
            final(self).stack == old(self).stack,
            final(self).memory == old(self).memory,
            final(self).mode == old(self).mode,
            final(self).pending == old(self).pending,
            final(self).frames@.len() == old(self).frames@.len() + 1,
            extends(old(self).frames@, final(self).frames@),
            final(self).output == old(self).output,
            runs_program(*final(self), code@),
    {
        let cs = to_chars(code.as_str());
        let tokens = tokenize(cs.as_slice());
        self.frames.push(Frame::Run { tokens, next: 0 });
    }

    fn answer(&mut self, req: Request, done: Option<Type>, failed: Option<Type>, unopened: Option<Type>) -> (a: Action)
        ensures
            a == Action::Ask(req),
            final(self).pending == Some(Pending::Answer { done, failed, unopened }),
            final(self).stack == old(self).stack,
            final(self).output == old(self).output,
            final(self).memory == old(self).memory,
            final(self).frames == old(self).frames,
    {
        self.pending = Some(Pending::Answer { done, failed, unopened });
        Action::Ask(req)
    }

    /// In debug mode, an error value comes with a diagnostic line.
    fn report_error(&mut self, v: &Type)
        ensures
            final(self).stack == old(self).stack,
            final(self).memory == old(self).memory,
            final(self).mode == old(self).mode,
            final(self).frames == old(self).frames,
            final(self).pending == old(self).pending,
    {
        if let Type::Error(code) = v {
            let mut line = to_chars("Error! ");
            let cs = to_chars(code.as_str());
            line.extend_from_slice(cs.as_slice());
            line.push('\n');
            self.log_print(to_text(line.as_slice()));
        }
    }

    fn push_value(&mut self, v: Type)
        ensures
            final(self).stack_model() == old(self).stack_model().push(v@),
            final(self).memory == old(self).memory,
            final(self).frames == old(self).frames,
            final(self).pending == old(self).pending,
            final(self).mode == old(self).mode,
    {
        let ghost s = self.stack_model();
        self.stack.push(v);
        assert(self.stack_model() =~= s.push(v@));
    }

    /// Runs a command, or hands out what it needs from the host.
    pub fn run_command(&mut self, c: Cmd, word: Vec<char>) -> (a: Action)
        requires
            old(self).wf(),
            old(self).pending is None,
        ensures
            final(self).wf(),
            a is Ask <==> final(self).pending is Some,
            !(a is Finished),
            run_effect(
                c,
                word@,
                old(self).stack_model(),
                old(self).memory_model(),
                old(self).mode,
                old(self).frames@.len(),
                *final(self),
                a,
            ),
            extends(old(self).frames@, final(self).frames@),
    {
        match stack_arity(c) {
            Some((k, _)) => {
                match parse_needed(&self.stack, c) {
                    Some(d) => {
                        let n = self.stack.len();
                        let t = number_text(&self.stack[n - 1 - d]);
                        self.pending = Some(Pending::Operand { depth: d, command: c, word });
                        return Action::Ask(Request::Parse(t));
                    },
                    None => {},
                }
                let ghost s = self.stack_model();
                let args = self.pop_args(k);
                assert(models(args@).len() == args@.len());
                let results = stack_command(c, &args, &self.stack);
                let ghost base = self.stack_model();
                let mut i: usize = 0;
                while i < results.len()
                    invariant
                        i <= results@.len(),
                        self.stack_model() == base + models(results@).subrange(0, i as int),
                        self.memory == old(self).memory,
                        self.frames == old(self).frames,
                        self.pending == old(self).pending,
                        self.mode == old(self).mode,
                    decreases results@.len() - i,
                {
                    let v = results[i].clone();
                    self.push_value(v);
                    i += 1;
                    assert(base + models(results@).subrange(0, i as int) =~= base + models(
                        results@,
                    ).subrange(0, i - 1).push(model(results@[i - 1])));
                }
                assert(models(results@).subrange(0, i as int) =~= models(results@));
                if results.len() > 0 {
                    self.report_error(&results[results.len() - 1]);
                }
                Action::Continue
            },
            None => self.other_command(c, word),
        }
    }

    fn other_command(&mut self, c: Cmd, word: Vec<char>) -> (a: Action)
        requires
            old(self).wf(),
            old(self).pending is None,
            arity(c) is None,
        ensures
            final(self).wf(),
            a is Ask <==> final(self).pending is Some,
            !(a is Finished),
            other_effect(
                c,
                old(self).stack_model(),
                old(self).memory_model(),
                old(self).mode,
                old(self).frames@.len(),
                *final(self),
                a,
            ),
            extends(old(self).frames@, final(self).frames@),
    {
        let ghost s = self.stack_model();
        let ghost m = self.memory_model();
        match c {
            Cmd::Add | Cmd::Sub | Cmd::Mul | Cmd::Div | Cmd::Mod | Cmd::Pow | Cmd::Less => {
                let args = self.pop_args(2);
                let x = number_text(&args[0]);
                let y = number_text(&args[1]);
                let req = match c {
                    Cmd::Add => Request::Arith(Arith::Add, x, y),
                    Cmd::Sub => Request::Arith(Arith::Sub, x, y),
                    Cmd::Mul => Request::Arith(Arith::Mul, x, y),
                    Cmd::Div => Request::Arith(Arith::Div, x, y),
                    Cmd::Mod => Request::Arith(Arith::Rem, x, y),
                    Cmd::Pow => Request::Arith(Arith::Pow, x, y),
                    _ => Request::Less(x, y),
                };
                self.answer(req, None, None, None)
            },
            Cmd::Round | Cmd::Sin | Cmd::Cos | Cmd::Tan => {
                let args = self.pop_args(1);
                let x = number_text(&args[0]);
                let op = match c {
                    Cmd::Round => Math::Round,
                    Cmd::Sin => Math::Sin,
                    Cmd::Cos => Math::Cos,
                    _ => Math::Tan,
                };
                self.answer(Request::Math(op, x), None, None, None)
            },
            Cmd::Rand => {
                let args = self.pop_args(1);
                let items = args[0].get_list();
                if items.len() == 0 {
                    let l = Type::List(items);
                    assert(model(l)->List_0 =~= models(items@));
                    self.push_value(l);
                } else {
                    let i = random_below(items.len());
                    self.push_value(items[i].clone());
                    assert(models(items@)[i as int] == model(items@[i as int]));
                    assert(self.stack_model() == below(s, 1).push(models(items@)[i as int]));
                }
                Action::Continue
            },
            Cmd::Shuffle => {
                let args = self.pop_args(1);
                let mut items = args[0].get_list();
                let ghost before = items@;
                shuffle_values(&mut items);
                let ghost after = items@;
                let l = Type::List(items);
                assert(model(l)->List_0 =~= models(after));
                self.push_value(l);
                proof {
                    let p = choose|p: Seq<int>|
                        is_permutation(p, before.len()) && forall|i: int|
                            0 <= i < before.len() ==> #[trigger] after[i] == before[p[i]];
                    let lm = models(before);
                    assert(models(after) =~= Seq::new(lm.len(), |i: int| lm[p[i]]));
                    assert(self.stack_model() == below(s, 1).push(
                        Val::List(Seq::new(lm.len(), |i: int| lm[p[i]])),
                    ));
                    let l = items_of(arg_list(s, 1)[0]);
                    assert(l == lm);
                    assert(is_permutation(p, l.len()));
                    assert(permuted(l, p) =~= Seq::new(lm.len(), |i: int| lm[p[i]]));
                }
                Action::Continue
            },
            Cmd::Print | Cmd::Println => {
                let args = self.pop_args(1);
                let cs = text_arg(&args[0]);
                let mut text = control_chars(cs.as_slice());
                let ghost u = text@;
                if self.mode == Mode::Debug {
                    let mut line = to_chars("[Output]: ");
                    line.extend_from_slice(text.as_slice());
                    line.push('\n');
                    assert(line@ =~= "[Output]: "@ + u + seq!['\n']);
                    text = line;
                } else if c == Cmd::Println {
                    text.push('\n');
                    assert(text@ =~= u + seq!['\n']);
                }
                assert(text@ == printed(cs@, self.mode == Mode::Debug, c == Cmd::Println));
                self.output.push(to_text(text.as_slice()));
                Action::Continue
            },
            Cmd::Eval => {
                let args = self.pop_args(1);
                self.evaluate_program(args[0].get_string());
                Action::Continue
            },
            Cmd::If => {
                let args = self.pop_args(3);
                if args[2].get_bool() {
                    self.evaluate_program(args[0].get_string());
                } else {
                    self.evaluate_program(args[1].get_string());
                }
                Action::Continue
            },
            Cmd::While => {
                let args = self.pop_args(2);
                let body = args[0].get_string();
                let cond = args[1].get_string();
                self.frames.push(Frame::Loop { body, cond: cond.clone(), testing: true });
                self.evaluate_program(cond);
                Action::Continue
            },
            Cmd::For | Cmd::MapList | Cmd::Filter => {
                let args = self.pop_args(3);
                let items = args[0].get_list();
                let name = args[1].get_string();
                let code = args[2].get_string();
                let kind = match c {
                    Cmd::For => EachKind::Visit,
                    Cmd::MapList => EachKind::Transform,
                    _ => EachKind::Select,
                };
                self.frames.push(Frame::Each { kind, items, name, code, next: 0, results: Vec::new() });
                Action::Continue
            },
            Cmd::Reduce => {
                let args = self.pop_args(5);
                let items = args[0].get_list();
                let acc = args[1].get_string();
                let init = args[2].clone();
                let now = args[3].get_string();
                let code = args[4].get_string();
                set_bound(&mut self.memory, acc.clone(), init);
                self.frames.push(Frame::Fold { items, acc, now, code, next: 0 });
                Action::Continue
            },
            Cmd::Var => {
                let args = self.pop_args(2);
                let name = args[1].get_string();
                set_bound(&mut self.memory, name, args[0].clone());
                self.show_variables();
                Action::Continue
            },
            Cmd::Mem => {
                let mut names: Vec<Type> = Vec::new();
                let mut i: usize = 0;
                while i < self.memory.len()
                    invariant
                        i <= self.memory@.len(),
                        m == self.memory_model(),
                        names@.len() == i,
                        forall|k: int| 0 <= k < i ==> model(#[trigger] names@[k]) == Val::Str(m[k].0),
                    decreases self.memory@.len() - i,
                {
                    names.push(Type::String(self.memory[i].0.clone()));
                    i += 1;
                }
                let l = Type::List(names);
                assert(model(l)->List_0 =~= strs(names_of(m)));
                self.push_value(l);
                Action::Continue
            },
            Cmd::Free => {
                let args = self.pop_args(1);
                let cs = text_arg(&args[0]);
                remove_bound(&mut self.memory, cs.as_slice());
                self.show_variables();
                Action::Continue
            },
            Cmd::Method => {
                let args = self.pop_args(2);
                let method = text_arg(&args[1]);
                match &args[0] {
                    Type::Object(n, props) => {
                        proof {
                            crate::builtins::lemma_object_model(*n, *props);
                        }
                        let program = match get_bound(props, method.as_slice()) {
                            Some(p) => p.get_string(),
                            None => String::new(),
                        };
                        assert(program@ == method_program(bindings_model(props@), method@));
                        let me = to_chars("self");
                        set_bound(&mut self.memory, to_text(me.as_slice()), args[0].clone());
                        self.evaluate_program(program);
                    },
                    _ => {
                        self.push_value(error_value("not-object"));
                    },
                }
                Action::Continue
            },
            Cmd::SysInfo => {
                let args = self.pop_args(1);
                let o = text_arg(&args[0]);
                let os = o.as_slice();
                let blank = String::new();
                let digit = ['0'];
                assert(digit@ =~= seq!['0']);
                let zero = to_text(&digit);
                if is_word(os, "os-release") {
                    self.answer(Request::SysInfo(Probe::OsRelease), None, Some(Type::String(blank)), None)
                } else if is_word(os, "os-type") {
                    self.answer(Request::SysInfo(Probe::OsType), None, Some(Type::String(blank)), None)
                } else if is_word(os, "cpu-num") {
                    self.answer(Request::SysInfo(Probe::CpuNum), None, Some(Type::Number(zero)), None)
                } else if is_word(os, "cpu-speed") {
                    self.answer(Request::SysInfo(Probe::CpuSpeed), None, Some(Type::Number(zero)), None)
                } else if is_word(os, "host-name") {
                    self.answer(Request::SysInfo(Probe::HostName), None, Some(Type::String(blank)), None)
                } else if is_word(os, "mem-size") {
                    self.answer(Request::SysInfo(Probe::MemSize), None, Some(error_value("sys-info")), None)
                } else if is_word(os, "mem-used") {
                    self.answer(Request::SysInfo(Probe::MemUsed), None, Some(error_value("sys-info")), None)
                } else {
                    self.push_value(error_value("sys-info"));
                    Action::Continue
                }
            },
            _ => self.host_command(c, word),
        }
    }

    fn host_command(&mut self, c: Cmd, word: Vec<char>) -> (a: Action)
        requires
            old(self).wf(),
            old(self).pending is None,
        ensures
            final(self).wf(),
            a is Ask <==> final(self).pending is Some,
            !(a is Finished),
            host_pops(c) is Some ==> other_effect(
                c,
                old(self).stack_model(),
                old(self).memory_model(),
                old(self).mode,
                old(self).frames@.len(),
                *final(self),
                a,
            ),
            extends(old(self).frames@, final(self).frames@),
    {
        proof {
            assert(below(old(self).stack_model(), 0) =~= old(self).stack_model());
        }
        match c {
            Cmd::WriteFile => {
                let args = self.pop_args(2);
                let path = args[1].get_string();
                let content = args[0].get_string();
                self.answer(
                    Request::WriteFile(path, content),
                    None,
                    Some(error_value("write-file")),
                    Some(error_value("create-file")),
                )
            },
            Cmd::ReadFile => {
                let args = self.pop_args(1);
                let cs = text_arg(&args[0]);
                let trimmed = trim_ascii(cs.as_slice());
                self.answer(Request::ReadFile(to_text(trimmed.as_slice())), None, Some(error_value("read-file")), None)
            },
            Cmd::Input => {
                let args = self.pop_args(1);
                self.answer(Request::Input(args[0].get_string()), None, None, None)
            },
            Cmd::ArgsCmd => self.answer(Request::Arguments, None, None, None),
            Cmd::PlaySound => {
                let args = self.pop_args(2);
                let frequency = number_text(&args[0]);
                let duration = number_text(&args[1]);
                self.answer(Request::PlaySound(frequency, duration), None, None, None)
            },
            Cmd::PlayFile => {
                let args = self.pop_args(1);
                let path = args[0].get_string();
                let shown = Type::String(path.clone());
                self.answer(Request::PlayFile(path), Some(shown), Some(error_value("play-file")), None)
            },
            Cmd::Clear => self.answer(Request::ClearScreen, None, Some(error_value("failed-to-clear-screen")), None),
            Cmd::Thread => {
                let args = self.pop_args(1);
                let child = self.fork(args[0].get_string());
                self.answer(Request::Spawn(child), None, None, None)
            },
            Cmd::Exit => {
                let args = self.pop_args(1);
                self.answer(Request::Exit(number_text(&args[0])), None, None, None)
            },
            Cmd::NowTime => self.answer(Request::Now, None, None, None),
            Cmd::Sleep => {
                let args = self.pop_args(1);
                self.answer(Request::Sleep(number_text(&args[0])), None, None, None)
            },
            Cmd::Request => {
                let args = self.pop_args(1);
                self.answer(Request::Fetch(args[0].get_string()), None, Some(error_value("request")), None)
            },
            Cmd::Open | Cmd::Cd | Cmd::Mkdir | Cmd::Rm => {
                let args = self.pop_args(1);
                let name = args[0].get_string();
                let shown = Type::String(name.clone());
                match c {
                    Cmd::Open => self.answer(Request::Open(name), Some(shown), Some(error_value("open")), None),
                    Cmd::Cd => self.answer(Request::ChangeDir(name), Some(shown), Some(error_value("cd")), None),
                    Cmd::Mkdir => self.answer(Request::MakeDir(name), Some(shown), Some(error_value("mkdir")), None),
                    _ => self.answer(Request::Remove(name), Some(shown), Some(error_value("rm")), None),
                }
            },
            Cmd::Pwd => self.answer(Request::CurrentDir, None, None, None),
            Cmd::Rename => {
                let args = self.pop_args(2);
                let from = args[0].get_string();
                let to = args[1].get_string();
                let shown = Type::String(to.clone());
                self.answer(Request::Rename(from, to), Some(shown), Some(error_value("rename")), None)
            },
            Cmd::Cp => {
                let args = self.pop_args(2);
                let from = args[0].get_string();
                let to = args[1].get_string();
                self.answer(Request::CopyFile(from, to), None, Some(error_value("cp")), None)
            },
            Cmd::SizeFile => {
                let args = self.pop_args(1);
                self.answer(Request::FileSize(args[0].get_string()), None, Some(error_value("size-file")), None)
            },
            Cmd::Ls => self.answer(Request::ListDir, None, Some(error_value("ls")), None),
            Cmd::Folder => {
                let args = self.pop_args(1);
                self.answer(Request::IsFolder(args[0].get_string()), None, None, None)
            },
            Cmd::SetClipboard => {
                let args = self.pop_args(1);
                let value = args[0].get_string();
                let shown = Type::String(value.clone());
                self.answer(Request::SetClipboard(value), Some(shown), Some(error_value("set-clipboard")), None)
            },
            Cmd::GetClipboard => self.answer(Request::GetClipboard, None, Some(error_value("get-clipboard")), None),
            _ => {
                self.push_value(string_value(word.as_slice()));
                Action::Continue
            },
        }
    }

    /// Handles one token: a literal is pushed, a variable's value is copied
    /// onto the stack, a comment is traced, anything else runs as a command
    /// (an unknown word is pushed as a string).
    fn process_token(&mut self, token: Vec<char>) -> (a: Action)
        requires
            old(self).wf(),
            old(self).pending is None,
        ensures
            final(self).wf(),
            a is Ask <==> final(self).pending is Some,
            !(a is Finished),
            token_effect(token@, *old(self), *final(self), a),
            extends(old(self).frames@, final(self).frames@),
    {
        let n = token.len();
        if decimal_literal(token.as_slice()) {
            return self.answer(Request::Parse(to_text(token.as_slice())), None, None, None);
        }
        if is_word(token.as_slice(), "true") {
            self.push_value(Type::Bool(true));
            return Action::Continue;
        }
        if is_word(token.as_slice(), "false") {
            self.push_value(Type::Bool(false));
            return Action::Continue;
        }
        if n >= 2 && token[0] == '(' && token[n - 1] == ')' {
            let inner = part(token.as_slice(), 1, n - 1);
            let text = unescape_text(inner.as_slice());
            self.push_value(string_value(text.as_slice()));
            return Action::Continue;
        }
        if n >= 2 && token[0] == '[' && token[n - 1] == ']' {
            let inner = part(token.as_slice(), 1, n - 1);
            let tokens = tokenize(inner.as_slice());
            self.frames.push(Frame::Collect { base: self.stack.len() });
            self.frames.push(Frame::Run { tokens, next: 0 });
            return Action::Continue;
        }
        let prefix = to_chars("error:");
        proof {
            reveal_strlit("error:");
        }
        assert(prefix@.len() == 6);
        if n >= prefix.len() && same(part(token.as_slice(), 0, prefix.len()).as_slice(), prefix.as_slice()) {
            let code = part(token.as_slice(), prefix.len(), n);
            self.push_value(Type::Error(to_text(code.as_slice())));
            return Action::Continue;
        }
        match get_bound(&self.memory, token.as_slice()) {
            Some(v) => {
                self.push_value(v);
                return Action::Continue;
            },
            None => {},
        }
        if n >= 1 && token[0] == '#' && token[n - 1] == '#' {
            let bare = replace(token.as_slice(), &['#'], &[]);
            let mut line = to_chars("* Comment \"");
            line.extend_from_slice(bare.as_slice());
            line.push('"');
            line.push('\n');
            self.log_print(to_text(line.as_slice()));
            return Action::Continue;
        }
        match command_of(token.as_slice()) {
            Some(c) => self.run_command(c, token),
            None => {
                self.push_value(string_value(token.as_slice()));
                Action::Continue
            },
        }
    }

    /// Does one piece of the scheduled work.
    pub fn step(&mut self) -> (a: Action)
        requires
            old(self).wf(),
            old(self).pending is None,
        ensures
            final(self).wf(),
            a is Ask <==> final(self).pending is Some,
            step_effect(*old(self), *final(self), a),
    {
        let frame = match self.frames.pop() {
            Some(f) => f,
            None => {
                return Action::Finished;
            },
        };
        match frame {
            Frame::Run { tokens, next } => {
                if next < tokens.len() {
                    let token = tokens[next].clone();
                    if self.mode == Mode::Debug {
                        let mut line = to_chars(self.show_stack().as_str());
                        let arrow = to_chars(" ←  ");
                        line.extend_from_slice(arrow.as_slice());
                        line.extend_from_slice(token.as_slice());
                        line.push('\n');
                        self.log_print(to_text(line.as_slice()));
                    }
                    self.frames.push(Frame::Run { tokens, next: next + 1 });
                    let ghost mid = *self;
                    let a = self.process_token(token);
                    assert(mid.stack_model() == old(self).stack_model());
                    assert(mid.memory_model() == old(self).memory_model());
                    assert(token_effect(token@, *old(self), *self, a));
                    a
                } else {
                    if self.mode == Mode::Debug {
                        let mut line = to_chars(self.show_stack().as_str());
                        line.push('\n');
                        self.log_print(to_text(line.as_slice()));
                    }
                    Action::Continue
                }
            },
            Frame::Collect { base } => {
                let ghost s = self.stack_model();
                let ghost whole = self.stack@;
                let items = if base <= self.stack.len() {
                    let items = self.stack.split_off(base);
                    assert(models(self.stack@) =~= s.subrange(0, base as int));
                    assert(models(items@) =~= s.subrange(base as int, whole.len() as int));
                    items
                } else {
                    let items: Vec<Type> = Vec::new();
                    assert(models(items@) =~= seq![]);
                    items
                };
                let l = Type::List(items);
                assert(model(l)->List_0 =~= models(items@));
                self.push_value(l);
                assert(self.stack_model() =~= collected(s, base as nat));
                Action::Continue
            },
            Frame::Loop { body, cond, testing } => {
                if testing {
                    let v = self.pop_stack();
                    assert(arg_list(old(self).stack_model(), 1)[0] == v@);
                    if v.get_bool() {
                        self.frames.push(Frame::Loop { body: body.clone(), cond, testing: false });
                        self.evaluate_program(body);
                    }
                } else {
                    self.frames.push(Frame::Loop { body, cond: cond.clone(), testing: true });
                    self.evaluate_program(cond);
                }
                Action::Continue
            },
            Frame::Each { kind, items, name, code, next, results } => {
                let mut results = results;
                let ghost s = self.stack_model();
                if next > 0 {
                    match kind {
                        EachKind::Visit => {},
                        EachKind::Transform => {
                            let v = self.pop_stack();
                            results.push(v);
                        },
                        EachKind::Select => {
                            let v = self.pop_stack();
                            if v.get_bool() && next - 1 < items.len() {
                                results.push(items[next - 1].clone());
                            }
                        },
                    }
                }
                if next < items.len() {
                    let item = items[next].clone();
                    assert(item@ == models(items@)[next as int]);
                    set_bound(&mut self.memory, name.clone(), item);
                    let run = code.clone();
                    self.frames.push(Frame::Each { kind, items, name, code, next: next + 1, results });
                    self.evaluate_program(run);
                } else if kind != EachKind::Visit {
                    self.push_value(Type::List(results));
                }
                Action::Continue
            },
            Frame::Fold { items, acc, now, code, next } => {
                let ghost s = self.stack_model();
                if next > 0 {
                    let v = self.pop_stack();
                    set_bound(&mut self.memory, acc.clone(), v);
                }
                if next < items.len() {
                    let item = items[next].clone();
                    assert(item@ == models(items@)[next as int]);
                    set_bound(&mut self.memory, now.clone(), item);
                    let run = code.clone();
                    self.frames.push(Frame::Fold { items, acc, now, code, next: next + 1 });
                    self.evaluate_program(run);
                } else {
                    let cs = to_chars(acc.as_str());
                    let e: [char; 0] = [];
                    assert(e@ =~= Seq::<char>::empty());
                    let v = match get_bound(&self.memory, cs.as_slice()) {
                        Some(v) => v,
                        None => string_value(&e),
                    };
                    self.push_value(v);
                    set_bound(&mut self.memory, acc, string_value(&e));
                }
                Action::Continue
            },
        }
    }

    /// Takes the host's reply to the request handed out.
    pub fn resume(&mut self, reply: Reply) -> (a: Action)
        requires
            old(self).wf(),
            old(self).pending is Some,
        ensures
            final(self).wf(),
            a is Ask <==> final(self).pending is Some,
            !(a is Finished),
            old(self).pending matches Some(Pending::Answer { done, failed, unopened }) ==> {
                &&& a is Continue
                &&& final(self).stack_model() == old(self).stack_model() + reply_values(
                    done,
                    failed,
                    unopened,
                    reply,
                )
                &&& final(self).memory == old(self).memory
                &&& final(self).frames == old(self).frames
            },
            old(self).pending matches Some(Pending::Operand { depth, command, word }) ==> run_effect(
                command,
                word@,
                with_operand(old(self).stack_model(), depth as nat, reply),
                old(self).memory_model(),
                old(self).mode,
                old(self).frames@.len(),
                *final(self),
                a,
            ),
            extends(old(self).frames@, final(self).frames@),
    {
        let p = match self.pending.take() {
            Some(p) => p,
            None => {
                return Action::Continue;
            },
        };
        match p {
            Pending::Answer { done, failed, unopened } => {
                let ghost s = self.stack_model();
                let ghost vals = reply_values(done, failed, unopened, reply);
                let value = match reply {
                    Reply::Done => done,
                    Reply::Failed => failed,
                    Reply::Unopened => if unopened.is_some() { unopened } else { failed },
                    Reply::Number(t) => Some(Type::Number(t)),
                    Reply::Flag(b) => Some(Type::Bool(b)),
                    Reply::Text(t) => Some(Type::String(t)),
                    Reply::Texts(v) => {
                        let mut items: Vec<Type> = Vec::new();
                        let mut i: usize = 0;
                        while i < v.len()
                            invariant
                                i <= v@.len(),
                                items@.len() == i,
                                forall|k: int| 0 <= k < i ==> model(#[trigger] items@[k]) == Val::Str(v@[k]@),
                            decreases v@.len() - i,
                        {
                            items.push(Type::String(v[i].clone()));
                            i += 1;
                        }
                        let l = Type::List(items);
                        assert(model(l)->List_0 =~= v@.map_values(|s: String| Val::Str(s@)));
                        Some(l)
                    },
                };
                assert(vals == opt_vals(value));
                match value {
                    Some(v) => {
                        self.report_error(&v);
                        self.push_value(v);
                        assert(self.stack_model() =~= s + vals);
                    },
                    None => {
                        assert(self.stack_model() =~= s + vals);
                    },
                }
                Action::Continue
            },
            Pending::Operand { depth, command, word } => {
                let ghost s = self.stack_model();
                let ghost target = with_operand(s, depth as nat, reply);
                let n = self.stack.len();
                if depth < n {
                    let zero = ['0'];
                    assert(zero@ =~= seq!['0']);
                    let t = match reply {
                        Reply::Number(t) => t,
                        _ => to_text(&zero),
                    };
                    assert(t@ == reply_number(reply));
                    self.stack.set(n - 1 - depth, Type::Number(t));
                    assert(self.stack_model() =~= target);
                } else {
                    assert(self.stack_model() =~= target);
                }
                self.run_command(command, word)
            },
        }
    }

    /// Steps until the host is needed, the work is done, or `fuel` steps
    /// have been taken.
    pub fn run(&mut self, fuel: usize) -> (a: Action)
        requires
            old(self).wf(),
            old(self).pending is None,
        ensures
            final(self).wf(),
            a is Ask <==> final(self).pending is Some,
            fuel == 0 ==> a is Continue && *final(self) == *old(self),
            fuel > 0 && old(self).frames@.len() == 0 ==> a is Finished && final(self).stack
                == old(self).stack && final(self).memory == old(self).memory,
            fuel == 1 ==> step_effect(*old(self), *final(self), a),
            fuel >= 1 ==> exists|mid: Executor| #[trigger] step_effect(mid, *final(self), a),
    {
        let mut i: usize = 0;
        while i < fuel
            invariant
                i <= fuel,
                self.wf(),
                self.pending is None,
                i == 0 ==> *self == *old(self),
                old(self).frames@.len() == 0 ==> i == 0,
                i == 1 ==> step_effect(*old(self), *self, Action::Continue),
                i >= 1 ==> exists|mid: Executor| #[trigger] step_effect(mid, *self, Action::Continue),
            decreases fuel - i,
        {
            let ghost pre = *self;
            let a = self.step();
            assert(step_effect(pre, *self, a));
            match a {
                Action::Continue => {},
                other => {
                    return other;
                },
            }
            i += 1;
        }
        Action::Continue
    }

    /// A new interpreter for a thread: a copy of the stack, the memory and
    /// the mode, with `code` to run.
    pub fn fork(&self, code: String) -> (r: Executor)
        ensures
            r.stack_model() == self.stack_model(),
            r.memory_model() == self.memory_model(),
            r.mode == self.mode,
            r.frames@.len() == 1,
            runs_program(r, code@),
            r.pending is None,
            r.wf() <== self.wf(),
    {
        let stack = copy_values(&self.stack);
        let mut memory: Vec<(String, Type)> = Vec::new();
        let mut i: usize = 0;
        while i < self.memory.len()
            invariant
                i <= self.memory@.len(),
                memory@.len() == i,
                forall|k: int|
                    0 <= k < i ==> (#[trigger] memory@[k]).0@ == self.memory@[k].0@ && model(
                        memory@[k].1,
                    ) == model(self.memory@[k].1),
            decreases self.memory@.len() - i,
        {
            memory.push((self.memory[i].0.clone(), self.memory[i].1.clone()));
            i += 1;
        }
        let mut r = Executor {
            stack,
            memory,
            mode: self.mode,
            output: Vec::new(),
            frames: Vec::new(),
            pending: None,
        };
        assert(r.memory_model() =~= self.memory_model());
        r.evaluate_program(code);
        r
    }
}


/// Runs the command that `command` names; an unknown word is pushed as a
/// string.
pub fn execute_command(executor: &mut Executor, command: String) -> (a: Action)
    requires
        old(executor).wf(),
        old(executor).pending is None,
    ensures
        final(executor).wf(),
        a is Ask <==> final(executor).pending is Some,
        command_effect(
            command@,
            old(executor).stack_model(),
            old(executor).memory_model(),
            old(executor).mode,
            old(executor).frames@.len(),
            *final(executor),
            a,
        ),
        extends(old(executor).frames@, final(executor).frames@),
{
    let word = to_chars(command.as_str());
    match command_of(word.as_slice()) {
        Some(c) => executor.run_command(c, word),
        None => {
            executor.push_value(Type::String(command));
            Action::Continue
        },
    }
}

} // verus!
