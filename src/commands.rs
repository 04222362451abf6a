//! The built-in commands: their names, and what the commands that only
//! work on the stack compute.
use vstd::prelude::*;

use crate::text::is_word;

verus! {

/// A built-in command.
#[derive(PartialEq, Eq, Structural, Clone, Copy, Debug)]
pub enum Cmd {
    Add,
    Sub,
    Mul,
    Div,
    Mod,
    Pow,
    Round,
    Sin,
    Cos,
    Tan,
    And,
    Or,
    Not,
    Equal,
    Less,
    Rand,
    Shuffle,
    Repeat,
    Decode,
    Encode,
    Concat,
    Replace,
    Split,
    Case,
    Join,
    Find,
    Regex,
    WriteFile,
    ReadFile,
    Input,
    Print,
    Println,
    ArgsCmd,
    PlaySound,
    PlayFile,
    Clear,
    Eval,
    If,
    While,
    Thread,
    Exit,
    GetItem,
    SetItem,
    DelItem,
    Append,
    Insert,
    Index,
    Sort,
    Reverse,
    For,
    Range,
    Len,
    MapList,
    Filter,
    Reduce,
    Pop,
    SizeStack,
    GetStack,
    Var,
    TypeOf,
    Cast,
    Mem,
    Free,
    CopyTop,
    Swap,
    NowTime,
    Sleep,
    Instance,
    Property,
    Method,
    Modify,
    All,
    Request,
    Open,
    Cd,
    Pwd,
    Mkdir,
    Rm,
    Rename,
    Cp,
    SizeFile,
    Ls,
    Folder,
    SysInfo,
    SetClipboard,
    GetClipboard,
}

/// The command a word names, if any.
pub open spec fn command_named(name: Seq<char>) -> Option<Cmd> {
    if name == "add"@ {
        Some(Cmd::Add)
    } else if name == "sub"@ {
        Some(Cmd::Sub)
    } else if name == "mul"@ {
        Some(Cmd::Mul)
    } else if name == "div"@ {
        Some(Cmd::Div)
    } else if name == "mod"@ {
        Some(Cmd::Mod)
    } else if name == "pow"@ {
        Some(Cmd::Pow)
    } else if name == "round"@ {
        Some(Cmd::Round)
    } else if name == "sin"@ {
        Some(Cmd::Sin)
    } else if name == "cos"@ {
        Some(Cmd::Cos)
    } else if name == "tan"@ {
        Some(Cmd::Tan)
    } else if name == "and"@ {
        Some(Cmd::And)
    } else if name == "or"@ {
        Some(Cmd::Or)
    } else if name == "not"@ {
        Some(Cmd::Not)
    } else if name == "equal"@ {
        Some(Cmd::Equal)
    } else if name == "less"@ {
        Some(Cmd::Less)
    } else if name == "rand"@ {
        Some(Cmd::Rand)
    } else if name == "shuffle"@ {
        Some(Cmd::Shuffle)
    } else if name == "repeat"@ {
        Some(Cmd::Repeat)
    } else if name == "decode"@ {
        Some(Cmd::Decode)
    } else if name == "encode"@ {
        Some(Cmd::Encode)
    } else if name == "concat"@ {
        Some(Cmd::Concat)
    } else if name == "replace"@ {
        Some(Cmd::Replace)
    } else if name == "split"@ {
        Some(Cmd::Split)
    } else if name == "case"@ {
        Some(Cmd::Case)
    } else if name == "join"@ {
        Some(Cmd::Join)
    } else if name == "find"@ {
        Some(Cmd::Find)
    } else if name == "regex"@ {
        Some(Cmd::Regex)
    } else if name == "write-file"@ {
        Some(Cmd::WriteFile)
    } else if name == "read-file"@ {
        Some(Cmd::ReadFile)
    } else if name == "input"@ {
        Some(Cmd::Input)
    } else if name == "print"@ {
        Some(Cmd::Print)
    } else if name == "println"@ {
        Some(Cmd::Println)
    } else if name == "args-cmd"@ {
        Some(Cmd::ArgsCmd)
    } else if name == "play-sound"@ {
        Some(Cmd::PlaySound)
    } else if name == "play-file"@ {
        Some(Cmd::PlayFile)
    } else if name == "cls"@ {
        Some(Cmd::Clear)
    } else if name == "clear"@ {
        Some(Cmd::Clear)
    } else if name == "eval"@ {
        Some(Cmd::Eval)
    } else if name == "if"@ {
        Some(Cmd::If)
    } else if name == "while"@ {
        Some(Cmd::While)
    } else if name == "thread"@ {
        Some(Cmd::Thread)
    } else if name == "exit"@ {
        Some(Cmd::Exit)
    } else if name == "get"@ {
        Some(Cmd::GetItem)
    } else if name == "set"@ {
        Some(Cmd::SetItem)
    } else if name == "del"@ {
        Some(Cmd::DelItem)
    } else if name == "append"@ {
        Some(Cmd::Append)
    } else if name == "insert"@ {
        Some(Cmd::Insert)
    } else if name == "index"@ {
        Some(Cmd::Index)
    } else if name == "sort"@ {
        Some(Cmd::Sort)
    } else if name == "reverse"@ {
        Some(Cmd::Reverse)
    } else if name == "for"@ {
        Some(Cmd::For)
    } else if name == "range"@ {
        Some(Cmd::Range)
    } else if name == "len"@ {
        Some(Cmd::Len)
    } else if name == "map"@ {
        Some(Cmd::MapList)
    } else if name == "filter"@ {
        Some(Cmd::Filter)
    } else if name == "reduce"@ {
        Some(Cmd::Reduce)
    } else if name == "pop"@ {
        Some(Cmd::Pop)
    } else if name == "size-stack"@ {
        Some(Cmd::SizeStack)
    } else if name == "get-stack"@ {
        Some(Cmd::GetStack)
    } else if name == "var"@ {
        Some(Cmd::Var)
    } else if name == "type"@ {
        Some(Cmd::TypeOf)
    } else if name == "cast"@ {
        Some(Cmd::Cast)
    } else if name == "mem"@ {
        Some(Cmd::Mem)
    } else if name == "free"@ {
        Some(Cmd::Free)
    } else if name == "copy"@ {
        Some(Cmd::CopyTop)
    } else if name == "swap"@ {
        Some(Cmd::Swap)
    } else if name == "now-time"@ {
        Some(Cmd::NowTime)
    } else if name == "sleep"@ {
        Some(Cmd::Sleep)
    } else if name == "instance"@ {
        Some(Cmd::Instance)
    } else if name == "property"@ {
        Some(Cmd::Property)
    } else if name == "method"@ {
        Some(Cmd::Method)
    } else if name == "modify"@ {
        Some(Cmd::Modify)
    } else if name == "all"@ {
        Some(Cmd::All)
    } else if name == "request"@ {
        Some(Cmd::Request)
    } else if name == "open"@ {
        Some(Cmd::Open)
    } else if name == "cd"@ {
        Some(Cmd::Cd)
    } else if name == "pwd"@ {
        Some(Cmd::Pwd)
    } else if name == "mkdir"@ {
        Some(Cmd::Mkdir)
    } else if name == "rm"@ {
        Some(Cmd::Rm)
    } else if name == "rename"@ {
        Some(Cmd::Rename)
    } else if name == "cp"@ {
        Some(Cmd::Cp)
    } else if name == "size-file"@ {
        Some(Cmd::SizeFile)
    } else if name == "ls"@ {
        Some(Cmd::Ls)
    } else if name == "folder"@ {
        Some(Cmd::Folder)
    } else if name == "sys-info"@ {
        Some(Cmd::SysInfo)
    } else if name == "set-clipboard"@ {
        Some(Cmd::SetClipboard)
    } else if name == "get-clipboard"@ {
        Some(Cmd::GetClipboard)
    } else {
        None
    }
}

/// The command a word names, if any.
pub fn command_of(name: &[char]) -> (r: Option<Cmd>)
    ensures
        r == command_named(name@),
{
    if is_word(name, "add") {
        Some(Cmd::Add)
    } else if is_word(name, "sub") {
        Some(Cmd::Sub)
    } else if is_word(name, "mul") {
        Some(Cmd::Mul)
    } else if is_word(name, "div") {
        Some(Cmd::Div)
    } else if is_word(name, "mod") {
        Some(Cmd::Mod)
    } else if is_word(name, "pow") {
        Some(Cmd::Pow)
    } else if is_word(name, "round") {
        Some(Cmd::Round)
    } else if is_word(name, "sin") {
        Some(Cmd::Sin)
    } else if is_word(name, "cos") {
        Some(Cmd::Cos)
    } else if is_word(name, "tan") {
        Some(Cmd::Tan)
    } else if is_word(name, "and") {
        Some(Cmd::And)
    } else if is_word(name, "or") {
        Some(Cmd::Or)
    } else if is_word(name, "not") {
        Some(Cmd::Not)
    } else if is_word(name, "equal") {
        Some(Cmd::Equal)
    } else if is_word(name, "less") {
        Some(Cmd::Less)
    } else if is_word(name, "rand") {
        Some(Cmd::Rand)
    } else if is_word(name, "shuffle") {
        Some(Cmd::Shuffle)
    } else if is_word(name, "repeat") {
        Some(Cmd::Repeat)
    } else if is_word(name, "decode") {
        Some(Cmd::Decode)
    } else if is_word(name, "encode") {
        Some(Cmd::Encode)
    } else if is_word(name, "concat") {
        Some(Cmd::Concat)
    } else if is_word(name, "replace") {
        Some(Cmd::Replace)
    } else if is_word(name, "split") {
        Some(Cmd::Split)
    } else if is_word(name, "case") {
        Some(Cmd::Case)
    } else if is_word(name, "join") {
        Some(Cmd::Join)
    } else if is_word(name, "find") {
        Some(Cmd::Find)
    } else if is_word(name, "regex") {
        Some(Cmd::Regex)
    } else if is_word(name, "write-file") {
        Some(Cmd::WriteFile)
    } else if is_word(name, "read-file") {
        Some(Cmd::ReadFile)
    } else if is_word(name, "input") {
        Some(Cmd::Input)
    } else if is_word(name, "print") {
        Some(Cmd::Print)
    } else if is_word(name, "println") {
        Some(Cmd::Println)
    } else if is_word(name, "args-cmd") {
        Some(Cmd::ArgsCmd)
    } else if is_word(name, "play-sound") {
        Some(Cmd::PlaySound)
    } else if is_word(name, "play-file") {
        Some(Cmd::PlayFile)
    } else if is_word(name, "cls") {
        Some(Cmd::Clear)
    } else if is_word(name, "clear") {
        Some(Cmd::Clear)
    } else if is_word(name, "eval") {
        Some(Cmd::Eval)
    } else if is_word(name, "if") {
        Some(Cmd::If)
    } else if is_word(name, "while") {
        Some(Cmd::While)
    } else if is_word(name, "thread") {
        Some(Cmd::Thread)
    } else if is_word(name, "exit") {
        Some(Cmd::Exit)
    } else if is_word(name, "get") {
        Some(Cmd::GetItem)
    } else if is_word(name, "set") {
        Some(Cmd::SetItem)
    } else if is_word(name, "del") {
        Some(Cmd::DelItem)
    } else if is_word(name, "append") {
        Some(Cmd::Append)
    } else if is_word(name, "insert") {
        Some(Cmd::Insert)
    } else if is_word(name, "index") {
        Some(Cmd::Index)
    } else if is_word(name, "sort") {
        Some(Cmd::Sort)
    } else if is_word(name, "reverse") {
        Some(Cmd::Reverse)
    } else if is_word(name, "for") {
        Some(Cmd::For)
    } else if is_word(name, "range") {
        Some(Cmd::Range)
    } else if is_word(name, "len") {
        Some(Cmd::Len)
    } else if is_word(name, "map") {
        Some(Cmd::MapList)
    } else if is_word(name, "filter") {
        Some(Cmd::Filter)
    } else if is_word(name, "reduce") {
        Some(Cmd::Reduce)
    } else if is_word(name, "pop") {
        Some(Cmd::Pop)
    } else if is_word(name, "size-stack") {
        Some(Cmd::SizeStack)
    } else if is_word(name, "get-stack") {
        Some(Cmd::GetStack)
    } else if is_word(name, "var") {
        Some(Cmd::Var)
    } else if is_word(name, "type") {
        Some(Cmd::TypeOf)
    } else if is_word(name, "cast") {
        Some(Cmd::Cast)
    } else if is_word(name, "mem") {
        Some(Cmd::Mem)
    } else if is_word(name, "free") {
        Some(Cmd::Free)
    } else if is_word(name, "copy") {
        Some(Cmd::CopyTop)
    } else if is_word(name, "swap") {
        Some(Cmd::Swap)
    } else if is_word(name, "now-time") {
        Some(Cmd::NowTime)
    } else if is_word(name, "sleep") {
        Some(Cmd::Sleep)
    } else if is_word(name, "instance") {
        Some(Cmd::Instance)
    } else if is_word(name, "property") {
        Some(Cmd::Property)
    } else if is_word(name, "method") {
        Some(Cmd::Method)
    } else if is_word(name, "modify") {
        Some(Cmd::Modify)
    } else if is_word(name, "all") {
        Some(Cmd::All)
    } else if is_word(name, "request") {
        Some(Cmd::Request)
    } else if is_word(name, "open") {
        Some(Cmd::Open)
    } else if is_word(name, "cd") {
        Some(Cmd::Cd)
    } else if is_word(name, "pwd") {
        Some(Cmd::Pwd)
    } else if is_word(name, "mkdir") {
        Some(Cmd::Mkdir)
    } else if is_word(name, "rm") {
        Some(Cmd::Rm)
    } else if is_word(name, "rename") {
        Some(Cmd::Rename)
    } else if is_word(name, "cp") {
        Some(Cmd::Cp)
    } else if is_word(name, "size-file") {
        Some(Cmd::SizeFile)
    } else if is_word(name, "ls") {
        Some(Cmd::Ls)
    } else if is_word(name, "folder") {
        Some(Cmd::Folder)
    } else if is_word(name, "sys-info") {
        Some(Cmd::SysInfo)
    } else if is_word(name, "set-clipboard") {
        Some(Cmd::SetClipboard)
    } else if is_word(name, "get-clipboard") {
        Some(Cmd::GetClipboard)
    } else {
        None
    }
}

} // verus!
