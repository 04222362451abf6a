//! What the commands that only work on the stack compute from their
//! arguments.
use vstd::prelude::*;

use crate::bindings::{bind, bindings_model, find_name, lookup, set_bound};
use crate::commands::Cmd;
use crate::number::{count_from, count_of};
use crate::outside::{
    char_from_code, char_with_code, is_scalar, lower_of, lowercase, regex_compiles, regex_found, regex_matches,
    string_views, upper_of, uppercase,
};
use crate::text::{
    decimal, find, is_word, join, join_all, occurs, repeat, repeat_text, replace, replace_all,
    same, sort, sort_texts, split, split_all, to_chars, to_text, views,
};
use crate::value::{
    copy_values, count_value, items_of, known_number, model, models, string_value, text_of, truth,
    Type, Val,
};

verus! {

/// How many values a stack command takes and how many it gives back.
pub open spec fn arity(c: Cmd) -> Option<(nat, nat)> {
    match c {
        Cmd::And | Cmd::Or | Cmd::Equal | Cmd::Repeat | Cmd::Concat | Cmd::Split | Cmd::Case
        | Cmd::Join | Cmd::Find | Cmd::Regex | Cmd::GetItem | Cmd::DelItem | Cmd::Append
        | Cmd::Index | Cmd::Cast | Cmd::Instance | Cmd::Property => Some((2, 1)),
        Cmd::Not | Cmd::Decode | Cmd::Encode | Cmd::Sort | Cmd::Reverse | Cmd::Len | Cmd::TypeOf
        | Cmd::All => Some((1, 1)),
        Cmd::Replace | Cmd::SetItem | Cmd::Insert | Cmd::Range | Cmd::Modify => Some((3, 1)),
        Cmd::Pop => Some((1, 0)),
        Cmd::SizeStack | Cmd::GetStack => Some((0, 1)),
        Cmd::CopyTop => Some((1, 2)),
        Cmd::Swap => Some((2, 2)),
        _ => None,
    }
}

/// The text `s` as a string value.
pub open spec fn strs(s: Seq<Seq<char>>) -> Seq<Val> {
    s.map_values(|t: Seq<char>| Val::Str(t))
}

/// The values as texts.
pub open spec fn texts(s: Seq<Val>) -> Seq<Seq<char>> {
    s.map_values(|v: Val| text_of(v))
}

/// The count that a value stands for where a command wants an index or a
/// length (strings and errors are parsed by the host before such a command
/// runs; here they count as 0).
pub open spec fn count_val(v: Val) -> nat {
    match v {
        Val::Number(t) => count_of(t),
        Val::Bool(b) => if b { 1 } else { 0 },
        Val::List(l) => if l.len() > usize::MAX { usize::MAX as nat } else { l.len() },
        Val::Object(_, p) => if p.len() > usize::MAX { usize::MAX as nat } else { p.len() },
        _ => 0,
    }
}

pub open spec fn error_val(code: &str) -> Val {
    Val::Error(code@)
}

/// `decode`: the character with the given code, as a string.
pub open spec fn decode_val(n: nat) -> Val {
    let code: u32 = if n > u32::MAX { u32::MAX } else { n as u32 };
    if is_scalar(code) {
        Val::Str(seq![char_with_code(code)])
    } else {
        error_val("number-decoding")
    }
}

/// `encode`: the code of the first character.
pub open spec fn encode_val(t: Seq<char>) -> Val {
    if t.len() > 0 {
        Val::Number(decimal((t[0] as u32) as nat))
    } else {
        error_val("string-encoding")
    }
}

/// `case`: lower or upper case, or the text as it is for another mode.
pub open spec fn case_of(t: Seq<char>, mode: Seq<char>) -> Seq<char> {
    if mode == "lower"@ {
        lower_of(t)
    } else if mode == "upper"@ {
        upper_of(t)
    } else {
        t
    }
}

/// `regex`: the matches of a pattern, or an error if it does not compile.
pub open spec fn regex_val(t: Seq<char>, pattern: Seq<char>) -> Val {
    if regex_compiles(pattern) {
        Val::List(strs(regex_found(pattern, t)))
    } else {
        error_val("regex")
    }
}

/// Whether a value is a number below zero (`-0` is not).
pub open spec fn is_negative(v: Val) -> bool {
    match v {
        Val::Number(t) => t.len() > 0 && t[0] == '-' && t != seq!['-', '0'],
        _ => false,
    }
}

/// Whether the value `i` is a position in a list of `n` items.
pub open spec fn in_range(i: Val, n: nat) -> bool {
    !is_negative(i) && count_val(i) < n
}

/// `get`: the item at a position, or an error when the index is below zero
/// or not below the length.
pub open spec fn get_val(l: Seq<Val>, i: Val) -> Val {
    if in_range(i, l.len()) { l[count_val(i) as int] } else { error_val("index-out-range") }
}

/// `set`: the list with the item at a position replaced.
pub open spec fn set_val(l: Seq<Val>, i: Val, v: Val) -> Val {
    if in_range(i, l.len()) {
        Val::List(l.update(count_val(i) as int, v))
    } else {
        error_val("index-out-range")
    }
}

/// `del`: the list without the item at a position.
pub open spec fn del_val(l: Seq<Val>, i: Val) -> Val {
    if in_range(i, l.len()) { Val::List(l.remove(count_val(i) as int)) } else { error_val("index-out-range") }
}

/// `insert`: the value put at a position (the length included); below zero
/// or past the end is out of range.
pub open spec fn insert_val(l: Seq<Val>, i: Val, v: Val) -> Val {
    if in_range(i, l.len() + 1) {
        Val::List(l.insert(count_val(i) as int, v))
    } else {
        error_val("index-out-range")
    }
}

/// Whether `i` is the first position whose item reads as `t`.
pub open spec fn first_with_text(l: Seq<Val>, t: Seq<char>, i: int) -> bool {
    0 <= i < l.len() && text_of(l[i]) == t && forall|k: int| 0 <= k < i ==> text_of(#[trigger] l[k]) != t
}

/// `index`: the first position whose item reads as the target.
pub open spec fn index_val(l: Seq<Val>, t: Seq<char>) -> Val {
    if exists|i: int| first_with_text(l, t, i) {
        Val::Number(decimal((choose|i: int| first_with_text(l, t, i)) as nat))
    } else {
        error_val("item-not-found")
    }
}

/// The values in reverse order.
pub open spec fn reversed(l: Seq<Val>) -> Seq<Val> {
    Seq::new(l.len(), |i: int| l[l.len() - 1 - i])
}

/// How many values `range` makes.
pub open spec fn range_len(lo: nat, hi: nat, step: nat) -> nat {
    if step == 0 || lo >= hi { 0 } else { ((hi - lo + step - 1) / step as int) as nat }
}

/// `range`: from `lo` up to but not including `hi`, by `step`; nothing for a
/// zero step.
pub open spec fn range_values(lo: nat, hi: nat, step: nat) -> Seq<Val> {
    Seq::new(range_len(lo, hi, step), |i: int| Val::Number(decimal((lo + i * step) as nat)))
}

/// `type`: the kind of a value; an object gives its type name.
pub open spec fn kind_name(v: Val) -> Seq<char> {
    match v {
        Val::Number(_) => "number"@,
        Val::Str(_) => "string"@,
        Val::Bool(_) => "bool"@,
        Val::List(_) => "list"@,
        Val::Error(_) => "error"@,
        Val::Object(name, _) => name,
    }
}

/// `cast`: the value converted to the named kind, or as it is.
pub open spec fn cast_val(v: Val, kind: Seq<char>) -> Val {
    if kind == "number"@ {
        Val::Number(
            match known_number(v) {
                Some(t) => t,
                None => seq!['0'],
            },
        )
    } else if kind == "string"@ {
        Val::Str(text_of(v))
    } else if kind == "bool"@ {
        Val::Bool(truth(v))
    } else if kind == "list"@ {
        Val::List(items_of(v))
    } else if kind == "error"@ {
        Val::Error(text_of(v))
    } else {
        v
    }
}

/// The properties that a class gives, reading its entries from `k` on, with
/// `used` data values taken and `props` filled so far.
pub open spec fn class_props(
    entries: Seq<Val>,
    data: Seq<Val>,
    k: nat,
    used: nat,
    props: Seq<(Seq<char>, Val)>,
) -> Result<Seq<(Seq<char>, Val)>, Val>
    decreases entries.len() - k,
{
    if k >= entries.len() {
        Ok(props)
    } else {
        let e = items_of(entries[k as int]);
        if e.len() == 1 {
            if used < data.len() {
                class_props(entries, data, k + 1, used + 1, bind(props, text_of(e[0]), data[used as int]))
            } else {
                Err(error_val("instance-shortage"))
            }
        } else if e.len() >= 2 {
            class_props(entries, data, k + 1, used, bind(props, text_of(e[0]), e[1]))
        } else {
            Err(error_val("instance-default"))
        }
    }
}

/// `instance`: an object made from a class list (its type name, then one
/// entry per property) and the data list that fills the entries without a
/// default, in order.
pub open spec fn instance_val(class: Seq<Val>, data: Seq<Val>) -> Val {
    if class.len() == 0 {
        error_val("instance-name")
    } else {
        match class_props(class, data, 1, 0, seq![]) {
            Ok(props) => Val::Object(text_of(class[0]), props),
            Err(e) => e,
        }
    }
}

/// `property`: the value of a property of an object.
pub open spec fn property_val(o: Val, name: Seq<char>) -> Val {
    match o {
        Val::Object(_, props) => match lookup(props, name) {
            Some(v) => v,
            None => error_val("property"),
        },
        _ => error_val("not-object"),
    }
}

/// `modify`: the object with a property set.
pub open spec fn modify_val(o: Val, name: Seq<char>, v: Val) -> Val {
    match o {
        Val::Object(t, props) => Val::Object(t, bind(props, name, v)),
        _ => error_val("not-object"),
    }
}

/// `all`: the names of an object's properties.
pub open spec fn all_val(o: Val) -> Val {
    match o {
        Val::Object(_, props) => Val::List(
            strs(props.map_values(|p: (Seq<char>, Val)| p.0)),
        ),
        _ => error_val("not-object"),
    }
}

/// What a stack command gives back, from its arguments (deepest first) and
/// the stack below them.
pub open spec fn outputs(c: Cmd, a: Seq<Val>, rest: Seq<Val>) -> Seq<Val> {
    match c {
        Cmd::And => seq![Val::Bool(truth(a[0]) && truth(a[1]))],
        Cmd::Or => seq![Val::Bool(truth(a[0]) || truth(a[1]))],
        Cmd::Not => seq![Val::Bool(!truth(a[0]))],
        Cmd::Equal => seq![Val::Bool(text_of(a[0]) == text_of(a[1]))],
        Cmd::Repeat => seq![Val::Str(repeat(text_of(a[0]), count_val(a[1])))],
        Cmd::Decode => seq![decode_val(count_val(a[0]))],
        Cmd::Encode => seq![encode_val(text_of(a[0]))],
        Cmd::Concat => seq![Val::Str(text_of(a[0]) + text_of(a[1]))],
        Cmd::Replace => seq![Val::Str(replace_all(text_of(a[0]), text_of(a[1]), text_of(a[2])))],
        Cmd::Split => seq![Val::List(strs(split_all(text_of(a[0]), text_of(a[1]))))],
        Cmd::Case => seq![Val::Str(case_of(text_of(a[0]), text_of(a[1])))],
        Cmd::Join => seq![Val::Str(join_all(texts(items_of(a[0])), text_of(a[1])))],
        Cmd::Find => seq![Val::Bool(occurs(text_of(a[0]), text_of(a[1])))],
        Cmd::Regex => seq![regex_val(text_of(a[0]), text_of(a[1]))],
        Cmd::GetItem => seq![get_val(items_of(a[0]), a[1])],
        Cmd::SetItem => seq![set_val(items_of(a[0]), a[1], a[2])],
        Cmd::DelItem => seq![del_val(items_of(a[0]), a[1])],
        Cmd::Append => seq![Val::List(items_of(a[0]).push(a[1]))],
        Cmd::Insert => seq![insert_val(items_of(a[0]), a[1], a[2])],
        Cmd::Index => seq![index_val(items_of(a[0]), text_of(a[1]))],
        Cmd::Sort => seq![Val::List(strs(sort_texts(texts(items_of(a[0])))))],
        Cmd::Reverse => seq![Val::List(reversed(items_of(a[0])))],
        Cmd::Range => seq![Val::List(range_values(count_val(a[0]), count_val(a[1]), count_val(a[2])))],
        Cmd::Len => seq![Val::Number(decimal(items_of(a[0]).len()))],
        Cmd::SizeStack => seq![Val::Number(decimal(rest.len()))],
        Cmd::GetStack => seq![Val::List(rest)],
        Cmd::TypeOf => seq![Val::Str(kind_name(a[0]))],
        Cmd::Cast => seq![cast_val(a[0], text_of(a[1]))],
        Cmd::CopyTop => seq![a[0], a[0]],
        Cmd::Swap => seq![a[1], a[0]],
        Cmd::Instance => seq![instance_val(items_of(a[0]), items_of(a[1]))],
        Cmd::Property => seq![property_val(a[0], text_of(a[1]))],
        Cmd::Modify => seq![modify_val(a[0], text_of(a[1]), a[2])],
        Cmd::All => seq![all_val(a[0])],
        _ => seq![],
    }
}

/// The default value that popping an empty stack gives.
pub open spec fn empty_string() -> Val {
    Val::Str(seq![])
}

/// The top `k` values of a stack, deepest first; where the stack is too
/// short, empty strings stand for the missing ones.
pub open spec fn arg_list(s: Seq<Val>, k: nat) -> Seq<Val> {
    if s.len() >= k {
        s.subrange(s.len() - k, s.len() as int)
    } else {
        Seq::new((k - s.len()) as nat, |i: int| empty_string()) + s
    }
}

/// The stack below the top `k` values.
pub open spec fn below(s: Seq<Val>, k: nat) -> Seq<Val> {
    if s.len() >= k {
        s.subrange(0, s.len() - k)
    } else {
        seq![]
    }
}

/// How many values a stack command takes.
pub open spec fn pops(c: Cmd) -> nat {
    match arity(c) {
        Some((k, _)) => k,
        None => 0,
    }
}

/// How many values a stack command gives back.
pub open spec fn pushes(c: Cmd) -> nat {
    match arity(c) {
        Some((_, k)) => k,
        None => 0,
    }
}

/// The stack after a stack command.
pub open spec fn stack_after(c: Cmd, s: Seq<Val>) -> Seq<Val> {
    below(s, pops(c)) + outputs(c, arg_list(s, pops(c)), below(s, pops(c)))
}

/// A stack command takes its arguments and gives back its results: the
/// stack's height afterwards is its height less the values taken (never below
/// zero: an empty stack gives empty strings) plus the values given back.
pub proof fn lemma_stack_height(c: Cmd, s: Seq<Val>)
    requires
        arity(c) is Some,
    ensures
        stack_after(c, s).len() == (if s.len() >= pops(c) {
            s.len() - pops(c)
        } else {
            0
        }) + pushes(c),
{
}


/// The mathematical form of an object.
pub proof fn lemma_object_model(name: String, props: Vec<(String, Type)>)
    ensures
        model(Type::Object(name, props)) == Val::Object(name@, bindings_model(props@)),
{
    assert(model(Type::Object(name, props))->Object_1 =~= bindings_model(props@));
}

/// An error value with the given code.
pub fn error_value(code: &str) -> (r: Type)
    ensures
        r@ == error_val(code),
{
    let cs = to_chars(code);
    Type::Error(to_text(cs.as_slice()))
}

/// A string value holding a literal.
fn word_value(w: &str) -> (r: Type)
    ensures
        r@ == Val::Str(w@),
{
    let cs = to_chars(w);
    string_value(cs.as_slice())
}

/// A sequence of one value.
fn one(v: Type) -> (r: Vec<Type>)
    ensures
        models(r@) == seq![v@],
{
    let r = vec![v];
    assert(models(r@) =~= seq![v@]);
    r
}

/// The value as text, as characters.
pub fn text_arg(v: &Type) -> (r: Vec<char>)
    ensures
        r@ == text_of(v@),
{
    let s = v.get_string();
    to_chars(s.as_str())
}

/// The count that a value stands for.
pub fn count_arg(v: &Type) -> (r: usize)
    ensures
        r as nat == count_val(v@),
{
    match v {
        Type::Number(t) => {
            let cs = to_chars(t.as_str());
            count_from(cs.as_slice())
        },
        Type::Bool(b) => if *b { 1 } else { 0 },
        Type::List(l) => l.len(),
        Type::Object(_, p) => p.len(),
        _ => 0,
    }
}

/// Whether a value is a number below zero.
pub fn negative_arg(v: &Type) -> (r: bool)
    ensures
        r == is_negative(v@),
{
    match v {
        Type::Number(t) => {
            let cs = to_chars(t.as_str());
            let r = cs.len() > 0 && cs[0] == '-' && !(cs.len() == 2 && cs[1] == '0');
            assert(cs@.len() == 2 && cs@[0] == '-' && cs@[1] == '0' ==> cs@ =~= seq!['-', '0']);
            r
        },
        _ => false,
    }
}

/// Each text as a string value.
pub fn strs_value(pieces: &Vec<Vec<char>>) -> (r: Vec<Type>)
    ensures
        models(r@) == strs(views(pieces@)),
{
    let mut out: Vec<Type> = Vec::new();
    let mut i: usize = 0;
    while i < pieces.len()
        invariant
            i <= pieces@.len(),
            out@.len() == i,
            forall|k: int| 0 <= k < i ==> model(#[trigger] out@[k]) == Val::Str(pieces@[k]@),
        decreases pieces@.len() - i,
    {
        out.push(string_value(pieces[i].as_slice()));
        i += 1;
    }
    assert(models(out@) =~= strs(views(pieces@)));
    out
}

/// Each value as text.
pub fn texts_value(items: &Vec<Type>) -> (r: Vec<Vec<char>>)
    ensures
        views(r@) == texts(models(items@)),
{
    let mut out: Vec<Vec<char>> = Vec::new();
    let mut i: usize = 0;
    while i < items.len()
        invariant
            i <= items@.len(),
            out@.len() == i,
            forall|k: int| 0 <= k < i ==> (#[trigger] out@[k])@ == text_of(model(items@[k])),
        decreases items@.len() - i,
    {
        out.push(text_arg(&items[i]));
        i += 1;
    }
    assert(views(out@) =~= texts(models(items@)));
    out
}

fn decode_value(n: usize) -> (r: Type)
    ensures
        r@ == decode_val(n as nat),
{
    let code: u32 = if n > u32::MAX as usize { u32::MAX } else { n as u32 };
    match char_from_code(code) {
        Some(c) => {
            let one = [c];
            assert(one@ =~= seq![char_with_code(code)]);
            string_value(&one)
        },
        None => error_value("number-decoding"),
    }
}

fn encode_value(t: &[char]) -> (r: Type)
    ensures
        r@ == encode_val(t@),
{
    if t.len() > 0 {
        count_value(t[0] as u32 as usize)
    } else {
        error_value("string-encoding")
    }
}

fn case_value(t: &[char], mode: &[char]) -> (r: Type)
    ensures
        r@ == Val::Str(case_of(t@, mode@)),
{
    let s = to_text(t);
    if is_word(mode, "lower") {
        Type::String(lowercase(s.as_str()))
    } else if is_word(mode, "upper") {
        Type::String(uppercase(s.as_str()))
    } else {
        Type::String(s)
    }
}

/// The result of a regular-expression search, as a value.
pub fn regex_value(found: Option<Vec<String>>) -> (r: Type)
    ensures
        found matches Some(f) ==> r@ == Val::List(strs(string_views(f@))),
        found is None ==> r@ == error_val("regex"),
{
    match found {
        Some(f) => {
            let mut out: Vec<Type> = Vec::new();
            let mut i: usize = 0;
            while i < f.len()
                invariant
                    i <= f@.len(),
                    out@.len() == i,
                    forall|k: int| 0 <= k < i ==> model(#[trigger] out@[k]) == Val::Str(f@[k]@),
                decreases f@.len() - i,
            {
                out.push(Type::String(f[i].clone()));
                i += 1;
            }
            let r = Type::List(out);
            assert(model(r)->List_0 =~= strs(string_views(f@)));
            r
        },
        None => error_value("regex"),
    }
}

fn index_value(items: &Vec<Type>, target: &[char]) -> (r: Type)
    ensures
        r@ == index_val(models(items@), target@),
{
    let ghost l = models(items@);
    let mut i: usize = 0;
    while i < items.len()
        invariant
            i <= items@.len(),
            l == models(items@),
            forall|k: int| 0 <= k < i ==> text_of(#[trigger] l[k]) != target@,
        decreases items@.len() - i,
    {
        let t = text_arg(&items[i]);
        if same(t.as_slice(), target) {
            assert(first_with_text(l, target@, i as int));
            proof {
                let j = choose|j: int| first_with_text(l, target@, j);
                if j < i {
                    assert(text_of(l[j]) != target@);
                } else if j > i {
                    assert(text_of(l[i as int]) != target@);
                }
            }
            return count_value(i);
        }
        i += 1;
    }
    error_value("item-not-found")
}

fn reverse_values(items: &Vec<Type>) -> (r: Vec<Type>)
    ensures
        models(r@) == reversed(models(items@)),
{
    let n = items.len();
    let mut out: Vec<Type> = Vec::new();
    let mut i: usize = 0;
    while i < n
        invariant
            n == items@.len(),
            i <= n,
            out@.len() == i,
            forall|k: int| 0 <= k < i ==> model(#[trigger] out@[k]) == model(items@[n - 1 - k]),
        decreases n - i,
    {
        out.push(items[n - 1 - i].clone());
        i += 1;
    }
    assert(models(out@) =~= reversed(models(items@)));
    out
}

fn range_list(lo: usize, hi: usize, step: usize) -> (r: Vec<Type>)
    ensures
        models(r@) == range_values(lo as nat, hi as nat, step as nat),
{
    let mut out: Vec<Type> = Vec::new();
    if step == 0 || lo >= hi {
        assert(models(out@) =~= range_values(lo as nat, hi as nat, step as nat));
        return out;
    }
    let ghost n = range_len(lo as nat, hi as nat, step as nat);
    let mut cur = lo;
    let mut i: usize = 0;
    loop
        invariant_except_break
            cur == lo + i * step,
            cur < hi,
            i <= cur,
        invariant
            step > 0,
            lo < hi,
            n == range_len(lo as nat, hi as nat, step as nat),
            out@.len() == i,
            forall|k: int|
                0 <= k < i ==> model(#[trigger] out@[k]) == Val::Number(decimal((lo + k * step) as nat)),
        ensures
            out@.len() == n,
        decreases hi - cur,
    {
        out.push(count_value(cur));
        let ghost old_i = i;
        i += 1;
        if hi - cur <= step {
            proof {
                assert(lo + i * step == cur + step) by (nonlinear_arith)
                    requires cur == lo + old_i * step, i == old_i + 1;
                assert(n == i) by (nonlinear_arith)
                    requires
                        n == (hi - lo + step - 1) / step as int,
                        lo + (i - 1) * step < hi,
                        hi <= lo + i * step,
                        step > 0,
                        i >= 1,
                ;
            }
            break;
        }
        cur = cur + step;
        assert(cur == lo + i * step) by (nonlinear_arith)
            requires cur == lo + old_i * step + step, i == old_i + 1;
    }
    assert(models(out@) =~= range_values(lo as nat, hi as nat, step as nat));
    out
}

fn kind_value(v: &Type) -> (r: Type)
    ensures
        r@ == Val::Str(kind_name(v@)),
{
    match v {
        Type::Number(_) => word_value("number"),
        Type::String(_) => word_value("string"),
        Type::Bool(_) => word_value("bool"),
        Type::List(_) => word_value("list"),
        Type::Error(_) => word_value("error"),
        Type::Object(name, _) => Type::String(name.clone()),
    }
}

fn cast_value(v: Type, kind: &[char]) -> (r: Type)
    ensures
        r@ == cast_val(v@, kind@),
{
    if is_word(kind, "number") {
        match v {
            Type::Number(t) => Type::Number(t),
            Type::Bool(b) => {
                let digit = if b { ['1'] } else { ['0'] };
                assert(digit@ =~= (if b { seq!['1'] } else { seq!['0'] }));
                Type::Number(to_text(&digit))
            },
            Type::List(l) => count_value(l.len()),
            Type::Object(_, p) => count_value(p.len()),
            _ => {
                let zero = ['0'];
                assert(zero@ =~= seq!['0']);
                Type::Number(to_text(&zero))
            },
        }
    } else if is_word(kind, "string") {
        Type::String(v.get_string())
    } else if is_word(kind, "bool") {
        Type::Bool(v.get_bool())
    } else if is_word(kind, "list") {
        let items = v.get_list();
        let r = Type::List(items);
        assert(model(r)->List_0 =~= items_of(v@));
        r
    } else if is_word(kind, "error") {
        Type::Error(v.get_string())
    } else {
        v
    }
}

fn instance_value(class: &Vec<Type>, data: &Vec<Type>) -> (r: Type)
    ensures
        r@ == instance_val(models(class@), models(data@)),
{
    let ghost cm = models(class@);
    let ghost dm = models(data@);
    if class.len() == 0 {
        return error_value("instance-name");
    }
    let name = class[0].get_string();
    let mut props: Vec<(String, Type)> = Vec::new();
    let mut used: usize = 0;
    let mut k: usize = 1;
    assert(bindings_model(props@) =~= seq![]);
    while k < class.len()
        invariant
            1 <= k <= class@.len(),
            used <= data@.len(),
            cm == models(class@),
            dm == models(data@),
            class_props(cm, dm, 1, 0, seq![]) == class_props(
                cm,
                dm,
                k as nat,
                used as nat,
                bindings_model(props@),
            ),
        decreases class@.len() - k,
    {
        let entry = class[k].get_list();
        if entry.len() == 1 {
            if used < data.len() {
                let key = entry[0].get_string();
                set_bound(&mut props, key, data[used].clone());
                used += 1;
            } else {
                return error_value("instance-shortage");
            }
        } else if entry.len() >= 2 {
            let key = entry[0].get_string();
            set_bound(&mut props, key, entry[1].clone());
        } else {
            return error_value("instance-default");
        }
        k += 1;
    }
    proof {
        lemma_object_model(name, props);
    }
    Type::Object(name, props)
}

fn property_value(o: &Type, name: &[char]) -> (r: Type)
    ensures
        r@ == property_val(o@, name@),
{
    match o {
        Type::Object(n, props) => {
            proof {
                lemma_object_model(*n, *props);
            }
            match find_name(props, name) {
                Some(i) => props[i].1.clone(),
                None => error_value("property"),
            }
        },
        _ => error_value("not-object"),
    }
}

fn modify_value(o: Type, name: String, v: Type) -> (r: Type)
    ensures
        r@ == modify_val(o@, name@, v@),
{
    match o {
        Type::Object(n, props) => {
            proof {
                lemma_object_model(n, props);
            }
            let mut props = props;
            set_bound(&mut props, name, v);
            proof {
                lemma_object_model(n, props);
            }
            Type::Object(n, props)
        },
        _ => error_value("not-object"),
    }
}

fn all_value(o: &Type) -> (r: Type)
    ensures
        r@ == all_val(o@),
{
    match o {
        Type::Object(n, props) => {
            proof {
                lemma_object_model(*n, *props);
            }
            let ghost pm = bindings_model(props@);
            let mut out: Vec<Type> = Vec::new();
            let mut i: usize = 0;
            while i < props.len()
                invariant
                    i <= props@.len(),
                    pm == bindings_model(props@),
                    out@.len() == i,
                    forall|k: int| 0 <= k < i ==> model(#[trigger] out@[k]) == Val::Str(pm[k].0),
                decreases props@.len() - i,
            {
                out.push(Type::String(props[i].0.clone()));
                i += 1;
            }
            let r = Type::List(out);
            assert(model(r)->List_0 =~= strs(pm.map_values(|p: (Seq<char>, Val)| p.0)));
            r
        },
        _ => error_value("not-object"),
    }
}

/// Runs a stack command on its arguments (deepest first); `rest` is the
/// stack below them.
pub fn stack_command(c: Cmd, args: &Vec<Type>, rest: &Vec<Type>) -> (r: Vec<Type>)
    requires
        arity(c) is Some,
        args@.len() == pops(c),
    ensures
        models(r@) == outputs(c, models(args@), models(rest@)),
{
    let ghost a = models(args@);
    assert(forall|k: int| 0 <= k < args@.len() ==> a[k] == model(#[trigger] args@[k]));
    match c {
        Cmd::And => one(Type::Bool(args[0].get_bool() && args[1].get_bool())),
        Cmd::Or => one(Type::Bool(args[0].get_bool() || args[1].get_bool())),
        Cmd::Not => one(Type::Bool(!args[0].get_bool())),
        Cmd::Equal => {
            let x = text_arg(&args[0]);
            let y = text_arg(&args[1]);
            one(Type::Bool(same(x.as_slice(), y.as_slice())))
        },
        Cmd::Repeat => {
            let t = text_arg(&args[0]);
            let n = count_arg(&args[1]);
            let r = repeat_text(t.as_slice(), n);
            one(string_value(r.as_slice()))
        },
        Cmd::Decode => one(decode_value(count_arg(&args[0]))),
        Cmd::Encode => {
            let t = text_arg(&args[0]);
            one(encode_value(t.as_slice()))
        },
        Cmd::Concat => {
            let mut x = text_arg(&args[0]);
            let y = text_arg(&args[1]);
            let ghost x0 = x@;
            x.extend_from_slice(y.as_slice());
            assert(x@ =~= x0 + y@);
            one(string_value(x.as_slice()))
        },
        Cmd::Replace => {
            let t = text_arg(&args[0]);
            let b = text_arg(&args[1]);
            let f = text_arg(&args[2]);
            let r = replace(t.as_slice(), b.as_slice(), f.as_slice());
            one(string_value(r.as_slice()))
        },
        Cmd::Split => {
            let t = text_arg(&args[0]);
            let k = text_arg(&args[1]);
            let pieces = split(t.as_slice(), k.as_slice());
            let items = strs_value(&pieces);
            let r = Type::List(items);
            assert(model(r)->List_0 =~= models(items@));
            one(r)
        },
        Cmd::Case => {
            let t = text_arg(&args[0]);
            let m = text_arg(&args[1]);
            one(case_value(t.as_slice(), m.as_slice()))
        },
        Cmd::Join => {
            let items = args[0].get_list();
            let ts = texts_value(&items);
            let k = text_arg(&args[1]);
            let r = join(&ts, k.as_slice());
            one(string_value(r.as_slice()))
        },
        Cmd::Find => {
            let t = text_arg(&args[0]);
            let w = text_arg(&args[1]);
            one(Type::Bool(find(t.as_slice(), w.as_slice())))
        },
        Cmd::Regex => {
            let text = args[0].get_string();
            let pattern = args[1].get_string();
            let found = regex_matches(pattern.as_str(), text.as_str());
            one(regex_value(found))
        },
        Cmd::GetItem => {
            let items = args[0].get_list();
            let i = count_arg(&args[1]);
            if !negative_arg(&args[1]) && i < items.len() {
                one(items[i].clone())
            } else {
                one(error_value("index-out-range"))
            }
        },
        Cmd::SetItem => {
            let mut items = args[0].get_list();
            let i = count_arg(&args[1]);
            if !negative_arg(&args[1]) && i < items.len() {
                let ghost before = models(items@);
                items.set(i, args[2].clone());
                let r = Type::List(items);
                assert(model(r)->List_0 =~= before.update(i as int, a[2]));
                one(r)
            } else {
                one(error_value("index-out-range"))
            }
        },
        Cmd::DelItem => {
            let mut items = args[0].get_list();
            let i = count_arg(&args[1]);
            if !negative_arg(&args[1]) && i < items.len() {
                let ghost before = models(items@);
                items.remove(i);
                let r = Type::List(items);
                assert(model(r)->List_0 =~= before.remove(i as int));
                one(r)
            } else {
                one(error_value("index-out-range"))
            }
        },
        Cmd::Append => {
            let mut items = args[0].get_list();
            let ghost before = models(items@);
            items.push(args[1].clone());
            let r = Type::List(items);
            assert(model(r)->List_0 =~= before.push(a[1]));
            one(r)
        },
        Cmd::Insert => {
            let mut items = args[0].get_list();
            let i = count_arg(&args[1]);
            if !negative_arg(&args[1]) && i <= items.len() {
                let ghost before = models(items@);
                items.insert(i, args[2].clone());
                let r = Type::List(items);
                assert(model(r)->List_0 =~= before.insert(i as int, a[2]));
                one(r)
            } else {
                one(error_value("index-out-range"))
            }
        },
        Cmd::Index => {
            let items = args[0].get_list();
            let t = text_arg(&args[1]);
            one(index_value(&items, t.as_slice()))
        },
        Cmd::Sort => {
            let items = args[0].get_list();
            let ts = texts_value(&items);
            let sorted_texts = sort(ts);
            let out = strs_value(&sorted_texts);
            let r = Type::List(out);
            assert(model(r)->List_0 =~= models(out@));
            one(r)
        },
        Cmd::Reverse => {
            let items = args[0].get_list();
            let out = reverse_values(&items);
            let r = Type::List(out);
            assert(model(r)->List_0 =~= models(out@));
            one(r)
        },
        Cmd::Range => {
            let out = range_list(count_arg(&args[0]), count_arg(&args[1]), count_arg(&args[2]));
            let r = Type::List(out);
            assert(model(r)->List_0 =~= models(out@));
            one(r)
        },
        Cmd::Len => {
            let items = args[0].get_list();
            one(count_value(items.len()))
        },
        Cmd::Pop => {
            let r: Vec<Type> = Vec::new();
            assert(models(r@) =~= seq![]);
            r
        },
        Cmd::SizeStack => one(count_value(rest.len())),
        Cmd::GetStack => {
            let out = copy_values(rest);
            let r = Type::List(out);
            assert(model(r)->List_0 =~= models(out@));
            one(r)
        },
        Cmd::TypeOf => one(kind_value(&args[0])),
        Cmd::Cast => {
            let k = text_arg(&args[1]);
            one(cast_value(args[0].clone(), k.as_slice()))
        },
        Cmd::CopyTop => {
            let r = vec![args[0].clone(), args[0].clone()];
            assert(models(r@) =~= seq![a[0], a[0]]);
            r
        },
        Cmd::Swap => {
            let r = vec![args[1].clone(), args[0].clone()];
            assert(models(r@) =~= seq![a[1], a[0]]);
            r
        },
        Cmd::Instance => {
            let class = args[0].get_list();
            let data = args[1].get_list();
            one(instance_value(&class, &data))
        },
        Cmd::Property => {
            let n = text_arg(&args[1]);
            one(property_value(&args[0], n.as_slice()))
        },
        Cmd::Modify => {
            let n = args[1].get_string();
            one(modify_value(args[0].clone(), n, args[2].clone()))
        },
        Cmd::All => one(all_value(&args[0])),
        _ => {
            let r: Vec<Type> = Vec::new();
            assert(models(r@) =~= seq![]);
            r
        },
    }
}

} // verus!
