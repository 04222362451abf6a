//! The dynamic values of the language and their coercions.
use vstd::prelude::*;

use crate::text::{decimal, decimal_string, to_chars, to_text};

verus! {

/// A value on the stack or in memory.
///
/// A number is held as the text that the host's IEEE-754 double prints as
/// (`13`, `0.5`, `-0`, `NaN`, `inf`): the library never computes with it.
#[derive(Debug)]
pub enum Type {
    Number(String),
    String(String),
    Bool(bool),
    List(Vec<Type>),
    /// A type name and the properties, by name (where a name occurs twice,
    /// the first counts).
    Object(String, Vec<(String, Type)>),
    Error(String),
}

/// The mathematical form of a value.
pub enum Val {
    Number(Seq<char>),
    Str(Seq<char>),
    Bool(bool),
    List(Seq<Val>),
    Object(Seq<char>, Seq<(Seq<char>, Val)>),
    Error(Seq<char>),
}

/// The mathematical form of a value.
pub open spec fn model(v: Type) -> Val
    decreases v,
{
    match v {
        Type::Number(t) => Val::Number(t@),
        Type::String(s) => Val::Str(s@),
        Type::Bool(b) => Val::Bool(b),
        Type::List(l) => Val::List(
            Seq::new(
                l@.len(),
                |i: int|
                    if 0 <= i < l@.len() {
                        model(l@[i])
                    } else {
                        Val::Bool(false)
                    },
            ),
        ),
        Type::Object(name, props) => Val::Object(
            name@,
            Seq::new(
                props@.len(),
                |i: int|
                    if 0 <= i < props@.len() {
                        (props@[i].0@, model(props@[i].1))
                    } else {
                        (Seq::empty(), Val::Bool(false))
                    },
            ),
        ),
        Type::Error(e) => Val::Error(e@),
    }
}

/// The mathematical forms of a sequence of values.
pub open spec fn models(s: Seq<Type>) -> Seq<Val> {
    s.map_values(|v: Type| model(v))
}

impl View for Type {
    type V = Val;

    open spec fn view(&self) -> Val {
        model(*self)
    }
}

pub open spec fn true_text() -> Seq<char> {
    seq!['t', 'r', 'u', 'e']
}

pub open spec fn false_text() -> Seq<char> {
    seq!['f', 'a', 'l', 's', 'e']
}

pub open spec fn error_prefix() -> Seq<char> {
    seq!['e', 'r', 'r', 'o', 'r', ':']
}

pub open spec fn bool_text(b: bool) -> Seq<char> {
    if b { true_text() } else { false_text() }
}

/// `Object<name>`.
pub open spec fn object_text(name: Seq<char>) -> Seq<char> {
    seq!['O', 'b', 'j', 'e', 'c', 't', '<'] + name + seq!['>']
}

/// The display form of a value.
pub open spec fn display(v: Val) -> Seq<char>
    decreases v,
{
    match v {
        Val::Number(t) => t,
        Val::Str(s) => seq!['('] + s + seq![')'],
        Val::Bool(b) => bool_text(b),
        Val::List(l) => seq!['['] + display_items(l) + seq![']'],
        Val::Object(name, _) => object_text(name),
        Val::Error(e) => error_prefix() + e,
    }
}

/// The display forms of `items`, separated by single spaces.
pub open spec fn display_items(items: Seq<Val>) -> Seq<char>
    decreases items,
{
    if items.len() == 0 {
        Seq::empty()
    } else if items.len() == 1 {
        display(items[0])
    } else {
        display_items(items.drop_last()) + seq![' '] + display(items.last())
    }
}

/// The value as text: a string is itself, anything else its display form.
pub open spec fn text_of(v: Val) -> Seq<char> {
    match v {
        Val::Str(s) => s,
        _ => display(v),
    }
}

/// The value as a truth value.
pub open spec fn truth(v: Val) -> bool {
    match v {
        Val::Number(t) => t != seq!['0'] && t != seq!['-', '0'],
        Val::Str(s) => s.len() > 0,
        Val::Bool(b) => b,
        Val::List(l) => l.len() > 0,
        Val::Object(_, props) => props.len() == 0,
        Val::Error(e) => e == true_text(),
    }
}

/// The values of the properties, in order.
pub open spec fn property_values(props: Seq<(Seq<char>, Val)>) -> Seq<Val> {
    props.map_values(|p: (Seq<char>, Val)| p.1)
}

/// Each character of a text as a string value.
pub open spec fn char_strings(s: Seq<char>) -> Seq<Val> {
    s.map_values(|c: char| Val::Str(seq![c]))
}

/// The value as a list.
pub open spec fn items_of(v: Val) -> Seq<Val> {
    match v {
        Val::Str(s) => char_strings(s),
        Val::List(l) => l,
        Val::Object(_, props) => property_values(props),
        _ => seq![v],
    }
}

/// The number that the library knows for a value without the host: a
/// number's own text, `1`/`0` for a bool, the length of a list or object.
/// Strings and errors must be parsed by the host.
pub open spec fn known_number(v: Val) -> Option<Seq<char>> {
    match v {
        Val::Number(t) => Some(t),
        Val::Bool(b) => Some(if b { seq!['1'] } else { seq!['0'] }),
        Val::List(l) => Some(decimal(l.len())),
        Val::Object(_, props) => Some(decimal(props.len())),
        _ => None,
    }
}

/// The text whose parse gives the value's number (a failed parse gives 0).
pub open spec fn number_source(v: Val) -> Seq<char> {
    match v {
        Val::Str(s) => s,
        Val::Error(e) => e,
        _ => known_number(v)->0,
    }
}

fn push_str(out: &mut Vec<char>, s: &str)
    ensures
        final(out)@ == old(out)@ + s@,
{
    let cs = to_chars(s);
    out.extend_from_slice(cs.as_slice());
}

fn push_string(out: &mut Vec<char>, s: &String)
    ensures
        final(out)@ == old(out)@ + s@,
{
    push_str(out, s.as_str());
}

impl Clone for Type {
    fn clone(&self) -> (r: Self)
        ensures
            r@ == self@,
        decreases self,
    {
        match self {
            Type::Number(t) => {
                let c = t.clone();
                Type::Number(c)
            },
            Type::String(s) => Type::String(s.clone()),
            Type::Bool(b) => Type::Bool(*b),
            Type::List(l) => {
                let mut out: Vec<Type> = Vec::new();
                let mut i: usize = 0;
                while i < l.len()
                    invariant
                        i <= l@.len(),
                        out@.len() == i,
                        forall|k: int| 0 <= k < i ==> model(#[trigger] out@[k]) == model(l@[k]),
                        forall|k: int| 0 <= k < l@.len() ==> decreases_to!(*self => l@[k]),
                    decreases l@.len() - i,
                {
                    out.push(l[i].clone());
                    i += 1;
                }
                let ghost mo = model(Type::List(out));
                let ghost ms = model(*self);
                assert(mo->List_0 =~= ms->List_0);
                Type::List(out)
            },
            Type::Object(name, props) => {
                let mut out: Vec<(String, Type)> = Vec::new();
                let mut i: usize = 0;
                while i < props.len()
                    invariant
                        i <= props@.len(),
                        out@.len() == i,
                        forall|k: int|
                            0 <= k < i ==> (#[trigger] out@[k]).0@ == props@[k].0@ && model(
                                out@[k].1,
                            ) == model(props@[k].1),
                        forall|k: int| 0 <= k < props@.len() ==> decreases_to!(*self => props@[k].1),
                    decreases props@.len() - i,
                {
                    let p = &props[i];
                    out.push((p.0.clone(), p.1.clone()));
                    i += 1;
                }
                let n = name.clone();
                let ghost mo = model(Type::Object(n, out));
                let ghost ms = model(*self);
                assert(mo->Object_1 =~= ms->Object_1);
                Type::Object(n, out)
            },
            Type::Error(e) => Type::Error(e.clone()),
        }
    }
}

/// Copies of the values of `l`.
pub fn copy_values(l: &Vec<Type>) -> (r: Vec<Type>)
    ensures
        models(r@) == models(l@),
{
    let mut out: Vec<Type> = Vec::new();
    let mut i: usize = 0;
    while i < l.len()
        invariant
            i <= l@.len(),
            out@.len() == i,
            forall|k: int| 0 <= k < i ==> model(#[trigger] out@[k]) == model(l@[k]),
        decreases l@.len() - i,
    {
        out.push(l[i].clone());
        i += 1;
    }
    assert(models(out@) =~= models(l@));
    out
}

/// A string value holding `cs`.
pub fn string_value(cs: &[char]) -> (r: Type)
    ensures
        r@ == Val::Str(cs@),
{
    Type::String(to_text(cs))
}

/// A number value holding the decimal form of `n`.
pub fn count_value(n: usize) -> (r: Type)
    ensures
        r@ == Val::Number(decimal(n as nat)),
{
    Type::Number(decimal_string(n))
}

/// The text of a value's number, for the host to parse (a text that does
/// not parse stands for 0).
pub fn number_text(v: &Type) -> (r: String)
    ensures
        r@ == number_source(v@),
{
    match v {
        Type::Number(t) => t.clone(),
        Type::String(s) => s.clone(),
        Type::Error(e) => e.clone(),
        Type::Bool(b) => {
            let d = if *b { ['1'] } else { ['0'] };
            assert(d@ =~= (if *b { seq!['1'] } else { seq!['0'] }));
            to_text(&d)
        },
        Type::List(l) => decimal_string(l.len()),
        Type::Object(_, p) => decimal_string(p.len()),
    }
}

impl Type {
    /// The value as a number, given as the text that the host parses: a
    /// number's own text, a string or error code as it is, `1`/`0` for a
    /// bool, the length of a list or object.
    pub fn get_number(&self) -> (r: String)
        ensures
            r@ == number_source(self@),
    {
        number_text(self)
    }

    /// The display form, as characters.
    pub fn display_chars(&self) -> (r: Vec<char>)
        ensures
            r@ == display(self@),
        decreases self,
    {
        let mut out: Vec<char> = Vec::new();
        match self {
            Type::Number(t) => push_string(&mut out, t),
            Type::String(s) => {
                out.push('(');
                push_string(&mut out, s);
                out.push(')');
            },
            Type::Bool(b) => {
                if *b {
                    push_str(&mut out, "true");
                } else {
                    push_str(&mut out, "false");
                }
                proof {
                    reveal_strlit("true");
                    reveal_strlit("false");
                }
            },
            Type::List(l) => {
                out.push('[');
                let mut i: usize = 0;
                while i < l.len()
                    invariant
                        i <= l@.len(),
                        forall|k: int| 0 <= k < l@.len() ==> decreases_to!(*self => l@[k]),
                        out@ == seq!['['] + display_items(models(l@).subrange(0, i as int)),
                    decreases l@.len() - i,
                {
                    let ghost before = models(l@).subrange(0, i as int);
                    if i > 0 {
                        out.push(' ');
                    }
                    let d = l[i].display_chars();
                    out.extend_from_slice(d.as_slice());
                    i += 1;
                    proof {
                        let now = models(l@).subrange(0, i as int);
                        assert(now.drop_last() =~= before);
                        assert(now.last() == model(l@[i - 1]));
                        if i == 1 {
                            assert(out@ =~= seq!['['] + display_items(now));
                        } else {
                            assert(out@ =~= seq!['['] + display_items(now));
                        }
                    }
                }
                assert(models(l@).subrange(0, i as int) =~= models(l@));
                assert(self@ == Val::List(models(l@))) by {
                    assert(models(l@) =~= self@->List_0);
                }
                out.push(']');
            },
            Type::Object(name, _) => {
                push_str(&mut out, "Object<");
                push_string(&mut out, name);
                out.push('>');
                proof {
                    reveal_strlit("Object<");
                }
            },
            Type::Error(e) => {
                push_str(&mut out, "error:");
                push_string(&mut out, e);
                proof {
                    reveal_strlit("error:");
                }
            },
        }
        assert(out@ =~= display(self@));
        out
    }

    /// The display form: `(text)` for a string, `[a b]` for a list,
    /// `Object<name>`, `error:code`.
    pub fn display(&self) -> (r: String)
        ensures
            r@ == display(self@),
    {
        let cs = self.display_chars();
        to_text(cs.as_slice())
    }

    /// The value as text.
    pub fn get_string(&self) -> (r: String)
        ensures
            r@ == text_of(self@),
    {
        match self {
            Type::String(s) => s.clone(),
            _ => self.display(),
        }
    }

    /// The value as a list: a string's characters, a list itself, an
    /// object's property values, anything else alone.
    pub fn get_list(&self) -> (r: Vec<Type>)
        ensures
            models(r@) == items_of(self@),
    {
        match self {
            Type::String(s) => {
                let cs = to_chars(s.as_str());
                let mut out: Vec<Type> = Vec::new();
                let mut i: usize = 0;
                while i < cs.len()
                    invariant
                        i <= cs@.len(),
                        out@.len() == i,
                        forall|k: int|
                            0 <= k < i ==> model(#[trigger] out@[k]) == Val::Str(seq![cs@[k]]),
                    decreases cs@.len() - i,
                {
                    let one = [cs[i]];
                    assert(one@ =~= seq![cs@[i as int]]);
                    out.push(string_value(&one));
                    i += 1;
                }
                assert(models(out@) =~= char_strings(cs@));
                out
            },
            Type::List(l) => {
                let r = copy_values(l);
                assert(models(l@) =~= self@->List_0);
                r
            },
            Type::Object(_, props) => {
                let mut out: Vec<Type> = Vec::new();
                let mut i: usize = 0;
                while i < props.len()
                    invariant
                        i <= props@.len(),
                        out@.len() == i,
                        forall|k: int|
                            0 <= k < i ==> model(#[trigger] out@[k]) == self@->Object_1[k].1,
                        self@->Object_1.len() == props@.len(),
                        forall|k: int|
                            0 <= k < props@.len() ==> (#[trigger] self@->Object_1[k]).1 == model(
                                props@[k].1,
                            ),
                    decreases props@.len() - i,
                {
                    out.push(props[i].1.clone());
                    i += 1;
                }
                assert(models(out@) =~= property_values(self@->Object_1));
                out
            },
            _ => {
                let out = vec![self.clone()];
                assert(models(out@) =~= items_of(self@));
                out
            },
        }
    }

    /// The value as a truth value: a non-empty string or list, a non-zero
    /// number, an error whose code reads `true`, an object without properties.
    pub fn get_bool(&self) -> (r: bool)
        ensures
            r == truth(self@),
    {
        match self {
            Type::Number(t) => {
                proof {
                    reveal_strlit("0");
                    reveal_strlit("-0");
                    assert("0"@ =~= seq!['0']);
                    assert("-0"@ =~= seq!['-', '0']);
                }
                let cs = to_chars(t.as_str());
                !(crate::text::is_word(cs.as_slice(), "0") || crate::text::is_word(
                    cs.as_slice(),
                    "-0",
                ))
            },
            Type::String(s) => s.as_str().unicode_len() > 0,
            Type::Bool(b) => *b,
            Type::List(l) => l.len() > 0,
            Type::Object(_, props) => props.len() == 0,
            Type::Error(e) => {
                proof {
                    reveal_strlit("true");
                    assert("true"@ =~= true_text());
                }
                let cs = to_chars(e.as_str());
                crate::text::is_word(cs.as_slice(), "true")
            },
        }
    }
}

} // verus!
