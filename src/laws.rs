//! Laws that the stack commands obey, stated over the stack's model.
use vstd::prelude::*;

use crate::builtins::{
    arg_list, below, cast_val, range_len, range_values, reversed, stack_after, strs, texts,
};
use crate::commands::Cmd;
use crate::machine::{operand_to_parse, reply_values, Reply};
use crate::text::{decimal, lemma_sort_idempotent, lemma_sort_sorted, lemma_split_then_join, sort_texts, sorted};
use crate::number::{count_of, digit_run, digits_value, inf_text, is_digit};
use crate::text::{clean, digit_char, join_all, lemma_join_then_split};
use crate::value::{number_source, text_of, Type, Val};

verus! {

proof fn lemma_texts_of_strs(x: Seq<Seq<char>>)
    ensures
        texts(strs(x)) == x,
{
    assert(texts(strs(x)) =~= x);
}

/// `copy` followed by `equal` leaves `true` on top, whatever the stack.
pub proof fn lemma_copy_then_equal(s: Seq<Val>)
    ensures
        stack_after(Cmd::Equal, stack_after(Cmd::CopyTop, s)).last() == Val::Bool(true),
        stack_after(Cmd::Equal, stack_after(Cmd::CopyTop, s)).len() == (if s.len() > 0 {
            s.len()
        } else {
            1
        }),
{
    let a = arg_list(s, 1)[0];
    let t = stack_after(Cmd::CopyTop, s);
    assert(t =~= below(s, 1) + seq![a, a]);
    assert(arg_list(t, 2) =~= seq![a, a]);
}

/// `swap swap` leaves a stack of two or more values as it was.
pub proof fn lemma_swap_twice(s: Seq<Val>)
    requires
        s.len() >= 2,
    ensures
        stack_after(Cmd::Swap, stack_after(Cmd::Swap, s)) == s,
{
    let n = s.len();
    let t = stack_after(Cmd::Swap, s);
    assert(t =~= s.subrange(0, n - 2) + seq![s[n - 1], s[n - 2]]);
    assert(stack_after(Cmd::Swap, t) =~= s);
}

/// Casting to a string and back: a string stays itself, `true` comes back as
/// `true`, and a number's text is exactly what the host is asked to parse
/// when it is cast back to a number.
pub proof fn lemma_cast_round_trip(t: Seq<char>)
    ensures
        cast_val(cast_val(Val::Str(t), "string"@), "string"@) == Val::Str(t),
        cast_val(cast_val(Val::Bool(true), "string"@), "bool"@) == Val::Bool(true),
        cast_val(Val::Number(t), "string"@) == Val::Str(t),
        number_source(cast_val(Val::Number(t), "string"@)) == t,
        operand_to_parse(Cmd::Cast, seq![Val::Str(t), Val::Str("number"@)]) == Some(1nat),
{
    reveal_strlit("true");
    reveal_strlit("number");
    reveal_strlit("string");
    reveal_strlit("bool");
    assert("string"@[0] != "number"@[0]);
    assert("bool"@.len() != "number"@.len());
    assert("bool"@.len() != "string"@.len());
    assert("true"@ =~= seq!['t', 'r', 'u', 'e']);
    assert(seq![Val::Str(t), Val::Str("number"@)].last() == Val::Str("number"@));
}

/// `reverse reverse` gives a list back unchanged.
pub proof fn lemma_reverse_twice(s: Seq<Val>, l: Seq<Val>)
    ensures
        stack_after(Cmd::Reverse, stack_after(Cmd::Reverse, s.push(Val::List(l)))) == s.push(
            Val::List(l),
        ),
{
    let t = stack_after(Cmd::Reverse, s.push(Val::List(l)));
    assert(below(s.push(Val::List(l)), 1) =~= s);
    assert(arg_list(s.push(Val::List(l)), 1) =~= seq![Val::List(l)]);
    assert(t =~= s.push(Val::List(reversed(l))));
    assert(below(t, 1) =~= s);
    assert(arg_list(t, 1) =~= seq![Val::List(reversed(l))]);
    assert(reversed(reversed(l)) =~= l);
}

/// `sort` puts the texts of the items in non-decreasing order, and sorting
/// its result again changes nothing.
pub proof fn lemma_sort_law(s: Seq<Val>, v: Val)
    ensures
        stack_after(Cmd::Sort, s.push(v)).last() matches Val::List(items) && sorted(texts(items))
            && texts(items).to_multiset() == texts(crate::value::items_of(v)).to_multiset(),
        stack_after(Cmd::Sort, stack_after(Cmd::Sort, s.push(v))) == stack_after(Cmd::Sort, s.push(v)),
{
    let x = texts(crate::value::items_of(v));
    let sorted_x = sort_texts(x);
    let t = stack_after(Cmd::Sort, s.push(v));
    assert(below(s.push(v), 1) =~= s);
    assert(arg_list(s.push(v), 1) =~= seq![v]);
    assert(t =~= s.push(Val::List(strs(sorted_x))));
    lemma_texts_of_strs(sorted_x);
    lemma_sort_sorted(x);
    lemma_sort_idempotent(x);
    crate::text::lemma_sort_keeps(x);
    assert(below(t, 1) =~= s);
    assert(arg_list(t, 1) =~= seq![Val::List(strs(sorted_x))]);
}

/// `split` and then `join` with the same key gives the text back.
pub proof fn lemma_split_join(s: Seq<Val>, t: Seq<char>, key: Seq<char>)
    ensures
        stack_after(
            Cmd::Join,
            stack_after(Cmd::Split, s.push(Val::Str(t)).push(Val::Str(key))).push(Val::Str(key)),
        ) == s.push(Val::Str(t)),
{
    let s1 = s.push(Val::Str(t)).push(Val::Str(key));
    let pieces = crate::text::split_all(t, key);
    assert(below(s1, 2) =~= s);
    assert(arg_list(s1, 2) =~= seq![Val::Str(t), Val::Str(key)]);
    let s2 = stack_after(Cmd::Split, s1);
    assert(s2 =~= s.push(Val::List(strs(pieces))));
    let s3 = s2.push(Val::Str(key));
    assert(below(s3, 2) =~= s);
    assert(arg_list(s3, 2) =~= seq![Val::List(strs(pieces)), Val::Str(key)]);
    lemma_texts_of_strs(pieces);
    lemma_split_then_join(t, key);
}

/// `join` and then `split` with the same non-empty key gives the pieces
/// back as strings, when no occurrence of the key starts inside a piece.
pub proof fn lemma_join_split(s: Seq<Val>, pieces: Seq<Seq<char>>, key: Seq<char>)
    requires
        key.len() > 0,
        pieces.len() > 0,
        forall|i: int| 0 <= i < pieces.len() ==> clean(#[trigger] pieces[i], key),
    ensures
        stack_after(
            Cmd::Split,
            stack_after(Cmd::Join, s.push(Val::List(strs(pieces))).push(Val::Str(key))).push(
                Val::Str(key),
            ),
        ) == s.push(Val::List(strs(pieces))),
{
    let s1 = s.push(Val::List(strs(pieces))).push(Val::Str(key));
    assert(below(s1, 2) =~= s);
    assert(arg_list(s1, 2) =~= seq![Val::List(strs(pieces)), Val::Str(key)]);
    lemma_texts_of_strs(pieces);
    let joined = join_all(pieces, key);
    let s2 = stack_after(Cmd::Join, s1);
    assert(s2 =~= s.push(Val::Str(joined)));
    let s3 = s2.push(Val::Str(key));
    assert(below(s3, 2) =~= s);
    assert(arg_list(s3, 2) =~= seq![Val::Str(joined), Val::Str(key)]);
    lemma_join_then_split(pieces, key);
}

/// `len` of a list of N values gives N.
pub proof fn lemma_len_of_list(s: Seq<Val>, l: Seq<Val>)
    ensures
        stack_after(Cmd::Len, s.push(Val::List(l))) == s.push(Val::Number(decimal(l.len()))),
{
    assert(below(s.push(Val::List(l)), 1) =~= s);
    assert(arg_list(s.push(Val::List(l)), 1) =~= seq![Val::List(l)]);
    assert(stack_after(Cmd::Len, s.push(Val::List(l))) =~= s.push(Val::Number(decimal(l.len()))));
}

/// `range lo hi step` gives the values `lo`, `lo + step`, ... that are below
/// `hi`: each at least `lo` and below `hi`, each `step` above the one before.
pub proof fn lemma_range_values(lo: nat, hi: nat, step: nat)
    requires
        hi <= usize::MAX,
    ensures
        forall|k: int|
            0 <= k < range_len(lo, hi, step) ==> count_of(decimal(#[trigger] (lo + k * step) as nat))
                == lo + k * step,
        forall|k: int|
            0 <= k < range_len(lo, hi, step) ==> #[trigger] range_values(lo, hi, step)[k]
                == Val::Number(decimal((lo + k * step) as nat)) && lo <= lo + k * step < hi,
        forall|k: int|
            0 <= k && k + 1 < range_len(lo, hi, step) ==> #[trigger] range_values(lo, hi, step)[k + 1]
                == Val::Number(decimal((lo + k * step + step) as nat)),
        step > 0 && lo < hi ==> range_len(lo, hi, step) > 0,
{
    assert forall|k: int| 0 <= k < range_len(lo, hi, step) implies #[trigger] range_values(lo, hi, step)[k]
        == Val::Number(decimal((lo + k * step) as nat)) && lo <= lo + k * step < hi by {
        let n = range_len(lo, hi, step);
        assert(step > 0 && lo < hi);
        assert(lo + k * step < hi) by (nonlinear_arith)
            requires
                n == (hi - lo + step - 1) / step as int,
                0 <= k < n,
                step > 0,
                lo < hi,
        ;
        assert(k * step >= 0) by (nonlinear_arith)
            requires k >= 0, step >= 0;
        lemma_count_of_decimal((lo + k * step) as nat);
    }
    assert forall|k: int| 0 <= k && k + 1 < range_len(lo, hi, step) implies #[trigger] range_values(
        lo,
        hi,
        step,
    )[k + 1] == Val::Number(decimal((lo + k * step + step) as nat)) by {
        assert((k + 1) * step == k * step + step) by (nonlinear_arith);
    }
    assert forall|k: int| 0 <= k < range_len(lo, hi, step) implies count_of(
        decimal(#[trigger] (lo + k * step) as nat),
    ) == lo + k * step by {
        assert(range_values(lo, hi, step)[k] == Val::Number(decimal((lo + k * step) as nat)));
        assert(k * step >= 0) by (nonlinear_arith)
            requires k >= 0, step >= 0;
        lemma_count_of_decimal((lo + k * step) as nat);
    }
    if step > 0 && lo < hi {
        assert((hi - lo + step - 1) / step as int >= 1) by (nonlinear_arith)
            requires hi > lo, step > 0;
    }
}

/// A reply from the host adds at most one value to the stack, so a command
/// that asks the host leaves the stack at its height less the values it took,
/// plus at most one.
pub proof fn lemma_reply_adds_at_most_one(
    done: Option<Type>,
    failed: Option<Type>,
    unopened: Option<Type>,
    reply: Reply,
)
    ensures
        reply_values(done, failed, unopened, reply).len() <= 1,
{
}

proof fn lemma_digit_value(d: nat)
    requires
        d < 10,
    ensures
        is_digit(digit_char(d)),
        ((digit_char(d) as u32) - ('0' as u32)) as nat == d,
{
}

proof fn lemma_decimal_digits(n: nat)
    ensures
        digit_run(decimal(n), decimal(n).len() as int),
        digits_value(decimal(n)) == n,
        decimal(n).len() > 0,
        is_digit(decimal(n)[0]),
    decreases n,
{
    lemma_digit_value(n % 10);
    if n < 10 {
        let d = decimal(n);
        assert(d.drop_last() =~= Seq::<char>::empty());
        assert(n % 10 == n);
        assert(d.last() == digit_char(n));
        assert(digits_value(d.drop_last()) == 0);
        assert(digits_value(d) == digits_value(d.drop_last()) * 10 + ((d.last() as u32) - ('0' as u32)) as nat);
    } else {
        lemma_decimal_digits(n / 10);
        let d = decimal(n);
        assert(d.drop_last() =~= decimal(n / 10));
        assert(d.last() == digit_char(n % 10));
        assert(n == (n / 10) * 10 + n % 10) by (nonlinear_arith);
        assert(digits_value(d) == digits_value(d.drop_last()) * 10 + ((d.last() as u32) - ('0' as u32)) as nat);
        assert(d[0] == decimal(n / 10)[0]);
        assert forall|i: int| 0 <= i < d.len() implies is_digit(#[trigger] d[i]) by {
            if i < d.len() - 1 {
                assert(d[i] == decimal(n / 10)[i]);
            }
        }
    }
}

/// A count written in decimal reads back as the same count: the numbers
/// that `len`, `size-stack`, `index` and `range` give stand for exactly the
/// counts they were made from.
pub proof fn lemma_count_of_decimal(n: nat)
    requires
        n <= usize::MAX,
    ensures
        count_of(decimal(n)) == n,
{
    let d = decimal(n);
    lemma_decimal_digits(n);
    reveal_strlit("inf");
    assert(d != inf_text()) by {
        if d == inf_text() {
            assert(is_digit(d[0]));
        }
    }
    let p = choose|p: int| digit_run(d, p);
    assert(digit_run(d, d.len() as int));
    if p < d.len() {
        assert(is_digit(d[p]));
    } else if p > d.len() {
    }
    assert(d.subrange(0, d.len() as int) =~= d);
}

} // verus!
