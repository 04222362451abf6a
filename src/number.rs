//! What the library decides about numbers without computing with them: which
//! tokens are decimal literals, and the whole count that a number's text
//! stands for when it is used as an index or a length.
use vstd::prelude::*;

verus! {

pub open spec fn is_digit(c: char) -> bool {
    '0' <= c && c <= '9'
}

pub open spec fn is_sign(c: char) -> bool {
    c == '+' || c == '-'
}

pub open spec fn is_exp_mark(c: char) -> bool {
    c == 'e' || c == 'E'
}

/// Digits with at most one decimal point among them, and at least one digit.
pub open spec fn is_mantissa(m: Seq<char>) -> bool {
    &&& forall|i: int| 0 <= i < m.len() ==> is_digit(#[trigger] m[i]) || m[i] == '.'
    &&& forall|i: int, j: int|
        #![trigger m[i], m[j]]
        0 <= i < j < m.len() && m[i] == '.' ==> m[j] != '.'
    &&& exists|i: int| 0 <= i < m.len() && is_digit(#[trigger] m[i])
}

/// An exponent without its sign.
pub open spec fn exponent_digits(e: Seq<char>) -> Seq<char> {
    if e.len() > 0 && is_sign(e[0]) { e.drop_first() } else { e }
}

/// An optional sign, then one or more digits.
pub open spec fn is_exponent(e: Seq<char>) -> bool {
    &&& exponent_digits(e).len() > 0
    &&& forall|i: int|
        0 <= i < exponent_digits(e).len() ==> is_digit(#[trigger] exponent_digits(e)[i])
}

/// The text without a leading sign.
pub open spec fn unsigned_part(s: Seq<char>) -> Seq<char> {
    if s.len() > 0 && is_sign(s[0]) { s.drop_first() } else { s }
}

/// A finite decimal literal: an optional sign, a mantissa, and an optional
/// exponent after `e` or `E` (`5`, `-0.25`, `.5`, `3.`, `1e-3`).
pub open spec fn is_decimal(s: Seq<char>) -> bool {
    let u = unsigned_part(s);
    is_mantissa(u) || exists|k: int|
        0 <= k < u.len() && is_exp_mark(#[trigger] u[k]) && is_mantissa(u.subrange(0, k))
            && is_exponent(u.subrange(k + 1, u.len() as int))
}

fn digit_here(c: char) -> (r: bool)
    ensures
        r == is_digit(c),
{
    '0' <= c && c <= '9'
}

/// Whether `s[from..to]` is a mantissa.
fn mantissa_ok(s: &[char], from: usize, to: usize) -> (r: bool)
    requires
        from <= to <= s@.len(),
    ensures
        r == is_mantissa(s@.subrange(from as int, to as int)),
{
    let ghost m = s@.subrange(from as int, to as int);
    let mut i: usize = from;
    let mut points: usize = 0;
    let mut digits: bool = false;
    while i < to
        invariant
            from <= i <= to <= s@.len(),
            m == s@.subrange(from as int, to as int),
            forall|k: int| 0 <= k < i - from ==> is_digit(#[trigger] m[k]) || m[k] == '.',
            points <= 1,
            points == 0 ==> forall|k: int| 0 <= k < i - from ==> #[trigger] m[k] != '.',
            forall|a: int, b: int|
                #![trigger m[a], m[b]]
                0 <= a < b < i - from && m[a] == '.' ==> m[b] != '.',
            points == 1 ==> exists|k: int| 0 <= k < i - from && #[trigger] m[k] == '.',
            digits == exists|k: int| 0 <= k < i - from && is_digit(#[trigger] m[k]),
        decreases to - i,
    {
        let c = s[i];
        assert(m[i - from] == c);
        if c == '.' {
            if points == 1 {
                let ghost j = choose|k: int| 0 <= k < i - from && #[trigger] m[k] == '.';
                assert(m[j] == '.' && m[i - from] == '.');
                return false;
            }
            points = 1;
        } else if digit_here(c) {
            digits = true;
        } else {
            return false;
        }
        i += 1;
    }
    if !digits {
        return false;
    }
    assert forall|a: int, b: int|
        #![trigger m[a], m[b]]
        0 <= a < b < m.len() && m[a] == '.' implies m[b] != '.' by {
        if m[b] == '.' {
            assert(points == 1);
        }
    }
    true
}

/// Whether `s[from..to]` is an exponent.
fn exponent_ok(s: &[char], from: usize, to: usize) -> (r: bool)
    requires
        from <= to <= s@.len(),
    ensures
        r == is_exponent(s@.subrange(from as int, to as int)),
{
    let ghost e = s@.subrange(from as int, to as int);
    let mut i = from;
    if i < to && (s[i] == '+' || s[i] == '-') {
        i += 1;
    }
    let ghost d = s@.subrange(i as int, to as int);
    assert(d =~= exponent_digits(e));
    if i == to {
        assert(d.len() == 0);
        return false;
    }
    let start = i;
    while i < to
        invariant
            from <= start <= i <= to <= s@.len(),
            d == s@.subrange(start as int, to as int),
            d == exponent_digits(e),
            e == s@.subrange(from as int, to as int),
            forall|k: int| 0 <= k < i - start ==> is_digit(#[trigger] d[k]),
        decreases to - i,
    {
        assert(d[i - start] == s@[i as int]);
        if !digit_here(s[i]) {
            assert(!is_digit(exponent_digits(e)[i - start]));
            return false;
        }
        i += 1;
    }
    true
}

/// Whether `s` is a finite decimal literal.
pub fn decimal_literal(s: &[char]) -> (r: bool)
    ensures
        r == is_decimal(s@),
{
    let n = s.len();
    let start: usize = if n > 0 && (s[0] == '+' || s[0] == '-') { 1 } else { 0 };
    let ghost u = unsigned_part(s@);
    assert(u =~= s@.subrange(start as int, n as int));
    let mut k = start;
    while k < n && !(s[k] == 'e' || s[k] == 'E')
        invariant
            start <= k <= n == s@.len(),
            forall|j: int| start <= j < k ==> !is_exp_mark(#[trigger] s@[j]),
        decreases n - k,
    {
        k += 1;
    }
    if k == n {
        let r = mantissa_ok(s, start, n);
        assert(!exists|j: int|
            0 <= j < u.len() && is_exp_mark(#[trigger] u[j]) && is_mantissa(u.subrange(0, j))
                && is_exponent(u.subrange(j + 1, u.len() as int))) by {
            assert forall|j: int| 0 <= j < u.len() implies !is_exp_mark(#[trigger] u[j]) by {
                assert(u[j] == s@[start + j]);
            }
        }
        return r;
    }
    let ghost kk = k - start;
    assert(u[kk] == s@[k as int]);
    assert(!is_mantissa(u)) by {
        assert(!(is_digit(u[kk]) || u[kk] == '.'));
    }
    let r = mantissa_ok(s, start, k) && exponent_ok(s, k + 1, n);
    assert(u.subrange(0, kk) =~= s@.subrange(start as int, k as int));
    assert(u.subrange(kk + 1, u.len() as int) =~= s@.subrange(k + 1, n as int));
    if !r {
        assert forall|j: int|
            0 <= j < u.len() && is_exp_mark(#[trigger] u[j]) && is_mantissa(
                u.subrange(0, j),
            ) implies !is_exponent(u.subrange(j + 1, u.len() as int)) by {
            if j < kk {
                assert(u[j] == s@[start + j]);
            } else if j > kk {
                let m = u.subrange(0, j);
                assert(m[kk] == u[kk]);
            }
        }
    }
    r
}

/// The value of a run of digits.
pub open spec fn digits_value(s: Seq<char>) -> nat
    decreases s.len(),
{
    if s.len() == 0 {
        0
    } else {
        digits_value(s.drop_last()) * 10 + ((s.last() as u32) - ('0' as u32)) as nat
    }
}

/// Whether `t` starts with exactly `p` digits.
pub open spec fn digit_run(t: Seq<char>, p: int) -> bool {
    &&& 0 <= p <= t.len()
    &&& forall|i: int| 0 <= i < p ==> is_digit(#[trigger] t[i])
    &&& p == t.len() || !is_digit(t[p])
}

pub open spec fn inf_text() -> Seq<char> {
    seq!['i', 'n', 'f']
}

/// The whole count that a number's text stands for, as a conversion to
/// `usize` takes it: the integer part, 0 for anything negative or not a
/// number, saturating at `usize::MAX`.
pub open spec fn count_of(t: Seq<char>) -> nat {
    if t.len() > 0 && t[0] == '-' {
        0
    } else if t == inf_text() {
        usize::MAX as nat
    } else {
        let p = choose|p: int| digit_run(t, p);
        let v = digits_value(t.subrange(0, p));
        if v > usize::MAX { usize::MAX as nat } else { v }
    }
}

proof fn lemma_digit_run_unique(t: Seq<char>, p: int, q: int)
    requires
        digit_run(t, p),
        digit_run(t, q),
    ensures
        p == q,
{
    if p < q {
        assert(is_digit(t[p]));
    } else if q < p {
        assert(is_digit(t[q]));
    }
}

/// The whole count that the number text `t` stands for.
pub fn count_from(t: &[char]) -> (r: usize)
    ensures
        r as nat == count_of(t@),
{
    let n = t.len();
    if n > 0 && t[0] == '-' {
        return 0;
    }
    if n == 3 && t[0] == 'i' && t[1] == 'n' && t[2] == 'f' {
        assert(t@ =~= inf_text());
        return usize::MAX;
    }
    assert(t@ != inf_text()) by {
        if t@ == inf_text() {
            assert(t@[0] == 'i' && t@[1] == 'n' && t@[2] == 'f');
        }
    }
    let mut i: usize = 0;
    let mut acc: usize = 0;
    while i < n && digit_here(t[i])
        invariant
            i <= n == t@.len(),
            forall|k: int| 0 <= k < i ==> is_digit(#[trigger] t@[k]),
            acc as nat == if digits_value(t@.subrange(0, i as int)) > usize::MAX {
                usize::MAX as nat
            } else {
                digits_value(t@.subrange(0, i as int))
            },
        decreases n - i,
    {
        let d = (t[i] as u32 - '0' as u32) as usize;
        let ghost old_v = digits_value(t@.subrange(0, i as int));
        assert(t@.subrange(0, i + 1).drop_last() =~= t@.subrange(0, i as int));
        let ghost new_v = digits_value(t@.subrange(0, i + 1));
        assert(new_v == old_v * 10 + d);
        if acc == usize::MAX {
            assert(new_v >= old_v) by (nonlinear_arith)
                requires new_v == old_v * 10 + d;
        } else if acc > (usize::MAX - d) / 10 {
            assert(new_v > usize::MAX) by (nonlinear_arith)
                requires new_v == old_v * 10 + d, old_v == acc, acc > (usize::MAX - d) / 10, d < 10;
            acc = usize::MAX;
        } else {
            assert(acc * 10 + d <= usize::MAX) by (nonlinear_arith)
                requires acc <= (usize::MAX - d) / 10, d < 10;
            acc = acc * 10 + d;
        }
        i += 1;
    }
    assert(digit_run(t@, i as int));
    proof {
        let p = choose|p: int| digit_run(t@, p);
        lemma_digit_run_unique(t@, p, i as int);
    }
    acc
}

} // verus!
