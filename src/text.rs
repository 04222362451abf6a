//! Operations on texts, seen as sequences of characters.
use vstd::prelude::*;

use crate::outside::{chars_of, string_of};

verus! {

/// The decimal digits of `n`, without leading zeros ("0" for zero).
pub open spec fn decimal(n: nat) -> Seq<char>
    decreases n,
{
    if n < 10 {
        seq![digit_char(n)]
    } else {
        decimal(n / 10).push(digit_char(n % 10))
    }
}

pub open spec fn digit_char(d: nat) -> char {
    if d == 0 { '0' } else if d == 1 { '1' } else if d == 2 { '2' } else if d == 3 { '3' }
    else if d == 4 { '4' } else if d == 5 { '5' } else if d == 6 { '6' } else if d == 7 { '7' }
    else if d == 8 { '8' } else { '9' }
}

fn digit_of(d: usize) -> (c: char)
    requires
        d < 10,
    ensures
        c == digit_char(d as nat),
{
    if d == 0 { '0' } else if d == 1 { '1' } else if d == 2 { '2' } else if d == 3 { '3' }
    else if d == 4 { '4' } else if d == 5 { '5' } else if d == 6 { '6' } else if d == 7 { '7' }
    else if d == 8 { '8' } else { '9' }
}

/// The decimal form of `n`.
pub fn decimal_chars(n: usize) -> (r: Vec<char>)
    ensures
        r@ == decimal(n as nat),
    decreases n,
{
    if n < 10 {
        vec![digit_of(n)]
    } else {
        let mut r = decimal_chars(n / 10);
        r.push(digit_of(n % 10));
        r
    }
}

/// The decimal form of `n`, as a `String`.
pub fn decimal_string(n: usize) -> (r: String)
    ensures
        r@ == decimal(n as nat),
{
    let cs = decimal_chars(n);
    string_of(cs.as_slice())
}

/// The characters of `s`.
pub fn to_chars(s: &str) -> (r: Vec<char>)
    ensures
        r@ == s@,
{
    chars_of(s)
}

/// The text made of `cs`.
pub fn to_text(cs: &[char]) -> (r: String)
    ensures
        r@ == cs@,
{
    string_of(cs)
}

/// Whether two character sequences are equal.
pub fn same(a: &[char], b: &[char]) -> (r: bool)
    ensures
        r == (a@ == b@),
{
    if a.len() != b.len() {
        return false;
    }
    let mut i: usize = 0;
    while i < a.len()
        invariant
            a@.len() == b@.len(),
            i <= a@.len(),
            forall|j: int| 0 <= j < i ==> a@[j] == b@[j],
        decreases a@.len() - i,
    {
        if a[i] != b[i] {
            return false;
        }
        i += 1;
    }
    assert(a@ =~= b@);
    true
}

/// Whether `a` equals the literal `b`.
pub fn is_word(a: &[char], b: &str) -> (r: bool)
    ensures
        r == (a@ == b@),
{
    let w = chars_of(b);
    same(a, w.as_slice())
}


/// Whether `p` is a prefix of `t`.
pub open spec fn starts(t: Seq<char>, p: Seq<char>) -> bool {
    p.len() <= t.len() && t.subrange(0, p.len() as int) == p
}

/// Whether `w` occurs in `t` at position `i`.
pub open spec fn occurs_at(t: Seq<char>, w: Seq<char>, i: int) -> bool {
    0 <= i && i + w.len() <= t.len() && t.subrange(i, i + w.len()) == w
}

/// Whether `w` occurs anywhere in `t`.
pub open spec fn occurs(t: Seq<char>, w: Seq<char>) -> bool {
    exists|i: int| occurs_at(t, w, i)
}

/// `t` with `after` put between any two characters and at both ends.
pub open spec fn interleave(t: Seq<char>, after: Seq<char>) -> Seq<char>
    decreases t.len(),
{
    if t.len() == 0 {
        after
    } else {
        after + seq![t[0]] + interleave(t.drop_first(), after)
    }
}

/// `t` with each occurrence of `before` replaced by `after`, scanning left to
/// right without overlaps; an empty `before` occurs between any two characters.
pub open spec fn replace_all(t: Seq<char>, before: Seq<char>, after: Seq<char>) -> Seq<char>
    decreases t.len(),
{
    if before.len() == 0 {
        interleave(t, after)
    } else if t.len() == 0 {
        t
    } else if starts(t, before) {
        after + replace_all(t.subrange(before.len() as int, t.len() as int), before, after)
    } else {
        seq![t[0]] + replace_all(t.drop_first(), before, after)
    }
}

/// The pieces of `t` around the occurrences of a non-empty `key`, the first
/// piece starting with `cur`.
pub open spec fn split_from(t: Seq<char>, key: Seq<char>, cur: Seq<char>) -> Seq<Seq<char>>
    decreases t.len(),
{
    if t.len() == 0 || key.len() == 0 {
        seq![cur + t]
    } else if starts(t, key) {
        seq![cur] + split_from(t.subrange(key.len() as int, t.len() as int), key, seq![])
    } else {
        split_from(t.drop_first(), key, cur.push(t[0]))
    }
}

/// Each character of `t` as a text of its own.
pub open spec fn singles(t: Seq<char>) -> Seq<Seq<char>> {
    Seq::new(t.len(), |i: int| seq![t[i]])
}

/// The pieces of `t` between occurrences of `key`; an empty key yields an
/// empty piece, each character, and an empty piece.
pub open spec fn split_all(t: Seq<char>, key: Seq<char>) -> Seq<Seq<char>> {
    if key.len() == 0 {
        seq![Seq::<char>::empty()] + singles(t) + seq![Seq::<char>::empty()]
    } else {
        split_from(t, key, seq![])
    }
}

/// The pieces concatenated with `key` between each two.
pub open spec fn join_all(pieces: Seq<Seq<char>>, key: Seq<char>) -> Seq<char>
    decreases pieces.len(),
{
    if pieces.len() == 0 {
        Seq::empty()
    } else if pieces.len() == 1 {
        pieces[0]
    } else {
        join_all(pieces.drop_last(), key) + key + pieces.last()
    }
}

/// The views of a sequence of character vectors.
pub open spec fn views(v: Seq<Vec<char>>) -> Seq<Seq<char>> {
    v.map_values(|p: Vec<char>| p@)
}

/// `t` written `n` times.
pub open spec fn repeat(t: Seq<char>, n: nat) -> Seq<char>
    decreases n,
{
    if n == 0 {
        Seq::empty()
    } else {
        repeat(t, (n - 1) as nat) + t
    }
}

/// Whether `w` occurs in `t` at `i` (exec).
fn occurs_here(t: &[char], w: &[char], i: usize) -> (r: bool)
    ensures
        r == occurs_at(t@, w@, i as int),
{
    if i > t.len() || w.len() > t.len() - i {
        return false;
    }
    let mut j: usize = 0;
    while j < w.len()
        invariant
            i + w@.len() <= t@.len(),
            t@.len() <= usize::MAX,
            j <= w@.len(),
            forall|k: int| 0 <= k < j ==> t@[i + k] == w@[k],
        decreases w@.len() - j,
    {
        assert(i + j < t@.len());
        if t[i + j] != w[j] {
            assert(t@.subrange(i as int, i + w@.len())[j as int] != w@[j as int]);
            return false;
        }
        j += 1;
    }
    assert(t@.subrange(i as int, i + w@.len()) =~= w@);
    true
}

/// Whether `word` occurs in `text`.
pub fn find(text: &[char], word: &[char]) -> (r: bool)
    ensures
        r == occurs(text@, word@),
{
    if word.len() == 0 {
        assert(occurs_at(text@, word@, 0)) by {
            assert(text@.subrange(0, 0) =~= word@);
        }
        return true;
    }
    if word.len() > text.len() {
        return false;
    }
    let mut i: usize = 0;
    while i <= text.len() - word.len()
        invariant
            1 <= word@.len() <= text@.len(),
            text@.len() <= usize::MAX,
            forall|k: int| 0 <= k < i ==> !occurs_at(text@, word@, k),
        decreases text@.len() - i + 1,
    {
        if occurs_here(text, word, i) {
            return true;
        }
        i += 1;
    }
    assert forall|k: int| !occurs_at(text@, word@, k) by {
        if 0 <= k < i {
        }
    }
    false
}

proof fn lemma_interleave_step(t: Seq<char>, after: Seq<char>, i: int)
    requires
        0 <= i < t.len(),
    ensures
        interleave(t.subrange(i, t.len() as int), after) == after + seq![t[i]] + interleave(
            t.subrange(i + 1, t.len() as int),
            after,
        ),
{
    assert(t.subrange(i, t.len() as int).drop_first() =~= t.subrange(i + 1, t.len() as int));
}

/// `text` with every occurrence of `before` replaced by `after`.
pub fn replace(text: &[char], before: &[char], after: &[char]) -> (r: Vec<char>)
    ensures
        r@ == replace_all(text@, before@, after@),
{
    let mut r: Vec<char> = Vec::new();
    let mut i: usize = 0;
    let n = text.len();
    assert(text@.subrange(0, n as int) =~= text@);
    while i < n
        invariant
            n == text@.len(),
            i <= n,
            r@ + replace_all(text@.subrange(i as int, n as int), before@, after@) == replace_all(
                text@,
                before@,
                after@,
            ),
        decreases n - i,
    {
        let ghost rest = text@.subrange(i as int, n as int);
        if before.len() == 0 {
            proof {
                lemma_interleave_step(text@, after@, i as int);
            }
            r.extend_from_slice(after);
            r.push(text[i]);
            i += 1;
            assert(r@ + replace_all(text@.subrange(i as int, n as int), before@, after@) =~= replace_all(
                text@, before@, after@));
        } else if occurs_here(text, before, i) {
            assert(starts(rest, before@)) by {
                assert(rest.subrange(0, before@.len() as int) =~= text@.subrange(
                    i as int,
                    i + before@.len(),
                ));
            }
            assert(rest.subrange(before@.len() as int, rest.len() as int) =~= text@.subrange(
                i + before@.len(),
                n as int,
            ));
            r.extend_from_slice(after);
            i += before.len();
            assert(r@ + replace_all(text@.subrange(i as int, n as int), before@, after@) =~= replace_all(
                text@, before@, after@));
        } else {
            assert(!starts(rest, before@)) by {
                if starts(rest, before@) {
                    assert(rest.subrange(0, before@.len() as int) =~= text@.subrange(
                        i as int,
                        i + before@.len(),
                    ));
                }
            }
            assert(rest.drop_first() =~= text@.subrange(i + 1, n as int));
            r.push(text[i]);
            i += 1;
            assert(r@ + replace_all(text@.subrange(i as int, n as int), before@, after@) =~= replace_all(
                text@, before@, after@));
        }
    }
    let ghost tail = text@.subrange(n as int, n as int);
    assert(tail =~= Seq::<char>::empty());
    if before.len() == 0 {
        r.extend_from_slice(after);
    }
    assert(r@ =~= replace_all(text@, before@, after@));
    r
}


/// The pieces of `text` between the occurrences of `key`.
pub fn split(text: &[char], key: &[char]) -> (r: Vec<Vec<char>>)
    ensures
        views(r@) == split_all(text@, key@),
{
    let n = text.len();
    let mut out: Vec<Vec<char>> = Vec::new();
    if key.len() == 0 {
        out.push(Vec::new());
        let mut i: usize = 0;
        while i < n
            invariant
                n == text@.len(),
                i <= n,
                views(out@) == seq![Seq::<char>::empty()] + singles(text@.subrange(0, i as int)),
            decreases n - i,
        {
            let ghost before = views(out@);
            let piece = vec![text[i]];
            assert(piece@ =~= seq![text@[i as int]]);
            out.push(piece);
            assert(views(out@) =~= before.push(seq![text@[i as int]]));
            i += 1;
            assert(views(out@) =~= seq![Seq::<char>::empty()] + singles(text@.subrange(0, i as int)));
        }
        out.push(Vec::new());
        assert(text@.subrange(0, n as int) =~= text@);
        assert(views(out@) =~= split_all(text@, key@));
        return out;
    }
    let mut cur: Vec<char> = Vec::new();
    let mut i: usize = 0;
    assert(text@.subrange(0, n as int) =~= text@);
    while i < n
        invariant
            n == text@.len(),
            i <= n,
            key@.len() > 0,
            views(out@) + split_from(text@.subrange(i as int, n as int), key@, cur@) == split_from(
                text@,
                key@,
                seq![],
            ),
        decreases n - i,
    {
        let ghost rest = text@.subrange(i as int, n as int);
        if occurs_here(text, key, i) {
            assert(starts(rest, key@)) by {
                assert(rest.subrange(0, key@.len() as int) =~= text@.subrange(
                    i as int,
                    i + key@.len(),
                ));
            }
            assert(rest.subrange(key@.len() as int, rest.len() as int) =~= text@.subrange(
                i + key@.len(),
                n as int,
            ));
            let piece = cur;
            cur = Vec::new();
            out.push(piece);
            i += key.len();
            assert(views(out@) + split_from(text@.subrange(i as int, n as int), key@, cur@)
                =~= split_from(text@, key@, seq![]));
        } else {
            assert(!starts(rest, key@)) by {
                if starts(rest, key@) {
                    assert(rest.subrange(0, key@.len() as int) =~= text@.subrange(
                        i as int,
                        i + key@.len(),
                    ));
                }
            }
            assert(rest.drop_first() =~= text@.subrange(i + 1, n as int));
            cur.push(text[i]);
            i += 1;
        }
    }
    assert(text@.subrange(n as int, n as int) =~= Seq::<char>::empty());
    assert(cur@ + Seq::<char>::empty() =~= cur@);
    out.push(cur);
    assert(views(out@) =~= split_from(text@, key@, seq![]));
    out
}

/// The pieces concatenated with `key` between each two.
pub fn join(pieces: &Vec<Vec<char>>, key: &[char]) -> (r: Vec<char>)
    ensures
        r@ == join_all(views(pieces@), key@),
{
    let mut r: Vec<char> = Vec::new();
    let mut i: usize = 0;
    while i < pieces.len()
        invariant
            i <= pieces@.len(),
            r@ == join_all(views(pieces@).subrange(0, i as int), key@),
        decreases pieces@.len() - i,
    {
        let ghost before = views(pieces@).subrange(0, i as int);
        if i > 0 {
            r.extend_from_slice(key);
        }
        r.extend_from_slice(pieces[i].as_slice());
        i += 1;
        proof {
            let now = views(pieces@).subrange(0, i as int);
            assert(now.drop_last() =~= before);
            if i == 1 {
                assert(r@ =~= now[0]);
            }
        }
    }
    assert(views(pieces@).subrange(0, i as int) =~= views(pieces@));
    r
}

/// `text` written `count` times.
pub fn repeat_text(text: &[char], count: usize) -> (r: Vec<char>)
    ensures
        r@ == repeat(text@, count as nat),
{
    let mut r: Vec<char> = Vec::new();
    if text.len() == 0 {
        assert(r@ =~= repeat(text@, count as nat)) by {
            lemma_repeat_empty(text@, count as nat);
        }
        return r;
    }
    let mut i: usize = 0;
    while i < count
        invariant
            i <= count,
            r@ == repeat(text@, i as nat),
        decreases count - i,
    {
        r.extend_from_slice(text);
        i += 1;
    }
    r
}

proof fn lemma_repeat_empty(t: Seq<char>, n: nat)
    requires
        t.len() == 0,
    ensures
        repeat(t, n) =~= t,
    decreases n,
{
    if n > 0 {
        lemma_repeat_empty(t, (n - 1) as nat);
    }
}

/// Joining, from the front: the first piece, the key, then the rest joined.
pub proof fn lemma_join_front(first: Seq<char>, rest: Seq<Seq<char>>, key: Seq<char>)
    requires
        rest.len() > 0,
    ensures
        join_all(seq![first] + rest, key) == first + key + join_all(rest, key),
    decreases rest.len(),
{
    let all = seq![first] + rest;
    if rest.len() == 1 {
        assert(all.drop_last() =~= seq![first]);
        assert(all.last() == rest[0]);
        assert(join_all(seq![first], key) == first);
        assert(rest.drop_last() =~= Seq::<Seq<char>>::empty());
        assert(join_all(rest, key) == rest[0]);
    } else {
        lemma_join_front(first, rest.drop_last(), key);
        assert(all.drop_last() =~= seq![first] + rest.drop_last());
        assert(all.last() == rest.last());
        assert(first + key + (join_all(rest.drop_last(), key) + key + rest.last()) =~= first + key
            + join_all(rest.drop_last(), key) + key + rest.last());
    }
}

proof fn lemma_split_from_nonempty(t: Seq<char>, key: Seq<char>, cur: Seq<char>)
    ensures
        split_from(t, key, cur).len() > 0,
    decreases t.len(),
{
    if t.len() == 0 || key.len() == 0 {
    } else if starts(t, key) {
    } else {
        lemma_split_from_nonempty(t.drop_first(), key, cur.push(t[0]));
    }
}

proof fn lemma_join_split_from(t: Seq<char>, key: Seq<char>, cur: Seq<char>)
    requires
        key.len() > 0,
    ensures
        join_all(split_from(t, key, cur), key) == cur + t,
    decreases t.len(),
{
    if t.len() == 0 {
        assert(cur + t =~= cur);
    } else if starts(t, key) {
        let rest = t.subrange(key.len() as int, t.len() as int);
        lemma_split_from_nonempty(rest, key, seq![]);
        lemma_join_split_from(rest, key, seq![]);
        lemma_join_front(cur, split_from(rest, key, seq![]), key);
        assert(t =~= t.subrange(0, key.len() as int) + rest);
        assert(cur + key + (Seq::<char>::empty() + rest) =~= cur + t);
    } else {
        lemma_join_split_from(t.drop_first(), key, cur.push(t[0]));
        assert(cur.push(t[0]) + t.drop_first() =~= cur + t);
    }
}

proof fn lemma_join_singles(t: Seq<char>)
    ensures
        join_all(singles(t) + seq![Seq::<char>::empty()], Seq::<char>::empty()) == t,
    decreases t.len(),
{
    let e = Seq::<char>::empty();
    if t.len() == 0 {
        assert(singles(t) + seq![e] =~= seq![e]);
    } else {
        lemma_join_singles(t.drop_first());
        assert(singles(t) + seq![e] =~= seq![seq![t[0]]] + (singles(t.drop_first()) + seq![e]));
        lemma_join_front(seq![t[0]], singles(t.drop_first()) + seq![e], e);
        assert(seq![t[0]] + e + t.drop_first() =~= t);
    }
}

/// Splitting a text at a key and joining the pieces with the same key gives
/// the text back, for every text and every key.
pub proof fn lemma_split_then_join(t: Seq<char>, key: Seq<char>)
    ensures
        join_all(split_all(t, key), key) == t,
{
    if key.len() == 0 {
        let e = Seq::<char>::empty();
        lemma_join_singles(t);
        assert(split_all(t, key) =~= seq![e] + (singles(t) + seq![e]));
        lemma_join_front(e, singles(t) + seq![e], key);
        assert(e + key + t =~= t);
    } else {
        lemma_join_split_from(t, key, seq![]);
        assert(Seq::<char>::empty() + t =~= t);
    }
}


proof fn lemma_skip_piece(p: Seq<char>, t: Seq<char>, key: Seq<char>, cur: Seq<char>)
    requires
        key.len() > 0,
        forall|j: int| 0 <= j < p.len() ==> !occurs_at(p + t, key, j),
    ensures
        split_from(p + t, key, cur) == split_from(t, key, cur + p),
    decreases p.len(),
{
    if p.len() == 0 {
        assert(p + t =~= t);
        assert(cur + p =~= cur);
    } else {
        let pt = p + t;
        assert(!occurs_at(pt, key, 0));
        assert(!starts(pt, key)) by {
            if starts(pt, key) {
                assert(occurs_at(pt, key, 0));
            }
        }
        let q = p.drop_first();
        assert(pt.drop_first() =~= q + t);
        assert forall|j: int| 0 <= j < q.len() implies !occurs_at(q + t, key, j) by {
            assert(!occurs_at(pt, key, j + 1));
            if j + key.len() <= (q + t).len() {
                assert((q + t).subrange(j, j + key.len()) =~= pt.subrange(j + 1, j + 1 + key.len()));
            }
        }
        lemma_skip_piece(q, t, key, cur.push(p[0]));
        assert(cur.push(p[0]) + q =~= cur + p);
    }
}

/// Whether no occurrence of `key` starts inside `p`, with `key` after it.
pub open spec fn clean(p: Seq<char>, key: Seq<char>) -> bool {
    forall|j: int| 0 <= j < p.len() ==> !occurs_at(p + key, key, j)
}

proof fn lemma_clean_prefix(p: Seq<char>, key: Seq<char>, t: Seq<char>, x: Seq<char>)
    requires
        clean(p, key),
        t =~= p + key + x || t =~= p,
    ensures
        forall|j: int| 0 <= j < p.len() ==> !occurs_at(t, key, j),
{
    assert forall|j: int| 0 <= j < p.len() implies !occurs_at(t, key, j) by {
        assert(!occurs_at(p + key, key, j));
        if occurs_at(t, key, j) {
            assert(t.subrange(j, j + key.len()) =~= (p + key).subrange(j, j + key.len()));
        }
    }
}

/// Joining pieces with a non-empty key and splitting the result at the same
/// key gives the pieces back, when no occurrence of the key starts inside a
/// piece (the key that follows it counted).
pub proof fn lemma_join_then_split(ps: Seq<Seq<char>>, key: Seq<char>)
    requires
        key.len() > 0,
        ps.len() > 0,
        forall|i: int| 0 <= i < ps.len() ==> clean(#[trigger] ps[i], key),
    ensures
        split_all(join_all(ps, key), key) == ps,
    decreases ps.len(),
{
    lemma_join_split_pieces(ps, key, seq![]);
    assert(seq![] + ps =~= ps);
}

proof fn lemma_join_split_pieces(ps: Seq<Seq<char>>, key: Seq<char>, done: Seq<Seq<char>>)
    requires
        key.len() > 0,
        ps.len() > 0,
        forall|i: int| 0 <= i < ps.len() ==> clean(#[trigger] ps[i], key),
    ensures
        split_from(join_all(ps, key), key, seq![]) == ps,
    decreases ps.len(),
{
    let p = ps[0];
    let e = Seq::<char>::empty();
    assert(clean(p, key));
    if ps.len() == 1 {
        assert(join_all(ps, key) == p);
        lemma_clean_prefix(p, key, p, e);
        assert(p + e =~= p);
        lemma_skip_piece(p, e, key, e);
        assert(e + p =~= p);
        assert(split_from(e, key, p) =~= seq![p]);
        assert(seq![p] =~= ps);
    } else {
        let rest = ps.drop_first();
        assert forall|i: int| 0 <= i < rest.len() implies clean(#[trigger] rest[i], key) by {
            assert(rest[i] == ps[i + 1]);
        }
        lemma_join_split_pieces(rest, key, done);
        let jr = join_all(rest, key);
        assert(ps =~= seq![p] + rest);
        lemma_join_front(p, rest, key);
        let whole = p + key + jr;
        assert(join_all(ps, key) == whole);
        lemma_clean_prefix(p, key, whole, jr);
        assert(whole =~= p + (key + jr));
        lemma_skip_piece(p, key + jr, key, e);
        assert(e + p =~= p);
        let kj = key + jr;
        assert(starts(kj, key)) by {
            assert(kj.subrange(0, key.len() as int) =~= key);
        }
        assert(kj.subrange(key.len() as int, kj.len() as int) =~= jr);
        assert(split_from(kj, key, p) == seq![p] + split_from(jr, key, seq![]));
    }
}

/// Lexicographic order on texts, character by character by code point (the
/// order of `String`'s `Ord`, which compares the UTF-8 bytes).
pub open spec fn text_le(a: Seq<char>, b: Seq<char>) -> bool
    decreases a.len(),
{
    if a.len() == 0 {
        true
    } else if b.len() == 0 {
        false
    } else if a[0] != b[0] {
        a[0] < b[0]
    } else {
        text_le(a.drop_first(), b.drop_first())
    }
}

/// Whether each text is at most the next one.
pub open spec fn sorted(s: Seq<Seq<char>>) -> bool {
    forall|i: int| 0 <= i < s.len() - 1 ==> text_le(#[trigger] s[i], s[i + 1])
}

/// `x` put into `s` after the last element that is at most `x`.
pub open spec fn insert_sorted(s: Seq<Seq<char>>, x: Seq<char>) -> Seq<Seq<char>>
    decreases s.len(),
{
    if s.len() == 0 {
        seq![x]
    } else if text_le(s.last(), x) {
        s.push(x)
    } else {
        insert_sorted(s.drop_last(), x).push(s.last())
    }
}

/// The texts of `s` in non-decreasing order.
pub open spec fn sort_texts(s: Seq<Seq<char>>) -> Seq<Seq<char>>
    decreases s.len(),
{
    if s.len() == 0 {
        s
    } else {
        insert_sorted(sort_texts(s.drop_last()), s.last())
    }
}

/// Any two texts are ordered one way or the other.
pub proof fn lemma_text_le_total(a: Seq<char>, b: Seq<char>)
    ensures
        text_le(a, b) || text_le(b, a),
    decreases a.len(),
{
    if a.len() > 0 && b.len() > 0 && a[0] == b[0] {
        lemma_text_le_total(a.drop_first(), b.drop_first());
    }
}

proof fn lemma_insert_sorted(s: Seq<Seq<char>>, x: Seq<char>)
    requires
        sorted(s),
    ensures
        sorted(insert_sorted(s, x)),
        insert_sorted(s, x).len() == s.len() + 1,
        insert_sorted(s, x).last() == x || (s.len() > 0 && insert_sorted(s, x).last() == s.last()),
    decreases s.len(),
{
    if s.len() == 0 {
    } else if text_le(s.last(), x) {
        let r = s.push(x);
        assert forall|i: int| 0 <= i < r.len() - 1 implies text_le(#[trigger] r[i], r[i + 1]) by {
            if i < s.len() - 1 {
                assert(r[i] == s[i] && r[i + 1] == s[i + 1]);
            }
        }
    } else {
        let t = s.drop_last();
        assert(sorted(t)) by {
            assert forall|i: int| 0 <= i < t.len() - 1 implies text_le(#[trigger] t[i], t[i + 1]) by {
                assert(t[i] == s[i] && t[i + 1] == s[i + 1]);
            }
        }
        lemma_insert_sorted(t, x);
        lemma_text_le_total(s.last(), x);
        let u = insert_sorted(t, x);
        let r = u.push(s.last());
        assert(text_le(u.last(), s.last())) by {
            if u.last() != x {
                assert(t.len() > 0 && u.last() == t.last());
                assert(s[t.len() - 1] == t.last());
            }
        }
        assert forall|i: int| 0 <= i < r.len() - 1 implies text_le(#[trigger] r[i], r[i + 1]) by {
            if i < u.len() - 1 {
                assert(r[i] == u[i] && r[i + 1] == u[i + 1]);
            } else {
                assert(r[i] == u.last());
            }
        }
    }
}

/// Sorting yields a non-decreasing sequence of the same length.
pub proof fn lemma_sort_sorted(s: Seq<Seq<char>>)
    ensures
        sorted(sort_texts(s)),
        sort_texts(s).len() == s.len(),
    decreases s.len(),
{
    if s.len() > 0 {
        lemma_sort_sorted(s.drop_last());
        lemma_insert_sorted(sort_texts(s.drop_last()), s.last());
    }
}

/// Sorting a sequence that is already in order leaves it unchanged.
pub proof fn lemma_sort_of_sorted(s: Seq<Seq<char>>)
    requires
        sorted(s),
    ensures
        sort_texts(s) == s,
    decreases s.len(),
{
    if s.len() > 0 {
        let t = s.drop_last();
        assert(sorted(t)) by {
            assert forall|i: int| 0 <= i < t.len() - 1 implies text_le(#[trigger] t[i], t[i + 1]) by {
                assert(t[i] == s[i] && t[i + 1] == s[i + 1]);
            }
        }
        lemma_sort_of_sorted(t);
        if t.len() > 0 {
            assert(text_le(s[t.len() - 1], s[t.len() as int]));
            assert(t.last() == s[t.len() - 1]);
        }
        assert(t.push(s.last()) =~= s);
    }
}

proof fn lemma_insert_keeps(s: Seq<Seq<char>>, x: Seq<char>)
    ensures
        insert_sorted(s, x).to_multiset() == s.to_multiset().insert(x),
    decreases s.len(),
{
    broadcast use vstd::seq_lib::to_multiset_build, vstd::seq_lib::group_to_multiset_ensures, vstd::multiset::group_multiset_axioms;

    if s.len() == 0 {
        assert(seq![x] =~= Seq::<Seq<char>>::empty().push(x));
        assert(Seq::<Seq<char>>::empty().to_multiset() =~= vstd::multiset::Multiset::empty());
    } else if text_le(s.last(), x) {
    } else {
        lemma_insert_keeps(s.drop_last(), x);
        assert(s.drop_last().push(s.last()) =~= s);
        assert(insert_sorted(s.drop_last(), x).push(s.last()).to_multiset() =~= s.to_multiset().insert(
            x,
        ));
    }
}

/// Sorting keeps the same texts, each as often as before.
pub proof fn lemma_sort_keeps(s: Seq<Seq<char>>)
    ensures
        sort_texts(s).to_multiset() == s.to_multiset(),
    decreases s.len(),
{
    broadcast use vstd::seq_lib::to_multiset_build, vstd::seq_lib::group_to_multiset_ensures, vstd::multiset::group_multiset_axioms;

    if s.len() == 0 {
    } else {
        lemma_sort_keeps(s.drop_last());
        lemma_insert_keeps(sort_texts(s.drop_last()), s.last());
        assert(s.drop_last().push(s.last()) =~= s);
    }
}

/// Sorting twice is sorting once.
pub proof fn lemma_sort_idempotent(s: Seq<Seq<char>>)
    ensures
        sort_texts(sort_texts(s)) == sort_texts(s),
{
    lemma_sort_sorted(s);
    lemma_sort_of_sorted(sort_texts(s));
}

/// Whether `a` comes at or before `b` in text order.
pub fn text_at_most(a: &[char], b: &[char]) -> (r: bool)
    ensures
        r == text_le(a@, b@),
{
    let mut i: usize = 0;
    assert(a@.subrange(0, a@.len() as int) =~= a@);
    assert(b@.subrange(0, b@.len() as int) =~= b@);
    while i < a.len() && i < b.len() && a[i] == b[i]
        invariant
            i <= a@.len(),
            i <= b@.len(),
            text_le(a@, b@) == text_le(a@.subrange(i as int, a@.len() as int), b@.subrange(
                i as int,
                b@.len() as int,
            )),
        decreases a@.len() - i,
    {
        let ghost sa = a@.subrange(i as int, a@.len() as int);
        let ghost sb = b@.subrange(i as int, b@.len() as int);
        assert(sa.drop_first() =~= a@.subrange(i + 1, a@.len() as int));
        assert(sb.drop_first() =~= b@.subrange(i + 1, b@.len() as int));
        assert(sa[0] == a@[i as int] && sb[0] == b@[i as int]);
        i += 1;
    }
    let ghost sa = a@.subrange(i as int, a@.len() as int);
    let ghost sb = b@.subrange(i as int, b@.len() as int);
    if i == a.len() {
        assert(sa.len() == 0);
        true
    } else if i == b.len() {
        assert(sb.len() == 0);
        false
    } else {
        assert(sa[0] == a@[i as int] && sb[0] == b@[i as int]);
        a[i] < b[i]
    }
}

fn insert_text(s: &mut Vec<Vec<char>>, x: Vec<char>)
    ensures
        views(final(s)@) == insert_sorted(views(old(s)@), x@),
    decreases old(s)@.len(),
{
    let ghost v = views(s@);
    if s.len() == 0 {
        s.push(x);
        assert(views(s@) =~= seq![x@]);
        return;
    }
    let last = s.pop().unwrap();
    assert(views(s@) =~= v.drop_last());
    assert(last@ == v.last());
    if text_at_most(last.as_slice(), x.as_slice()) {
        s.push(last);
        let ghost xv = x@;
        s.push(x);
        assert(views(s@) =~= v.push(xv));
    } else {
        insert_text(s, x);
        let ghost mid = views(s@);
        s.push(last);
        assert(views(s@) =~= mid.push(v.last()));
    }
}

/// The texts in non-decreasing order.
pub fn sort(texts: Vec<Vec<char>>) -> (r: Vec<Vec<char>>)
    ensures
        views(r@) == sort_texts(views(texts@)),
{
    let mut r: Vec<Vec<char>> = Vec::new();
    let mut rest = texts;
    let ghost all = views(rest@);
    let mut taken: Vec<Vec<char>> = Vec::new();
    // take the texts from the front, keeping `r` the sort of those taken
    let n = rest.len();
    let mut i: usize = 0;
    while i < n
        invariant
            n == all.len(),
            i <= n,
            rest@.len() == n,
            views(rest@) == all,
            views(r@) == sort_texts(all.subrange(0, i as int)),
        decreases n - i,
    {
        let x = rest[i].clone();
        assert(x@ == all[i as int]);
        insert_text(&mut r, x);
        proof {
            let p = all.subrange(0, i + 1);
            assert(p.drop_last() =~= all.subrange(0, i as int));
        }
        i += 1;
    }
    assert(all.subrange(0, n as int) =~= all);
    r
}

} // verus!
