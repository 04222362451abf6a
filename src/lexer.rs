//! The lexer: source text to tokens, and the escape pass over string literals.
use vstd::prelude::*;

use crate::text::views;

verus! {

/// What the lexer knows after reading part of the text.
pub struct Lex {
    pub tokens: Seq<Seq<char>>,
    pub buffer: Seq<char>,
    /// Depth of `( )` nesting; may go below zero on unbalanced input.
    pub strings: int,
    /// Depth of `[ ]` nesting outside strings.
    pub lists: int,
    pub comment: bool,
    pub escape: bool,
}

pub open spec fn lex_start() -> Lex {
    Lex { tokens: seq![], buffer: seq![], strings: 0, lists: 0, comment: false, escape: false }
}

/// Space, tab, carriage return, newline and the ideographic space.
pub open spec fn is_space(c: char) -> bool {
    c == ' ' || c == '\t' || c == '\r' || c == '\n' || c == '\u{3000}'
}

/// Whether the lexer stands outside any bracket and comment.
pub open spec fn at_top(st: Lex) -> bool {
    st.strings == 0 && st.lists == 0 && !st.comment
}

/// What an ordinary character adds to the buffer.
pub open spec fn plain_chars(st: Lex, c: char) -> Seq<char> {
    if at_top(st) {
        if st.escape {
            if c == 'n' {
                seq!['\\', 'n']
            } else if c == 't' {
                seq!['\\', 't']
            } else if c == 'r' {
                seq!['\\', 'r']
            } else {
                seq![c]
            }
        } else {
            seq![c]
        }
    } else if st.escape {
        seq!['\\', c]
    } else {
        seq![c]
    }
}

/// One character read. With `split`, whitespace at the top level separates
/// tokens; without it (the escape pass over a string literal) every
/// character goes to the buffer.
pub open spec fn lex_step(st: Lex, c0: char, split: bool) -> Lex {
    let c = if split && is_space(c0) { ' ' } else { c0 };
    if c == '\\' && !st.escape {
        Lex { escape: true, ..st }
    } else if c == '(' && !st.comment && !st.escape {
        Lex { strings: st.strings + 1, buffer: st.buffer.push('('), ..st }
    } else if c == ')' && !st.comment && !st.escape {
        Lex { strings: st.strings - 1, buffer: st.buffer.push(')'), ..st }
    } else if c == '#' && !st.escape {
        Lex { comment: !st.comment, buffer: st.buffer.push('#'), ..st }
    } else if c == '[' && !st.comment && st.strings == 0 && !st.escape {
        Lex { lists: st.lists + 1, buffer: st.buffer.push('['), ..st }
    } else if c == ']' && !st.comment && st.strings == 0 && !st.escape {
        Lex { lists: st.lists - 1, buffer: st.buffer.push(']'), ..st }
    } else if split && c == ' ' && at_top(st) && !st.escape {
        if st.buffer.len() > 0 {
            Lex { tokens: st.tokens.push(st.buffer), buffer: seq![], ..st }
        } else {
            st
        }
    } else {
        Lex { buffer: st.buffer + plain_chars(st, c), escape: false, ..st }
    }
}

/// The lexer after reading all of `s`.
pub open spec fn lex_run(st: Lex, s: Seq<char>, split: bool) -> Lex
    decreases s.len(),
{
    if s.len() == 0 {
        st
    } else {
        lex_step(lex_run(st, s.drop_last(), split), s.last(), split)
    }
}

/// The tokens of a program.
pub open spec fn tokens_of(s: Seq<char>) -> Seq<Seq<char>> {
    let f = lex_run(lex_start(), s, true);
    if f.buffer.len() > 0 {
        f.tokens.push(f.buffer)
    } else {
        f.tokens
    }
}

/// The text of a string literal after the escape pass.
pub open spec fn unescape(s: Seq<char>) -> Seq<char> {
    lex_run(lex_start(), s, false).buffer
}

fn space_here(c: char) -> (r: bool)
    ensures
        r == is_space(c),
{
    c == ' ' || c == '\t' || c == '\r' || c == '\n' || c == '\u{3000}'
}

/// Reads all of `code`; returns the tokens completed and the buffer left.
fn scan(code: &[char], split: bool) -> (r: (Vec<Vec<char>>, Vec<char>))
    ensures
        views(r.0@) == lex_run(lex_start(), code@, split).tokens,
        r.1@ == lex_run(lex_start(), code@, split).buffer,
{
    let n = code.len();
    let mut tokens: Vec<Vec<char>> = Vec::new();
    let mut buffer: Vec<char> = Vec::new();
    // each depth is held as the count of openings and of closings
    let mut s_open: usize = 0;
    let mut s_close: usize = 0;
    let mut l_open: usize = 0;
    let mut l_close: usize = 0;
    let mut comment = false;
    let mut escape = false;
    let mut i: usize = 0;
    while i < n
        invariant
            n == code@.len(),
            i <= n,
            s_open + s_close + l_open + l_close <= i,
            ({
                let st = lex_run(lex_start(), code@.subrange(0, i as int), split);
                &&& views(tokens@) == st.tokens
                &&& buffer@ == st.buffer
                &&& st.strings == s_open - s_close
                &&& st.lists == l_open - l_close
                &&& st.comment == comment
                &&& st.escape == escape
            }),
        decreases n - i,
    {
        proof {
            let p = code@.subrange(0, i + 1);
            assert(p.drop_last() =~= code@.subrange(0, i as int));
            assert(p.last() == code@[i as int]);
        }
        let c0 = code[i];
        let c = if split && space_here(c0) { ' ' } else { c0 };
        let top = s_open == s_close && l_open == l_close && !comment;
        if c == '\\' && !escape {
            escape = true;
        } else if c == '(' && !comment && !escape {
            s_open += 1;
            buffer.push('(');
        } else if c == ')' && !comment && !escape {
            s_close += 1;
            buffer.push(')');
        } else if c == '#' && !escape {
            comment = !comment;
            buffer.push('#');
        } else if c == '[' && !comment && s_open == s_close && !escape {
            l_open += 1;
            buffer.push('[');
        } else if c == ']' && !comment && s_open == s_close && !escape {
            l_close += 1;
            buffer.push(']');
        } else if split && c == ' ' && top && !escape {
            if buffer.len() > 0 {
                let ghost before = views(tokens@);
                let b = buffer;
                buffer = Vec::new();
                tokens.push(b);
                assert(views(tokens@) =~= before.push(b@));
            }
        } else {
            if top {
                if escape {
                    if c == 'n' {
                        buffer.push('\\');
                        buffer.push('n');
                    } else if c == 't' {
                        buffer.push('\\');
                        buffer.push('t');
                    } else if c == 'r' {
                        buffer.push('\\');
                        buffer.push('r');
                    } else {
                        buffer.push(c);
                    }
                } else {
                    buffer.push(c);
                }
            } else {
                if escape {
                    buffer.push('\\');
                }
                buffer.push(c);
            }
            escape = false;
        }
        i += 1;
        proof {
            let st = lex_run(lex_start(), code@.subrange(0, i as int), split);
            assert(buffer@ =~= st.buffer);
        }
    }
    assert(code@.subrange(0, n as int) =~= code@);
    (tokens, buffer)
}

/// The tokens of a program: whitespace-separated words, where a `( )`
/// string, a `[ ]` list or a `# #` comment is one token whatever it holds.
pub fn tokenize(code: &[char]) -> (r: Vec<Vec<char>>)
    ensures
        views(r@) == tokens_of(code@),
{
    let (mut tokens, buffer) = scan(code, true);
    if buffer.len() > 0 {
        let ghost before = views(tokens@);
        let ghost b = buffer@;
        tokens.push(buffer);
        assert(views(tokens@) =~= before.push(b));
    }
    tokens
}

/// The escape pass over the inside of a string literal: `\n`, `\t` and `\r`
/// stay two characters, any other escaped character stands for itself at the
/// top level and keeps its backslash inside brackets.
pub fn unescape_text(s: &[char]) -> (r: Vec<char>)
    ensures
        r@ == unescape(s@),
{
    let (_, buffer) = scan(s, false);
    buffer
}

/// Reading in two parts is reading the whole.
pub proof fn lemma_lex_run_concat(st: Lex, a: Seq<char>, b: Seq<char>, split: bool)
    ensures
        lex_run(st, a + b, split) == lex_run(lex_run(st, a, split), b, split),
    decreases b.len(),
{
    if b.len() == 0 {
        assert(a + b =~= a);
    } else {
        lemma_lex_run_concat(st, a, b.drop_last(), split);
        assert((a + b).drop_last() =~= a + b.drop_last());
        assert((a + b).last() == b.last());
    }
}

/// Whether the lexer, after reading `a`, stands between tokens: outside any
/// bracket or comment, with no escape pending and nothing buffered.
pub open spec fn between_tokens(a: Seq<char>) -> bool {
    let st = lex_run(lex_start(), a, true);
    at_top(st) && !st.escape && st.buffer.len() == 0
}

/// Extra whitespace between tokens changes nothing: putting a whitespace
/// character where the lexer stands between tokens leaves the tokens (and so
/// their count) as they were.
pub proof fn lemma_extra_space(a: Seq<char>, w: char, b: Seq<char>)
    requires
        between_tokens(a),
        is_space(w),
    ensures
        tokens_of(a + seq![w] + b) == tokens_of(a + b),
        tokens_of(a + seq![w] + b).len() == tokens_of(a + b).len(),
{
    let st = lex_run(lex_start(), a, true);
    lemma_lex_run_concat(lex_start(), a + seq![w], b, true);
    lemma_lex_run_concat(lex_start(), a, b, true);
    assert((a + seq![w]).drop_last() =~= a);
    assert(lex_run(lex_start(), a + seq![w], true) == lex_step(st, w, true));
    assert(lex_step(st, w, true) == st);
}

/// A character that the lexer takes as it is: no whitespace, bracket,
/// comment mark or backslash.
pub open spec fn is_plain(c: char) -> bool {
    !is_space(c) && c != '\\' && c != '(' && c != ')' && c != '#' && c != '[' && c != ']'
}

/// A non-empty word of plain characters.
pub open spec fn plain_word(w: Seq<char>) -> bool {
    w.len() > 0 && forall|i: int| 0 <= i < w.len() ==> is_plain(#[trigger] w[i])
}

proof fn lemma_plain_run(st: Lex, w: Seq<char>)
    requires
        at_top(st),
        !st.escape,
        forall|i: int| 0 <= i < w.len() ==> is_plain(#[trigger] w[i]),
    ensures
        lex_run(st, w, true) == (Lex { buffer: st.buffer + w, ..st }),
    decreases w.len(),
{
    if w.len() == 0 {
        assert(st.buffer + w =~= st.buffer);
    } else {
        lemma_plain_run(st, w.drop_last());
        assert(is_plain(w[w.len() - 1]));
        assert(st.buffer + w.drop_last() + seq![w.last()] =~= st.buffer + w);
    }
}

proof fn lemma_plain_words_run(ws: Seq<Seq<char>>)
    requires
        ws.len() > 0,
        forall|i: int| 0 <= i < ws.len() ==> plain_word(#[trigger] ws[i]),
    ensures
        lex_run(lex_start(), crate::text::join_all(ws, seq![' ']), true) == (Lex {
            tokens: ws.drop_last(),
            buffer: ws.last(),
            ..lex_start()
        }),
    decreases ws.len(),
{
    let w = ws.last();
    assert(plain_word(ws[ws.len() - 1]));
    if ws.len() == 1 {
        lemma_plain_run(lex_start(), w);
        assert(Seq::<char>::empty() + w =~= w);
        assert(ws.drop_last() =~= Seq::<Seq<char>>::empty());
    } else {
        let front = ws.drop_last();
        assert forall|i: int| 0 <= i < front.len() implies plain_word(#[trigger] front[i]) by {
            assert(front[i] == ws[i]);
        }
        lemma_plain_words_run(front);
        let j = crate::text::join_all(front, seq![' ']);
        let st = lex_run(lex_start(), j, true);
        assert(plain_word(front.last()));
        lemma_lex_run_concat(lex_start(), j, seq![' '], true);
        assert((j + seq![' ']).drop_last() =~= j);
        let st2 = lex_step(st, ' ', true);
        assert(st2 == (Lex { tokens: front.drop_last().push(front.last()), buffer: seq![], ..lex_start() }));
        assert(front.drop_last().push(front.last()) =~= ws.drop_last());
        lemma_lex_run_concat(lex_start(), j + seq![' '], w, true);
        lemma_plain_run(st2, w);
        assert(Seq::<char>::empty() + w =~= w);
    }
}

/// Plain words separated by single spaces lex into exactly those words.
pub proof fn lemma_plain_words(ws: Seq<Seq<char>>)
    requires
        ws.len() > 0,
        forall|i: int| 0 <= i < ws.len() ==> plain_word(#[trigger] ws[i]),
    ensures
        tokens_of(crate::text::join_all(ws, seq![' '])) == ws,
{
    lemma_plain_words_run(ws);
    assert(plain_word(ws[ws.len() - 1]));
    assert(ws.drop_last().push(ws.last()) =~= ws);
}

} // verus!
