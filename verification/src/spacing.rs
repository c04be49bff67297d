//! Blanks between tokens do not matter.
//!
//! A place of a text is a boundary if reading tokens from the start comes to
//! stand there, or passes it among the blanks before a token. A blank that is
//! put into the text at a boundary changes none of the tokens.

use crate::token::SpecToken;
use crate::tokenizer::{
    lemma_lex_at_advances, lemma_run_end, lex_at, lex_from, run_end, CharClass, LexError, LexStep,
};
use vstd::prelude::*;

verus! {

/// Tells whether `p` is a place of `s` between two tokens, for a reader that
/// starts at `i`: among the blanks before the token that is read at `i`, or
/// such a place for a reader that starts behind that token.
pub open spec fn boundary(s: Seq<char>, i: nat, p: nat) -> bool
    decreases s.len() - i,
    via boundary_terminates
{
    ||| i <= p <= run_end(s, CharClass::Blank, i)
    ||| lex_at(s, i) matches LexStep::Token { token, next } && next <= p && boundary(s, next, p)
}

#[via_fn]
proof fn boundary_terminates(s: Seq<char>, i: nat, p: nat) {
    lemma_lex_at_advances(s, i);
}

/// Tells whether two errors are of the same kind and, where they name a
/// character, name the same.
pub open spec fn same_kind(e: LexError, f: LexError) -> bool {
    match e {
        LexError::UnterminatedString => f is UnterminatedString,
        LexError::NumberOverflow => f is NumberOverflow,
        LexError::UnexpectedChar { ch, offset } => f is UnexpectedChar && f->ch == ch,
    }
}

/// Tells whether two readings give the same tokens, or fail alike.
pub open spec fn alike(
    a: Result<Seq<SpecToken>, LexError>,
    b: Result<Seq<SpecToken>, LexError>,
) -> bool {
    match a {
        Ok(tokens) => b == Ok::<Seq<SpecToken>, LexError>(tokens),
        Err(e) => b is Err && same_kind(e, b->Err_0),
    }
}

/// Tells whether `s` from `i` on is the same text as `t` from `j` on.
pub open spec fn same_from(s: Seq<char>, i: nat, t: Seq<char>, j: nat) -> bool {
    &&& i <= s.len()
    &&& j <= t.len()
    &&& s.len() - i == t.len() - j
    &&& forall|k: int| 0 <= k < s.len() - i ==> #[trigger] s[i + k] == t[j + k]
}

/// A run that starts within a stretch of its class ends where the run from
/// the end of the stretch ends.
pub proof fn lemma_run_through(s: Seq<char>, class: CharClass, i: nat, q: nat)
    requires
        i <= q <= s.len(),
        forall|k: int| i <= k < q ==> class.holds(#[trigger] s[k]),
    ensures
        run_end(s, class, i) == run_end(s, class, q),
    decreases q - i,
{
    if i < q {
        lemma_run_through(s, class, i + 1, q);
    }
}

/// A run ends at `e` where the text is of the class from `i` up to `e` and not
/// at `e`.
pub proof fn lemma_run_stops(s: Seq<char>, class: CharClass, i: nat, e: nat)
    requires
        i <= e <= s.len(),
        forall|k: int| i <= k < e ==> class.holds(#[trigger] s[k]),
        e < s.len() ==> !class.holds(s[e as int]),
    ensures
        run_end(s, class, i) == e,
{
    lemma_run_through(s, class, i, e);
}

/// Runs in the same text are of the same length.
pub proof fn lemma_run_end_moves(
    s: Seq<char>,
    i: nat,
    t: Seq<char>,
    j: nat,
    class: CharClass,
)
    requires
        same_from(s, i, t, j),
    ensures
        run_end(t, class, j) - j == run_end(s, class, i) - i,
    decreases s.len() - i,
{
    if i < s.len() {
        assert(s[i + 0int] == t[j + 0int]);
        if class.holds(s[i as int]) {
            assert forall|k: int| 0 <= k < s.len() - (i + 1) implies #[trigger] s[i + 1 + k] == t[j
                + 1 + k] by {
                assert(s[i + (k + 1)] == t[j + (k + 1)]);
            }
            lemma_run_end_moves(s, i + 1, t, j + 1, class);
        }
    }
}

/// Where two texts are the same from a place on, they are so from every
/// later place.
pub proof fn lemma_same_from_later(s: Seq<char>, i: nat, t: Seq<char>, j: nat, d: nat)
    requires
        same_from(s, i, t, j),
        i + d <= s.len(),
    ensures
        same_from(s, i + d, t, j + d),
{
    assert forall|k: int| 0 <= k < s.len() - (i + d) implies #[trigger] s[i + d + k] == t[j + d
        + k] by {
        assert(s[i + (d + k)] == t[j + (d + k)]);
    }
}

/// What is read in the same text is the same token, as far behind the start
/// as it was.
pub proof fn lemma_lex_at_moves(s: Seq<char>, i: nat, t: Seq<char>, j: nat)
    requires
        same_from(s, i, t, j),
    ensures
        match lex_at(s, i) {
            LexStep::Token { token, next } => lex_at(t, j) == (LexStep::Token {
                token,
                next: (next + j - i) as nat,
            }),
            LexStep::End => lex_at(t, j) is End,
            LexStep::Error(e) => lex_at(t, j) is Error && same_kind(e, lex_at(t, j)->Error_0),
        },
{
    let a = run_end(s, CharClass::Blank, i);
    let b = run_end(t, CharClass::Blank, j);
    lemma_run_end_moves(s, i, t, j, CharClass::Blank);
    lemma_run_end(s, CharClass::Blank, i);
    lemma_same_from_later(s, i, t, j, (a - i) as nat);
    assert(same_from(s, a, t, b));
    if a < s.len() {
        let c = s[a as int];
        assert(s[a + 0int] == t[b + 0int]);
        if CharClass::Letter.holds(c) {
            lemma_text_moves(s, a, t, b, CharClass::Letter);
        } else if CharClass::Digit.holds(c) {
            lemma_text_moves(s, a, t, b, CharClass::Digit);
        } else if c == '"' {
            lemma_same_from_later(s, a, t, b, 1);
            lemma_text_moves(s, a + 1, t, b + 1, CharClass::StringBody);
        } else if c == '=' {
            if a + 1 < s.len() {
                assert(s[a + 1int] == t[b + 1int]);
            }
        }
    }
}

/// A run in the same text holds the same characters.
pub proof fn lemma_text_moves(s: Seq<char>, i: nat, t: Seq<char>, j: nat, class: CharClass)
    requires
        same_from(s, i, t, j),
    ensures
        run_end(t, class, j) - j == run_end(s, class, i) - i,
        i <= run_end(s, class, i) <= s.len(),
        t.subrange(j as int, run_end(t, class, j) as int) == s.subrange(
            i as int,
            run_end(s, class, i) as int,
        ),
{
    lemma_run_end_moves(s, i, t, j, class);
    lemma_run_end(s, class, i);
    lemma_run_end(t, class, j);
    let e = run_end(s, class, i);
    let f = run_end(t, class, j);
    assert forall|k: int| 0 <= k < e - i implies t.subrange(j as int, f as int)[k] == s.subrange(
        i as int,
        e as int,
    )[k] by {
        assert(s[i + k] == t[j + k]);
    }
    assert(t.subrange(j as int, f as int) =~= s.subrange(i as int, e as int));
}

/// The same text holds the same tokens, wherever it stands.
pub proof fn lemma_lex_from_moves(s: Seq<char>, i: nat, t: Seq<char>, j: nat)
    requires
        same_from(s, i, t, j),
    ensures
        alike(lex_from(s, i), lex_from(t, j)),
    decreases s.len() - i,
{
    lemma_lex_at_moves(s, i, t, j);
    lemma_lex_at_advances(s, i);
    match lex_at(s, i) {
        LexStep::Token { token, next } => {
            lemma_same_from_later(s, i, t, j, (next - i) as nat);
            lemma_lex_from_moves(s, next, t, (next + j - i) as nat);
        },
        _ => {},
    }
}

/// What a text holds where a character is put into it.
pub proof fn lemma_insert_chars(s: Seq<char>, p: nat, c: char)
    requires
        p <= s.len(),
    ensures
        s.insert(p as int, c).len() == s.len() + 1,
        s.insert(p as int, c)[p as int] == c,
        forall|k: int| 0 <= k < p ==> #[trigger] s.insert(p as int, c)[k] == s[k],
        forall|k: int| p < k <= s.len() ==> #[trigger] s.insert(p as int, c)[k] == s[k - 1],
{
}

/// A run of a class that holds no blank and is not empty is the same where a
/// blank is put into the text at its end or behind it.
pub proof fn lemma_run_before(s: Seq<char>, a: nat, p: nat, c: char, class: CharClass)
    requires
        p <= s.len(),
        CharClass::Blank.holds(c),
        !class.holds(c),
        a < s.len(),
        class.holds(s[a as int]),
        run_end(s, class, a) <= p,
    ensures
        a < run_end(s, class, a),
        run_end(s.insert(p as int, c), class, a) == run_end(s, class, a),
        s.insert(p as int, c).subrange(a as int, run_end(s, class, a) as int) == s.subrange(
            a as int,
            run_end(s, class, a) as int,
        ),
{
    let t = s.insert(p as int, c);
    let e = run_end(s, class, a);
    lemma_insert_chars(s, p, c);
    lemma_run_end(s, class, a);
    lemma_run_end(s, class, a + 1);
    assert(a < e);
    assert forall|k: int| a <= k < e implies class.holds(#[trigger] t[k]) by {
        assert(t[k] == s[k]);
    }
    if e < p {
        assert(t[e as int] == s[e as int]);
    }
    lemma_run_stops(t, class, a, e);
    assert(t.subrange(a as int, e as int) =~= s.subrange(a as int, e as int));
}

/// The blanks before a token are the same where a blank is put into the text
/// behind the place where the token starts.
pub proof fn lemma_blanks_before(s: Seq<char>, i: nat, p: nat, c: char)
    requires
        p <= s.len(),
        run_end(s, CharClass::Blank, i) < p,
        i <= s.len(),
    ensures
        run_end(s.insert(p as int, c), CharClass::Blank, i) == run_end(s, CharClass::Blank, i),
        s.insert(p as int, c)[run_end(s, CharClass::Blank, i) as int] == s[run_end(
            s,
            CharClass::Blank,
            i,
        ) as int],
{
    let t = s.insert(p as int, c);
    let a = run_end(s, CharClass::Blank, i);
    lemma_insert_chars(s, p, c);
    lemma_run_end(s, CharClass::Blank, i);
    assert forall|k: int| i <= k < a implies CharClass::Blank.holds(#[trigger] t[k]) by {
        assert(t[k] == s[k]);
    }
    assert(t[a as int] == s[a as int]);
    lemma_run_stops(t, CharClass::Blank, i, a);
}

/// A token is the same where a blank is put into the text behind it.
pub proof fn lemma_lex_at_before(s: Seq<char>, i: nat, p: nat, c: char)
    requires
        p <= s.len(),
        CharClass::Blank.holds(c),
        lex_at(s, i) is Token,
        lex_at(s, i)->next <= p,
    ensures
        lex_at(s.insert(p as int, c), i) == lex_at(s, i),
{
    let t = s.insert(p as int, c);
    let a = run_end(s, CharClass::Blank, i);
    lemma_insert_chars(s, p, c);
    lemma_run_end(s, CharClass::Blank, i);
    lemma_lex_at_advances(s, i);
    assert(a < s.len());
    let first = s[a as int];
    if CharClass::Letter.holds(first) {
        lemma_run_end(s, CharClass::Letter, a + 1);
        lemma_blanks_before(s, i, p, c);
        lemma_run_before(s, a, p, c, CharClass::Letter);
    } else if CharClass::Digit.holds(first) {
        lemma_run_end(s, CharClass::Digit, a + 1);
        lemma_blanks_before(s, i, p, c);
        lemma_run_before(s, a, p, c, CharClass::Digit);
    } else if first == '"' {
        let close = run_end(s, CharClass::StringBody, a + 1);
        lemma_run_end(s, CharClass::StringBody, a + 1);
        assert(close < s.len());
        lemma_blanks_before(s, i, p, c);
        assert forall|k: int| a + 1 <= k < close implies CharClass::StringBody.holds(
            #[trigger] t[k],
        ) by {
            assert(t[k] == s[k]);
        }
        assert(t[close as int] == s[close as int]);
        lemma_run_stops(t, CharClass::StringBody, a + 1, close);
        assert(t.subrange(a as int + 1, close as int) =~= s.subrange(a as int + 1, close as int));
    } else if first == '=' {
        lemma_blanks_before(s, i, p, c);
        if a + 1 < p {
            assert(t[a as int + 1] == s[a as int + 1]);
        }
    } else {
        lemma_blanks_before(s, i, p, c);
    }
}

/// A blank that is put into a text at a boundary changes none of its tokens:
/// the text with the blank is read as the same tokens, or fails as the text
/// without it does.
pub proof fn lemma_blank_at_boundary(s: Seq<char>, i: nat, p: nat, c: char)
    requires
        p <= s.len(),
        CharClass::Blank.holds(c),
        boundary(s, i, p),
    ensures
        alike(lex_from(s, i), lex_from(s.insert(p as int, c), i)),
    decreases s.len() - i,
{
    let t = s.insert(p as int, c);
    let a = run_end(s, CharClass::Blank, i);
    if i <= p <= a {
        lemma_run_end(s, CharClass::Blank, i);
        lemma_run_through(s, CharClass::Blank, i, p);
        assert(lex_at(s, i) == lex_at(s, p));
        lemma_run_through(t, CharClass::Blank, i, p + 1);
        assert(lex_at(t, i) == lex_at(t, p + 1));
        assert(same_from(s, p, t, p + 1));
        lemma_lex_from_moves(s, p, t, p + 1);
    } else {
        lemma_lex_at_advances(s, i);
        lemma_lex_at_before(s, i, p, c);
        lemma_blank_at_boundary(s, lex_at(s, i)->next, p, c);
    }
}

} // verus!
