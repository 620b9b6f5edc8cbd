//! The mathematical model: what scanning and joining mean.
//!
//! A token is modelled as a `Seq<char>` and a token sequence as a
//! `Seq<Seq<char>>`. [`token_seq`] says what the scanner returns for a text,
//! [`joined`] what the joiner returns for a token sequence, and the counting
//! functions what the statistics are.

use vstd::prelude::*;
use crate::chars::{alphanumeric, whitespace, word_char};

verus! {

/// Emits the pending word buffer, if any, at the end of the tokens gathered
/// so far.
pub open spec fn flush(buf: Seq<char>, acc: Seq<Seq<char>>) -> Seq<Seq<char>> {
    if buf.len() > 0 {
        acc.push(buf)
    } else {
        acc
    }
}

/// One left-to-right pass over the text: whitespace ends the pending word,
/// a word character extends it, and any other character ends the pending
/// word and stands as a one-character token of its own.
pub open spec fn scan(text: Seq<char>, buf: Seq<char>, acc: Seq<Seq<char>>) -> Seq<Seq<char>>
    decreases text.len(),
{
    if text.len() == 0 {
        flush(buf, acc)
    } else {
        let c = text[0];
        let rest = text.drop_first();
        if whitespace(c) {
            scan(rest, Seq::empty(), flush(buf, acc))
        } else if word_char(c) {
            scan(rest, buf.push(c), acc)
        } else {
            scan(rest, Seq::empty(), flush(buf, acc).push(seq![c]))
        }
    }
}

/// The token sequence the scanner produces for a text.
pub open spec fn token_seq(text: Seq<char>) -> Seq<Seq<char>> {
    scan(text, Seq::empty(), Seq::empty())
}

/// A character that attaches a token to the text before it: no space is put
/// before a token that starts with one.
pub open spec fn attach_left(c: char) -> bool {
    c == '.' || c == ',' || c == '!' || c == '?' || c == ';' || c == ':' || c == ')' || c == ']'
        || c == '}' || c == '"'
}

/// A character that attaches the next token to the text before it: no space
/// is put after a token that ends with one.
pub open spec fn attach_right(c: char) -> bool {
    c == '(' || c == '[' || c == '{' || c == '"'
}

/// Whether the joiner puts a space between two adjacent tokens: it does
/// unless the current token starts with an attaching character or the
/// previous token ends with one. An empty token never suppresses a space.
pub open spec fn space_between(prev: Seq<char>, cur: Seq<char>) -> bool {
    &&& !(cur.len() > 0 && attach_left(cur[0]))
    &&& !(prev.len() > 0 && attach_right(prev.last()))
}

/// What the joiner writes between two adjacent tokens.
pub open spec fn sep(prev: Seq<char>, cur: Seq<char>) -> Seq<char> {
    if space_between(prev, cur) {
        seq![' ']
    } else {
        Seq::empty()
    }
}

/// The text the joiner writes for the tokens after the first, given the token
/// just written.
pub open spec fn joined_from(prev: Seq<char>, tokens: Seq<Seq<char>>) -> Seq<char>
    decreases tokens.len(),
{
    if tokens.len() == 0 {
        Seq::empty()
    } else {
        sep(prev, tokens[0]) + tokens[0] + joined_from(tokens[0], tokens.drop_first())
    }
}

/// The text the joiner produces for a token sequence: the first token as it
/// stands, every later one after a space or none by [`space_between`].
pub open spec fn joined(tokens: Seq<Seq<char>>) -> Seq<char> {
    if tokens.len() == 0 {
        Seq::empty()
    } else {
        tokens[0] + joined_from(tokens[0], tokens.drop_first())
    }
}

/// A word token for the statistics: it holds an alphanumeric character
/// somewhere; every other token counts as punctuation.
pub open spec fn word_token(t: Seq<char>) -> bool {
    exists|i: int| 0 <= i < t.len() && alphanumeric(t[i])
}

/// How many tokens of the sequence are word tokens.
pub open spec fn word_count(tokens: Seq<Seq<char>>) -> nat
    decreases tokens.len(),
{
    if tokens.len() == 0 {
        0
    } else {
        word_count(tokens.drop_last()) + if word_token(tokens.last()) {
            1nat
        } else {
            0nat
        }
    }
}

/// The characters of all tokens of the sequence, counted together.
pub open spec fn char_total(tokens: Seq<Seq<char>>) -> nat
    decreases tokens.len(),
{
    if tokens.len() == 0 {
        0
    } else {
        char_total(tokens.drop_last()) + tokens.last().len()
    }
}

/// A token shaped like a scanned word: non-empty, every character a
/// non-whitespace word character.
pub open spec fn word_shaped(t: Seq<char>) -> bool {
    t.len() > 0 && forall|i: int| 0 <= i < t.len() ==> word_char(#[trigger] t[i]) && !whitespace(t[i])
}

/// A token shaped like a scanned punctuation mark: one character that is
/// neither a word character nor whitespace.
pub open spec fn mark_shaped(t: Seq<char>) -> bool {
    t.len() == 1 && !word_char(t[0]) && !whitespace(t[0])
}

/// A token the scanner could have produced.
pub open spec fn canonical_token(t: Seq<char>) -> bool {
    word_shaped(t) || mark_shaped(t)
}

/// A token sequence the scanner could have produced.
pub open spec fn canonical_tokens(tokens: Seq<Seq<char>>) -> bool {
    forall|i: int| 0 <= i < tokens.len() ==> canonical_token(#[trigger] tokens[i])
}

/// No token sequence has more word tokens than tokens.
pub proof fn lemma_word_count_le_len(tokens: Seq<Seq<char>>)
    ensures
        word_count(tokens) <= tokens.len(),
    decreases tokens.len(),
{
    if tokens.len() > 0 {
        lemma_word_count_le_len(tokens.drop_last());
    }
}

/// The characters of a prefix never outnumber the characters of the whole
/// sequence.
pub proof fn lemma_char_total_prefix(tokens: Seq<Seq<char>>, n: int)
    requires
        0 <= n <= tokens.len(),
    ensures
        char_total(tokens.take(n)) <= char_total(tokens),
    decreases tokens.len() - n,
{
    if n == tokens.len() {
        assert(tokens.take(n) =~= tokens);
    } else {
        lemma_char_total_prefix(tokens, n + 1);
        assert(tokens.take(n + 1).drop_last() =~= tokens.take(n));
        assert(char_total(tokens.take(n)) <= char_total(tokens.take(n + 1)));
    }
}

/// The text with every maximal run of whitespace replaced by a single space;
/// `after_space` says whether a run is already open on the left.
pub open spec fn squeeze_from(text: Seq<char>, after_space: bool) -> Seq<char>
    decreases text.len(),
{
    if text.len() == 0 {
        Seq::empty()
    } else if whitespace(text[0]) {
        if after_space {
            squeeze_from(text.drop_first(), true)
        } else {
            seq![' '] + squeeze_from(text.drop_first(), true)
        }
    } else {
        seq![text[0]] + squeeze_from(text.drop_first(), false)
    }
}

/// The whitespace-normalized form of a text.
pub open spec fn squeezed(text: Seq<char>) -> Seq<char> {
    squeeze_from(text, false)
}

} // verus!
