//! Laws relating the scanner, the joiner and the statistics.
//!
//! The central results: the scanner only ever produces canonical token
//! sequences ([`lemma_tokens_canonical`]), scanning the joined text of a
//! canonical token sequence gives that sequence back
//! ([`lemma_tokenize_joined`]), and scanning ignores how whitespace runs are
//! written ([`lemma_tokenize_squeezed`]).

use vstd::prelude::*;
use crate::chars::{whitespace, word_char};
use crate::model::{
    attach_left, attach_right, canonical_token, canonical_tokens, char_total, flush, joined,
    joined_from, lemma_word_count_le_len, mark_shaped, scan, sep, space_between, squeeze_from,
    squeezed, token_seq, word_count, word_shaped,
};

verus! {

/// No character of the two attach sets is a word character or whitespace.
proof fn lemma_attach_plain(c: char)
    ensures
        attach_left(c) ==> !word_char(c) && !whitespace(c),
        attach_right(c) ==> !word_char(c) && !whitespace(c),
{
}

/// A canonical sequence stays canonical when a canonical token is appended.
proof fn lemma_canonical_push(acc: Seq<Seq<char>>, t: Seq<char>)
    requires
        canonical_tokens(acc),
        canonical_token(t),
    ensures
        canonical_tokens(acc.push(t)),
{
    assert forall|i: int| 0 <= i < acc.push(t).len() implies canonical_token(
        #[trigger] acc.push(t)[i],
    ) by {
        if i < acc.len() {
            assert(acc.push(t)[i] == acc[i]);
        } else {
            assert(acc.push(t)[i] == t);
        }
    }
}

/// Scanning a run of word characters only extends the pending word buffer.
proof fn lemma_scan_word_prefix(t: Seq<char>, tail: Seq<char>, buf: Seq<char>, acc: Seq<Seq<char>>)
    requires
        forall|i: int| 0 <= i < t.len() ==> word_char(#[trigger] t[i]) && !whitespace(t[i]),
    ensures
        scan(t + tail, buf, acc) == scan(tail, buf + t, acc),
    decreases t.len(),
{
    if t.len() == 0 {
        assert(t + tail =~= tail);
        assert(buf + t =~= buf);
    } else {
        let c = t[0];
        assert((t + tail)[0] == c);
        assert((t + tail).drop_first() =~= t.drop_first() + tail);
        assert forall|i: int| 0 <= i < t.drop_first().len() implies word_char(
            #[trigger] t.drop_first()[i],
        ) && !whitespace(t.drop_first()[i]) by {
            assert(t.drop_first()[i] == t[i + 1]);
        }
        lemma_scan_word_prefix(t.drop_first(), tail, buf.push(c), acc);
        assert(buf.push(c) + t.drop_first() =~= buf + t);
    }
}

/// Every token the scanner produces is canonical, whatever text it reads,
/// provided the pending buffer holds only non-whitespace word characters and
/// the tokens gathered so far are canonical.
proof fn lemma_scan_canonical(text: Seq<char>, buf: Seq<char>, acc: Seq<Seq<char>>)
    requires
        forall|i: int| 0 <= i < buf.len() ==> word_char(#[trigger] buf[i]) && !whitespace(buf[i]),
        canonical_tokens(acc),
    ensures
        canonical_tokens(scan(text, buf, acc)),
    decreases text.len(),
{
    if text.len() == 0 {
        if buf.len() > 0 {
            lemma_canonical_push(acc, buf);
        }
    } else {
        let c = text[0];
        let rest = text.drop_first();
        if whitespace(c) {
            if buf.len() > 0 {
                lemma_canonical_push(acc, buf);
            }
            lemma_scan_canonical(rest, Seq::empty(), flush(buf, acc));
        } else if word_char(c) {
            assert forall|i: int| 0 <= i < buf.push(c).len() implies word_char(
                #[trigger] buf.push(c)[i],
            ) && !whitespace(buf.push(c)[i]) by {
                if i < buf.len() {
                    assert(buf.push(c)[i] == buf[i]);
                } else {
                    assert(buf.push(c)[i] == c);
                }
            }
            lemma_scan_canonical(rest, buf.push(c), acc);
        } else {
            if buf.len() > 0 {
                lemma_canonical_push(acc, buf);
            }
            assert(mark_shaped(seq![c]));
            lemma_canonical_push(flush(buf, acc), seq![c]);
            lemma_scan_canonical(rest, Seq::empty(), flush(buf, acc).push(seq![c]));
        }
    }
}

/// The scanner produces only canonical tokens: each is non-empty, never
/// whitespace, and either a run of word characters or a single punctuation
/// character.
pub proof fn lemma_tokens_canonical(text: Seq<char>)
    ensures
        canonical_tokens(token_seq(text)),
{
    lemma_scan_canonical(text, Seq::empty(), Seq::empty());
}

/// Scanning the joined text of one canonical token followed by a canonical
/// sequence, from a clean state, yields that token and sequence.
proof fn lemma_scan_token_start(t0: Seq<char>, rest: Seq<Seq<char>>, acc: Seq<Seq<char>>)
    requires
        canonical_token(t0),
        canonical_tokens(rest),
    ensures
        scan(t0 + joined_from(t0, rest), Seq::empty(), acc) == acc.push(t0) + rest,
    decreases rest.len(), 1nat,
{
    let tail = joined_from(t0, rest);
    if word_shaped(t0) {
        lemma_scan_word_prefix(t0, tail, Seq::empty(), acc);
        assert(Seq::<char>::empty() + t0 =~= t0);
        lemma_scan_joined(t0, rest, acc);
    } else {
        let c = t0[0];
        let s = t0 + tail;
        assert(s[0] == c);
        assert(s.drop_first() =~= tail);
        assert(seq![c] =~= t0);
        lemma_scan_joined(t0, rest, acc.push(t0));
    }
}

/// The inductive heart of the round trip: after the joiner has written a
/// canonical token `prev`, scanning the rest of the joined text recovers the
/// remaining tokens. A word token is still pending in the buffer at that
/// point; a punctuation token has already been emitted.
proof fn lemma_scan_joined(prev: Seq<char>, ts: Seq<Seq<char>>, acc: Seq<Seq<char>>)
    requires
        canonical_token(prev),
        canonical_tokens(ts),
    ensures
        word_shaped(prev) ==> scan(joined_from(prev, ts), prev, acc) == acc.push(prev) + ts,
        mark_shaped(prev) ==> scan(joined_from(prev, ts), Seq::empty(), acc) == acc + ts,
    decreases ts.len(), 0nat,
{
    if ts.len() == 0 {
        if word_shaped(prev) {
            assert(acc.push(prev) =~= acc.push(prev) + ts);
        }
        if mark_shaped(prev) {
            assert(acc =~= acc + ts);
        }
    } else {
        let t0 = ts[0];
        let rest = ts.drop_first();
        let tail = joined_from(t0, rest);
        assert(canonical_token(t0));
        assert forall|i: int| 0 <= i < rest.len() implies canonical_token(#[trigger] rest[i]) by {
            assert(rest[i] == ts[i + 1]);
        }
        let s = joined_from(prev, ts);
        assert(s == sep(prev, t0) + t0 + tail);
        if space_between(prev, t0) {
            assert(s =~= seq![' '] + (t0 + tail));
            assert(s[0] == ' ');
            assert(whitespace(' '));
            assert(s.drop_first() =~= t0 + tail);
            if word_shaped(prev) {
                lemma_scan_token_start(t0, rest, acc.push(prev));
                assert(acc.push(prev).push(t0) + rest =~= acc.push(prev) + ts);
            }
            if mark_shaped(prev) {
                lemma_scan_token_start(t0, rest, acc);
                assert(acc.push(t0) + rest =~= acc + ts);
            }
        } else {
            assert(s =~= t0 + tail);
            if word_shaped(prev) {
                assert(word_char(prev.last()));
                lemma_attach_plain(prev.last());
                assert(t0.len() > 0 && attach_left(t0[0]));
                lemma_attach_plain(t0[0]);
                assert(mark_shaped(t0));
                let c = t0[0];
                assert(s[0] == c);
                assert(s.drop_first() =~= tail);
                assert(seq![c] =~= t0);
                lemma_scan_joined(t0, rest, acc.push(prev).push(t0));
                assert(acc.push(prev).push(t0) + rest =~= acc.push(prev) + ts);
            }
            if mark_shaped(prev) {
                lemma_scan_token_start(t0, rest, acc);
                assert(acc.push(t0) + rest =~= acc + ts);
            }
        }
    }
}

/// Classification is idempotent: scanning the joined text of a canonical
/// token sequence gives exactly that sequence back.
pub proof fn lemma_tokenize_joined(ts: Seq<Seq<char>>)
    requires
        canonical_tokens(ts),
    ensures
        token_seq(joined(ts)) == ts,
{
    if ts.len() == 0 {
        assert(joined(ts) =~= Seq::<char>::empty());
        assert(token_seq(joined(ts)) =~= ts);
    } else {
        let t0 = ts[0];
        let rest = ts.drop_first();
        assert forall|i: int| 0 <= i < rest.len() implies canonical_token(#[trigger] rest[i]) by {
            assert(rest[i] == ts[i + 1]);
        }
        lemma_scan_token_start(t0, rest, Seq::empty());
        assert(Seq::<Seq<char>>::empty().push(t0) + rest =~= ts);
    }
}

/// The round trip: a text that the joiner can write for some canonical token
/// sequence is reproduced exactly by joining its own token sequence.
pub proof fn lemma_round_trip(text: Seq<char>)
    requires
        exists|ts: Seq<Seq<char>>| canonical_tokens(ts) && text == joined(ts),
    ensures
        joined(token_seq(text)) == text,
{
    let ts = choose|ts: Seq<Seq<char>>| canonical_tokens(ts) && text == joined(ts);
    lemma_tokenize_joined(ts);
}

/// Scanning and joining settle after one pass: for any text at all, the
/// joined token sequence scans to the same tokens, and joining again changes
/// nothing.
pub proof fn lemma_round_trip_stable(text: Seq<char>)
    ensures
        token_seq(joined(token_seq(text))) == token_seq(text),
        joined(token_seq(joined(token_seq(text)))) == joined(token_seq(text)),
{
    lemma_tokens_canonical(text);
    lemma_tokenize_joined(token_seq(text));
}

/// Scanning a squeezed text: helper for [`lemma_tokenize_squeezed`], tracking
/// whether a whitespace run is open on the left (the buffer is then empty).
proof fn lemma_scan_squeeze(text: Seq<char>, buf: Seq<char>, acc: Seq<Seq<char>>)
    ensures
        scan(squeeze_from(text, false), buf, acc) == scan(text, buf, acc),
        scan(squeeze_from(text, true), Seq::empty(), acc) == scan(text, Seq::empty(), acc),
    decreases text.len(),
{
    if text.len() == 0 {
    } else {
        let c = text[0];
        let rest = text.drop_first();
        if whitespace(c) {
            let s = seq![' '] + squeeze_from(rest, true);
            assert(s[0] == ' ');
            assert(whitespace(' '));
            assert(s.drop_first() =~= squeeze_from(rest, true));
            lemma_scan_squeeze(rest, Seq::empty(), flush(buf, acc));
            lemma_scan_squeeze(rest, Seq::empty(), acc);
        } else {
            let sf = seq![c] + squeeze_from(rest, false);
            assert(sf[0] == c);
            assert(sf.drop_first() =~= squeeze_from(rest, false));
            if word_char(c) {
                lemma_scan_squeeze(rest, buf.push(c), acc);
                lemma_scan_squeeze(rest, Seq::<char>::empty().push(c), acc);
            } else {
                lemma_scan_squeeze(rest, Seq::empty(), flush(buf, acc).push(seq![c]));
                lemma_scan_squeeze(rest, Seq::empty(), acc.push(seq![c]));
            }
        }
    }
}

/// Whitespace collapse: the scanner reads a text and its whitespace-
/// normalized form as the same token sequence.
pub proof fn lemma_tokenize_squeezed(text: Seq<char>)
    ensures
        token_seq(squeezed(text)) == token_seq(text),
{
    lemma_scan_squeeze(text, Seq::empty(), Seq::empty());
}

/// Two texts with the same whitespace-normalized form scan to the same token
/// sequence: the scanner depends only on that form.
pub proof fn lemma_tokenize_whitespace_insensitive(a: Seq<char>, b: Seq<char>)
    requires
        squeezed(a) == squeezed(b),
    ensures
        token_seq(a) == token_seq(b),
{
    lemma_tokenize_squeezed(a);
    lemma_tokenize_squeezed(b);
}

/// Statistics consistency: there are never more word tokens than tokens (so
/// word and punctuation counts add up to the total), and when every token is
/// non-empty the counted characters vanish exactly for the empty sequence
/// (so the mean token length is zero exactly there).
pub proof fn lemma_stats_consistency(tokens: Seq<Seq<char>>)
    ensures
        word_count(tokens) <= tokens.len(),
        (forall|i: int| 0 <= i < tokens.len() ==> (#[trigger] tokens[i]).len() > 0) ==> (
        char_total(tokens) == 0 <==> tokens.len() == 0),
{
    lemma_word_count_le_len(tokens);
    if tokens.len() > 0 && (forall|i: int| 0 <= i < tokens.len() ==> (#[trigger] tokens[i]).len()
        > 0) {
        assert(tokens.last().len() > 0);
        assert(char_total(tokens) >= tokens.last().len());
    }
}

} // verus!
