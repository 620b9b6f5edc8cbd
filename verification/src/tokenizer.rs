//! The executable scanner, joiner and analyzer.

use vstd::prelude::*;
use vstd::string::StrSliceExecFns;
use crate::chars::{alphanumeric, char_is_alphanumeric, char_is_whitespace};
use crate::laws::lemma_tokens_canonical;
use crate::model::{
    canonical_tokens, char_total, flush, joined, joined_from, lemma_char_total_prefix,
    lemma_word_count_le_len, scan, sep, space_between, token_seq, word_count, word_token,
};

verus! {

/// Relies on `String::push`: appends the given character to the end of the
/// string.
#[verifier::external_body]
pub(crate) fn push_char(s: &mut String, c: char)
    ensures
        final(s)@ == old(s)@.push(c),
{
    s.push(c)
}

/// Whether the token holds an alphanumeric character anywhere: the
/// classification that separates word tokens from punctuation tokens.
pub fn has_alphanumeric(t: &str) -> (r: bool)
    ensures
        r == word_token(t@),
{
    let n: usize = t.unicode_len();
    let mut j: usize = 0;
    while j < n
        invariant
            j <= n,
            n == t@.len(),
            forall|k: int| 0 <= k < j ==> !alphanumeric(#[trigger] t@[k]),
        decreases n - j,
    {
        if char_is_alphanumeric(t.get_char(j)) {
            proof {
                assert(alphanumeric(t@[j as int]));
            }
            return true;
        }
        j = j + 1;
    }
    false
}

/// Splits a text into word and punctuation tokens and joins tokens back into
/// text. It keeps the text it was made with, so that a caller can compare the
/// rebuilt text against the original.
pub struct Tokenizer {
    text: String,
}

impl View for Tokenizer {
    type V = Seq<char>;

    closed spec fn view(&self) -> Seq<char> {
        self.text@
    }
}

impl Tokenizer {
    /// Makes a tokenizer that holds the given text.
    pub fn new(text: String) -> (t: Tokenizer)
        ensures
            t@ == text@,
    {
        Tokenizer { text }
    }

    /// Splits the stored text into tokens: runs of whitespace separate
    /// chunks and are discarded, runs of word characters (alphanumeric,
    /// apostrophe, hyphen) stand as one token each, and every other character
    /// stands as a one-character token of its own. Every token returned is
    /// canonical: non-empty and never a run of whitespace.
    pub fn tokenize(&self) -> (tokens: Vec<String>)
        ensures
            tokens.deep_view() == token_seq(self@),
            canonical_tokens(tokens.deep_view()),
    {
        proof {
            lemma_tokens_canonical(self@);
        }
        let text: &str = self.text.as_str();
        let n: usize = text.unicode_len();
        let mut tokens: Vec<String> = Vec::new();
        let mut buf: String = String::new();
        let mut i: usize = 0;
        proof {
            assert(self@.skip(0) =~= self@);
            assert(tokens.deep_view() =~= Seq::<Seq<char>>::empty());
        }
        while i < n
            invariant
                i <= n,
                n == self@.len(),
                text@ == self@,
                scan(self@.skip(i as int), buf@, tokens.deep_view()) == token_seq(self@),
            decreases n - i,
        {
            let ghost pending = self@.skip(i as int);
            let ghost held = buf@;
            let ghost gathered = tokens.deep_view();
            proof {
                assert(pending[0] == self@[i as int]);
                assert(pending.drop_first() =~= self@.skip(i + 1));
            }
            let c: char = text.get_char(i);
            if char_is_whitespace(c) {
                if !buf.as_str().is_empty() {
                    tokens.push(buf);
                    buf = String::new();
                }
                proof {
                    assert(tokens.deep_view() =~= flush(held, gathered));
                    assert(buf@ =~= Seq::<char>::empty());
                }
            } else if char_is_alphanumeric(c) || c == '\'' || c == '-' {
                push_char(&mut buf, c);
            } else {
                if !buf.as_str().is_empty() {
                    tokens.push(buf);
                    buf = String::new();
                }
                let ghost flushed = tokens.deep_view();
                let mut mark: String = String::new();
                push_char(&mut mark, c);
                tokens.push(mark);
                proof {
                    assert(flushed =~= flush(held, gathered));
                    assert(mark@ =~= seq![c]);
                    assert(tokens.deep_view() =~= flush(held, gathered).push(seq![c]));
                    assert(buf@ =~= Seq::<char>::empty());
                }
            }
            i = i + 1;
        }
        let ghost held = buf@;
        let ghost gathered = tokens.deep_view();
        if !buf.as_str().is_empty() {
            tokens.push(buf);
        }
        proof {
            assert(self@.skip(n as int) =~= Seq::<char>::empty());
            assert(tokens.deep_view() =~= flush(held, gathered));
        }
        tokens
    }

    /// Joins tokens back into text. The first token stands as it is; every
    /// later one is preceded by a single space unless it starts with a
    /// character of [`crate::model::attach_left`] or the token before it ends
    /// with a character of [`crate::model::attach_right`].
    pub fn detokenize(&self, tokens: &[String]) -> (text: String)
        ensures
            text@ == joined(tokens.deep_view()),
    {
        let ghost all = tokens.deep_view();
        let mut out: String = String::new();
        if tokens.len() == 0 {
            return out;
        }
        out.append(tokens[0].as_str());
        let mut i: usize = 1;
        proof {
            assert(all[0] == tokens@[0]@);
            assert(out@ =~= all[0]);
            assert(all.drop_first() =~= all.skip(1));
        }
        while i < tokens.len()
            invariant
                1 <= i <= tokens@.len(),
                all == tokens.deep_view(),
                all.len() == tokens@.len(),
                all[i - 1] == tokens@[i - 1]@,
                joined(all) == out@ + joined_from(all[i - 1], all.skip(i as int)),
            decreases tokens@.len() - i,
        {
            let ghost rest = all.skip(i as int);
            proof {
                assert(rest[0] == all[i as int]);
                assert(all[i as int] == tokens@[i as int]@);
                assert(rest.drop_first() =~= all.skip(i + 1));
            }
            let tok: &String = &tokens[i];
            let prev: &String = &tokens[i - 1];
            let first_c: char = if tok.as_str().is_empty() {
                ' '
            } else {
                tok.as_str().get_char(0)
            };
            let prev_n: usize = prev.as_str().unicode_len();
            let last_c: char = if prev_n == 0 {
                ' '
            } else {
                prev.as_str().get_char(prev_n - 1)
            };
            let cur_allows: bool = !(first_c == '.' || first_c == ',' || first_c == '!'
                || first_c == '?' || first_c == ';' || first_c == ':' || first_c == ')'
                || first_c == ']' || first_c == '}' || first_c == '"');
            let prev_allows: bool = !(last_c == '(' || last_c == '[' || last_c == '{'
                || last_c == '"');
            let ghost before = out@;
            if cur_allows && prev_allows {
                push_char(&mut out, ' ');
            }
            proof {
                assert((cur_allows && prev_allows) == space_between(all[i - 1], all[i as int]));
                assert(out@ =~= before + sep(all[i - 1], all[i as int]));
            }
            out.append(tok.as_str());
            proof {
                assert(out@ =~= before + sep(all[i - 1], all[i as int]) + all[i as int]);
                assert(out@ + joined_from(all[i as int], all.skip(i + 1)) =~= joined(all));
            }
            i = i + 1;
        }
        proof {
            assert(all.skip(all.len() as int) =~= Seq::<Seq<char>>::empty());
        }
        out
    }

    /// Counts the tokens: how many there are, how many are word tokens (an
    /// alphanumeric character somewhere), how many are punctuation (the
    /// rest), and how many characters they hold together. The mean token
    /// length is the last count divided by the first, taken as zero for an
    /// empty sequence.
    pub fn analyze_tokens(&self, tokens: &[String]) -> (r: (usize, usize, usize, usize))
        requires
            char_total(tokens.deep_view()) <= usize::MAX,
        ensures
            r.0 == tokens.deep_view().len(),
            r.1 == word_count(tokens.deep_view()),
            r.2 == r.0 - r.1,
            r.1 + r.2 == r.0,
            r.3 == char_total(tokens.deep_view()),
    {
        let ghost all = tokens.deep_view();
        let mut words: usize = 0;
        let mut chars_seen: usize = 0;
        let mut i: usize = 0;
        proof {
            assert(all.take(0) =~= Seq::<Seq<char>>::empty());
        }
        while i < tokens.len()
            invariant
                i <= tokens@.len(),
                all == tokens.deep_view(),
                all.len() == tokens@.len(),
                char_total(all) <= usize::MAX,
                words == word_count(all.take(i as int)),
                chars_seen == char_total(all.take(i as int)),
                words <= i,
            decreases tokens@.len() - i,
        {
            proof {
                assert(all.take(i + 1).drop_last() =~= all.take(i as int));
                assert(all.take(i + 1).last() == all[i as int]);
                assert(all[i as int] == tokens@[i as int]@);
                lemma_char_total_prefix(all, i + 1);
            }
            let tok: &String = &tokens[i];
            if has_alphanumeric(tok.as_str()) {
                words = words + 1;
            }
            let tok_chars: usize = tok.as_str().unicode_len();
            chars_seen = chars_seen + tok_chars;
            i = i + 1;
        }
        proof {
            assert(all.take(all.len() as int) =~= all);
            lemma_word_count_le_len(all);
        }
        let total: usize = tokens.len();
        (total, words, total - words, chars_seen)
    }

    /// The text the tokenizer was made with.
    pub fn original_text(&self) -> (r: &str)
        ensures
            r@ == self@,
    {
        self.text.as_str()
    }
}

} // verus!
