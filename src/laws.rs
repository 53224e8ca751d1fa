//! Properties of the token stream as a whole.
use vstd::prelude::*;
use crate::grammar::{
    all_digit_parts, all_letters, digits_end, is_digit, is_digit_part, is_letter, keyword_kind,
    lemma_runs_bounded, lemma_runs_stop, lemma_scan_advances, lexeme_fits, no_quote, quote_pos,
    scan, tokens_from, word_end,
};
use crate::token::TokenKind;
use vstd::utf8::{
    is_char_boundary, is_char_boundary_iff_not_is_continuation_byte,
    is_char_boundary_start_end_of_seq, pop_first_scalar, valid_first_scalar, valid_utf8,
    valid_utf8_split,
};

verus! {

/// The bytes that a run covers are the bytes it accepts, and the run stops at a
/// byte it does not accept.
proof fn lemma_runs_content(s: Seq<u8>, i: int)
    requires
        0 <= i <= s.len(),
    ensures
        all_letters(s, i, word_end(s, i)),
        word_end(s, i) < s.len() ==> !is_letter(s[word_end(s, i)]),
        all_digit_parts(s, i, digits_end(s, i)),
        no_quote(s, i, quote_pos(s, i)),
        quote_pos(s, i) < s.len() ==> s[quote_pos(s, i)] == '"' as u8,
    decreases s.len() - i,
{
    if i < s.len() {
        lemma_runs_content(s, i + 1);
    }
}

/// Coverage: the spans of the tokens yielded from offset `i` on follow one another
/// without gap or overlap, each non-empty, from `i` to the end of the text, and the
/// stream ends in one empty `End` token at the end of the text.
pub proof fn lemma_coverage(s: Seq<u8>, i: int)
    requires
        0 <= i <= s.len(),
    ensures
        tokens_from(s, i).len() >= 1,
        tokens_from(s, i)[0].1 == i,
        tokens_from(s, i).last() == (TokenKind::End, s.len() as int, s.len() as int),
        forall|k: int|
            0 <= k < tokens_from(s, i).len() - 1 ==> {
                &&& (#[trigger] tokens_from(s, i)[k]).1 < tokens_from(s, i)[k].2
                &&& tokens_from(s, i)[k].2 == tokens_from(s, i)[k + 1].1
                &&& tokens_from(s, i)[k].0 != TokenKind::End
            },
    decreases s.len() - i,
{
    lemma_scan_advances(s, i);
    if i < s.len() {
        let e = scan(s, i).1;
        lemma_coverage(s, e);
        let rest = tokens_from(s, e);
        let ts = tokens_from(s, i);
        assert(ts == seq![(scan(s, i).0, i, e)] + rest);
        assert forall|k: int| 0 <= k < ts.len() - 1 implies {
            &&& (#[trigger] ts[k]).1 < ts[k].2
            &&& ts[k].2 == ts[k + 1].1
            &&& ts[k].0 != TokenKind::End
        } by {
            if k > 0 {
                assert(ts[k] == rest[k - 1]);
                assert(ts[k + 1] == rest[k]);
            }
        }
    }
}

/// Once the scanner yields `End`, it stays at the same offset and yields the
/// same `End` again.
pub proof fn lemma_end_repeats(s: Seq<u8>, i: int)
    requires
        0 <= i <= s.len(),
        scan(s, i).0 == TokenKind::End,
    ensures
        i == s.len(),
        scan(s, i).1 == i,
        scan(s, scan(s, i).1) == scan(s, i),
{
    lemma_scan_advances(s, i);
}

/// An `Invalid` token runs to the end of the text, and the token after it is `End`.
pub proof fn lemma_invalid_absorbs(s: Seq<u8>, i: int)
    requires
        0 <= i <= s.len(),
        scan(s, i).0 == TokenKind::Invalid,
    ensures
        scan(s, i).1 == s.len(),
        scan(s, scan(s, i).1) == (TokenKind::End, s.len() as int),
{
    lemma_scan_advances(s, i);
}

/// A word is scanned whole, as the longest run of letters and underscores, and is
/// classified by exact comparison with the reserved words.
pub proof fn lemma_keyword_exactness(s: Seq<u8>, i: int)
    requires
        0 <= i < s.len(),
        is_letter(s[i]),
    ensures
        ({
            let e = word_end(s, i);
            let w = s.subrange(i, e);
            &&& scan(s, i) == (keyword_kind(w), e)
            &&& i < e
            &&& all_letters(s, i, e)
            &&& e < s.len() ==> !is_letter(s[e])
        }),
{
    lemma_runs_content(s, i);
    lemma_runs_bounded(s, i);
}

/// Every token that is neither trivia, `Invalid` nor `End` has a lexeme of the
/// shape its kind calls for.
pub proof fn lemma_lexeme_identity(s: Seq<u8>, i: int)
    requires
        0 <= i < s.len(),
        !scan(s, i).0.is_trivia(),
        scan(s, i).0 != TokenKind::Invalid,
        scan(s, i).0 != TokenKind::End,
    ensures
        lexeme_fits(scan(s, i).0, s.subrange(i, scan(s, i).1)),
{
    lemma_scan_advances(s, i);
    lemma_runs_bounded(s, i);
    lemma_runs_bounded(s, i + 1);
    lemma_runs_content(s, i);
    lemma_runs_content(s, i + 1);
    let (k, e) = scan(s, i);
    let w = s.subrange(i, e);
    let n = e - i;
    if is_digit(s[i]) {
        let j = digits_end(s, i + 1);
        if k == TokenKind::Float {
            lemma_runs_bounded(s, j + 1);
            lemma_runs_content(s, j + 1);
            let p = j - i;
            assert(all_digit_parts(w, 1, p)) by {
                assert forall|q: int| 1 <= q < p implies #[trigger] is_digit_part(w[q]) by {
                    assert(w[q] == s[i + q]);
                }
            }
            assert(all_digit_parts(w, p + 1, n)) by {
                assert forall|q: int| p + 1 <= q < n implies #[trigger] is_digit_part(w[q]) by {
                    assert(w[q] == s[i + q]);
                }
            }
            assert(w[p] == '.' as u8);
        } else {
            assert forall|q: int| 1 <= q < n implies #[trigger] is_digit_part(w[q]) by {
                assert(w[q] == s[i + q]);
            }
            assert(w[0] == s[i]);
        }
    } else if is_letter(s[i]) {
        assert forall|q: int| 0 <= q < n implies #[trigger] is_letter(w[q]) by {
            assert(w[q] == s[i + q]);
        }
    } else if s[i] == '"' as u8 {
        assert forall|q: int| 1 <= q < n - 1 implies #[trigger] w[q] != '"' as u8 by {
            assert(w[q] == s[i + q]);
        }
        assert(w[0] == s[i]);
        assert(w[n - 1] == s[e - 1]);
    } else {
        assert(w[0] == s[i]);
        if n >= 2 {
            assert(w[1] == s[i + 1]);
        }
        if n >= 1 {
            assert(w[n - 1] == s[e - 1]);
        }
        if k != TokenKind::Char {
            assert(w =~= seq![s[i]] || w =~= seq![s[i], s[i + 1]]);
        }
    }
}

/// In valid UTF-8 the byte after an ASCII byte starts a character.
proof fn lemma_boundary_after_ascii(s: Seq<u8>, p: int)
    requires
        valid_utf8(s),
        0 <= p < s.len(),
        s[p] < 0x80,
    ensures
        is_char_boundary(s, p + 1),
{
    if p + 1 == s.len() {
        is_char_boundary_start_end_of_seq(s);
    } else {
        is_char_boundary_iff_not_is_continuation_byte(s, p);
        valid_utf8_split(s, p);
        let t = s.subrange(p, s.len() as int);
        let u = pop_first_scalar(t);
        assert(u =~= s.subrange(p + 1, s.len() as int));
        assert(t[0] == s[p]);
        assert(valid_utf8(u));
        assert(u[0] == s[p + 1]);
        assert(valid_first_scalar(u));
        is_char_boundary_iff_not_is_continuation_byte(s, p + 1);
    }
}

/// Every token of valid UTF-8 text ends on a character boundary, so the cursor
/// never stops inside a character.
pub proof fn lemma_scan_ends_on_boundary(s: Seq<u8>, i: int)
    requires
        valid_utf8(s),
        0 <= i <= s.len(),
    ensures
        is_char_boundary(s, scan(s, i).1),
{
    lemma_scan_advances(s, i);
    is_char_boundary_start_end_of_seq(s);
    let e = scan(s, i).1;
    if i < s.len() && e < s.len() {
        lemma_runs_bounded(s, i);
        lemma_runs_bounded(s, i + 1);
        lemma_runs_stop(s, i);
        lemma_runs_stop(s, i + 1);
        if i + 2 <= s.len() {
            lemma_runs_bounded(s, i + 2);
            lemma_runs_stop(s, i + 2);
        }
        let j = digits_end(s, i + 1);
        if j < s.len() {
            lemma_runs_bounded(s, j + 1);
            lemma_runs_stop(s, j + 1);
        }
        if s[e] < 0x80 {
            is_char_boundary_iff_not_is_continuation_byte(s, e);
        } else {
            assert(s[e - 1] < 0x80);
            lemma_boundary_after_ascii(s, e - 1);
        }
    }
}

} // verus!
