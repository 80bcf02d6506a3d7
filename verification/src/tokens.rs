//! Whitespace tokenization and token n-grams.
//!
//! A token is a maximal run of non-space characters; its range is the
//! half-open character span it covers in the input.  N-grams of consecutive
//! tokens, joined by single spaces, are the candidate surface forms used by
//! the tagging fallback's lexical matching.

use vstd::prelude::*;
use crate::types::{CharRange, Token, TokenView, views_of};

verus! {

/// Whether a character separates tokens.
pub open spec fn is_separator(c: char) -> bool {
    c == ' '
}

/// The token covering characters `st..en` of `s`.
pub open spec fn spec_mk_token(s: Seq<char>, st: int, en: int) -> TokenView {
    TokenView {
        value: s.subrange(st, en),
        char_range: CharRange { start: st as usize, end: en as usize },
    }
}

/// The tokens of `s` found from position `i` on, given that a token began at
/// `cur` and has not ended yet (if `cur` is set).
pub open spec fn spec_tokenize_from(s: Seq<char>, i: int, cur: Option<int>) -> Seq<TokenView>
    decreases s.len() - i,
{
    if i < 0 || i >= s.len() {
        match cur {
            None => Seq::empty(),
            Some(st) => seq![spec_mk_token(s, st, s.len() as int)],
        }
    } else if is_separator(s[i]) {
        match cur {
            None => spec_tokenize_from(s, i + 1, None),
            Some(st) => seq![spec_mk_token(s, st, i)] + spec_tokenize_from(s, i + 1, None),
        }
    } else {
        match cur {
            None => spec_tokenize_from(s, i + 1, Some(i)),
            Some(st) => spec_tokenize_from(s, i + 1, cur),
        }
    }
}

/// The tokens of `s`, in order of appearance.
pub open spec fn spec_tokenize(s: Seq<char>) -> Seq<TokenView> {
    spec_tokenize_from(s, 0, None)
}

/// Whether `t` is a well-placed token of `s`: its range lies inside `s` and
/// its value is exactly the text under its range.
pub open spec fn token_in_text(s: Seq<char>, t: TokenView) -> bool {
    &&& 0 <= t.char_range.start < t.char_range.end <= s.len()
    &&& t.value == s.subrange(t.char_range.start as int, t.char_range.end as int)
}

/// Whether `toks` are well-placed in `s` and appear left to right without
/// overlap.
pub open spec fn tokens_in_text(s: Seq<char>, toks: Seq<TokenView>) -> bool {
    &&& forall|k: int| 0 <= k < toks.len() ==> token_in_text(s, #[trigger] toks[k])
    &&& forall|k: int, l: int|
        0 <= k < l < toks.len() ==> #[trigger] toks[k].char_range.end <= #[trigger] toks[l].char_range.start
}

/// The view of an optional exec position.
pub open spec fn opt_pos_view(c: Option<usize>) -> Option<int> {
    match c {
        Some(st) => Some(st as int),
        None => None,
    }
}

/// All tokens produced from position `i` on lie between `i` (or the pending
/// start `cur`) and the end of `s`, in order, each covering exactly its text.
pub proof fn lemma_tokenize_from_in_text(s: Seq<char>, i: int, cur: Option<int>)
    requires
        0 <= i <= s.len(),
        s.len() <= usize::MAX,
        match cur {
            Some(st) => 0 <= st < i,
            None => true,
        },
    ensures
        tokens_in_text(s, spec_tokenize_from(s, i, cur)),
        forall|k: int|
            0 <= k < spec_tokenize_from(s, i, cur).len()
                ==> (#[trigger] spec_tokenize_from(s, i, cur)[k]).char_range.start >= (match cur {
                Some(st) => st,
                None => i,
            }),
    decreases s.len() - i,
{
    let res = spec_tokenize_from(s, i, cur);
    if i >= s.len() {
        match cur {
            None => {
            },
            Some(st) => {
                assert(res == seq![spec_mk_token(s, st, s.len() as int)]);
                assert(st < s.len());
            },
        }
    } else if is_separator(s[i]) {
        match cur {
            None => {
                lemma_tokenize_from_in_text(s, i + 1, None);
            },
            Some(st) => {
                lemma_tokenize_from_in_text(s, i + 1, None);
                let rest = spec_tokenize_from(s, i + 1, None);
                assert(st < i);
                assert forall|k: int| 0 <= k < res.len() implies token_in_text(
                    s,
                    #[trigger] res[k],
                ) && res[k].char_range.start >= st by {
                    if k == 0 {
                        assert(res[0] == spec_mk_token(s, st, i));
                    } else {
                        assert(res[k] == rest[k - 1]);
                        assert(rest[k - 1].char_range.start >= i + 1);
                    }
                }
                assert forall|k: int, l: int| 0 <= k < l < res.len() implies #[trigger] res[k].char_range.end
                    <= #[trigger] res[l].char_range.start by {
                    if k == 0 {
                        assert(res[0].char_range.end == i);
                        assert(res[l] == rest[l - 1]);
                        assert(rest[l - 1].char_range.start >= i + 1);
                    } else {
                        assert(res[k] == rest[k - 1]);
                        assert(res[l] == rest[l - 1]);
                    }
                }
            },
        }
    } else {
        match cur {
            None => {
                lemma_tokenize_from_in_text(s, i + 1, Some(i));
            },
            Some(st) => {
                lemma_tokenize_from_in_text(s, i + 1, cur);
            },
        }
    }
}

/// All tokens of `s` lie inside `s`, in order, each covering exactly its
/// text.
pub proof fn lemma_tokenize_in_text(s: Seq<char>)
    requires
        s.len() <= usize::MAX,
    ensures
        tokens_in_text(s, spec_tokenize(s)),
{
    lemma_tokenize_from_in_text(s, 0, None);
}

/// Splits `text` into its space-separated tokens.
pub fn tokenize(text: &str) -> (r: Vec<Token>)
    ensures
        views_of(r@) == spec_tokenize(text@),
        tokens_in_text(text@, views_of(r@)),
{
    let n = text.unicode_len();
    let mut toks: Vec<Token> = Vec::new();
    let mut cur: Option<usize> = None;
    let mut i: usize = 0;
    while i < n
        invariant
            n == text@.len(),
            0 <= i <= n,
            match cur {
                Some(st) => st < i,
                None => true,
            },
            spec_tokenize(text@) == views_of(toks@) + spec_tokenize_from(
                text@,
                i as int,
                opt_pos_view(cur),
            ),
        decreases n - i,
    {
        let ghost prev_toks = toks@;
        let ghost prev_cur = opt_pos_view(cur);
        let c = text.get_char(i);
        if c == ' ' {
            if let Some(st) = cur {
                let val: String = text.substring_char(st, i).to_owned();
                let tok = Token { value: val, char_range: CharRange { start: st, end: i } };
                proof {
                    assert(tok@ == spec_mk_token(text@, st as int, i as int));
                }
                toks.push(tok);
                cur = None;
                proof {
                    assert(spec_tokenize_from(text@, i as int, prev_cur) == seq![
                        spec_mk_token(text@, st as int, i as int),
                    ] + spec_tokenize_from(text@, i as int + 1, None));
                    assert(views_of(toks@) =~= views_of(prev_toks) + seq![
                        spec_mk_token(text@, st as int, i as int),
                    ]);
                    assert(views_of(prev_toks) + spec_tokenize_from(text@, i as int, prev_cur)
                        =~= views_of(toks@) + spec_tokenize_from(text@, i as int + 1, None));
                }
            } else {
                proof {
                    assert(spec_tokenize_from(text@, i as int, prev_cur) == spec_tokenize_from(
                        text@,
                        i as int + 1,
                        None,
                    ));
                }
            }
        } else {
            if cur.is_none() {
                cur = Some(i);
                proof {
                    assert(spec_tokenize_from(text@, i as int, prev_cur) == spec_tokenize_from(
                        text@,
                        i as int + 1,
                        Some(i as int),
                    ));
                }
            } else {
                proof {
                    assert(spec_tokenize_from(text@, i as int, prev_cur) == spec_tokenize_from(
                        text@,
                        i as int + 1,
                        prev_cur,
                    ));
                }
            }
        }
        i += 1;
    }
    if let Some(st) = cur {
        let ghost prev_toks = toks@;
        let val: String = text.substring_char(st, n).to_owned();
        let tok = Token { value: val, char_range: CharRange { start: st, end: n } };
        proof {
            assert(tok@ == spec_mk_token(text@, st as int, n as int));
            assert(spec_tokenize_from(text@, n as int, Some(st as int)) == seq![
                spec_mk_token(text@, st as int, n as int),
            ]);
        }
        toks.push(tok);
        proof {
            assert(views_of(toks@) =~= views_of(prev_toks) + seq![
                spec_mk_token(text@, st as int, n as int),
            ]);
            assert(views_of(toks@) =~= spec_tokenize(text@));
        }
    } else {
        proof {
            assert(spec_tokenize_from(text@, n as int, None::<int>) =~= Seq::<TokenView>::empty());
            assert(views_of(toks@) + Seq::<TokenView>::empty() =~= views_of(toks@));
        }
    }
    proof {
        lemma_tokenize_in_text(text@);
    }
    toks
}

/// The surface form of the token n-gram `i..=j`: the token values joined by
/// single spaces.
pub open spec fn spec_ngram(toks: Seq<TokenView>, i: int, j: int) -> Seq<char>
    decreases j - i,
{
    if i >= j {
        toks[i].value
    } else {
        spec_ngram(toks, i, j - 1) + " "@ + toks[j].value
    }
}

/// Builds the surface form of the token n-gram `i..=j`.
pub fn ngram_of(toks: &Vec<Token>, i: usize, j: usize) -> (r: String)
    requires
        i <= j < toks@.len(),
    ensures
        r@ == spec_ngram(views_of(toks@), i as int, j as int),
{
    let n = toks.len();
    let mut s: String = toks[i].value.clone();
    proof {
        assert(views_of(toks@)[i as int] == toks@[i as int]@);
    }
    let mut k: usize = i + 1;
    while k <= j
        invariant
            i < k <= j + 1,
            j < n == toks@.len(),
            s@ == spec_ngram(views_of(toks@), i as int, k as int - 1),
        decreases j + 1 - k,
    {
        s.append(" ");
        s.append(toks[k].value.as_str());
        proof {
            assert(views_of(toks@)[k as int] == toks@[k as int]@);
            assert(s@ == spec_ngram(views_of(toks@), i as int, k as int));
        }
        k += 1;
    }
    s
}

} // verus!
