//! The builtin-entity recognizer.
//!
//! A general-purpose recognizer for closed word classes (numbers and the
//! like): it is configured with a vocabulary of surface forms, each bound
//! to an entity kind and a structured payload, and reports every token of
//! the input whose surface form is in the vocabulary, left to right, the
//! recognizer's own priority order.

use vstd::prelude::*;
use crate::types::{
    BuiltinValue, BuiltinValueView, CharRange, Token, TokenView, clone_builtin_value, views_of,
};
use crate::tokens::{spec_tokenize, tokenize, tokens_in_text};
use crate::parser_api::filter_admits;
use crate::assoc::str_eq;

verus! {

/// One vocabulary row: a surface form, the entity kind it belongs to, and
/// the structured payload it stands for.
pub struct BuiltinVocabEntry {
    pub surface: String,
    pub kind: String,
    pub payload: BuiltinValue,
}

/// A recognizer match: the character span of the matched token, the entity
/// kind, and the structured payload.
pub struct BuiltinEntityMatch {
    pub range: CharRange,
    pub kind: String,
    pub payload: BuiltinValue,
}

#[verifier::ext_equal]
pub ghost struct BuiltinEntityMatchView {
    pub range: CharRange,
    pub kind: Seq<char>,
    pub payload: BuiltinValueView,
}

impl View for BuiltinEntityMatch {
    type V = BuiltinEntityMatchView;

    open spec fn view(&self) -> BuiltinEntityMatchView {
        BuiltinEntityMatchView { range: self.range, kind: self.kind@, payload: self.payload@ }
    }
}

/// The language-scoped recognizer: its vocabulary and the entity-kind
/// identifiers it understands.
pub struct BuiltinEntityParser {
    pub entries: Vec<BuiltinVocabEntry>,
    pub kinds: Vec<String>,
}

/// The mathematical reading of an optional kind filter.
pub open spec fn kind_filter_view(f: Option<&Vec<String>>) -> Option<Seq<Seq<char>>> {
    match f {
        None => None,
        Some(v) => Some(v@.map_values(|s: String| s@)),
    }
}

/// Whether the recognizer understands the entity-kind identifier `k`.
pub open spec fn spec_known_kind(p: &BuiltinEntityParser, k: Seq<char>) -> bool {
    exists|i: int| 0 <= i < p.kinds@.len() && (#[trigger] p.kinds@[i])@ == k
}

/// The first vocabulary row whose surface form is `word` and whose kind the
/// filter admits.
pub open spec fn spec_first_entry(
    entries: Seq<BuiltinVocabEntry>,
    word: Seq<char>,
    filter: Option<Seq<Seq<char>>>,
) -> Option<BuiltinVocabEntry>
    decreases entries.len(),
{
    if entries.len() == 0 {
        None
    } else if entries[0].surface@ == word && filter_admits(filter, entries[0].kind@) {
        Some(entries[0])
    } else {
        spec_first_entry(entries.drop_first(), word, filter)
    }
}

/// The matches over `toks`, in token order: each token whose surface form
/// is a vocabulary word of an admitted kind yields one match.
pub open spec fn spec_extract_from(
    entries: Seq<BuiltinVocabEntry>,
    toks: Seq<TokenView>,
    filter: Option<Seq<Seq<char>>>,
) -> Seq<BuiltinEntityMatchView>
    decreases toks.len(),
{
    if toks.len() == 0 {
        Seq::empty()
    } else {
        let rest = spec_extract_from(entries, toks.drop_first(), filter);
        match spec_first_entry(entries, toks[0].value, filter) {
            Some(e) => seq![
                BuiltinEntityMatchView {
                    range: toks[0].char_range,
                    kind: e.kind@,
                    payload: e.payload@,
                },
            ] + rest,
            None => rest,
        }
    }
}

/// The recognizer's matches over `text`, restricted to the kinds the
/// filter admits.
pub open spec fn spec_extract(
    p: &BuiltinEntityParser,
    text: Seq<char>,
    filter: Option<Seq<Seq<char>>>,
) -> Seq<BuiltinEntityMatchView> {
    spec_extract_from(p.entries@, spec_tokenize(text), filter)
}

impl BuiltinEntityParser {
    /// Checks whether the recognizer understands the entity-kind
    /// identifier `k`.
    pub fn known_kind(&self, k: &str) -> (r: bool)
        ensures
            r == spec_known_kind(self, k@),
    {
        let mut i: usize = 0;
        let mut found = false;
        while i < self.kinds.len()
            invariant
                0 <= i <= self.kinds@.len(),
                found == exists|l: int| 0 <= l < i && (#[trigger] self.kinds@[l])@ == k@,
            decreases self.kinds@.len() - i,
        {
            if str_eq(self.kinds[i].as_str(), k) {
                found = true;
                proof {
                    assert((self.kinds@[i as int])@ == k@);
                }
            }
            i += 1;
        }
        found
    }

    /// Reports every token of `input` whose surface form is a vocabulary
    /// word of an admitted kind, in token order.
    pub fn extract_entities(&self, input: &str, filter: Option<&Vec<String>>) -> (r: Vec<
        BuiltinEntityMatch,
    >)
        ensures
            views_of(r@) == spec_extract(self, input@, kind_filter_view(filter)),
            forall|k: int|
                0 <= k < r@.len() ==> 0 <= (#[trigger] r@[k]).range.start < r@[k].range.end
                    <= input@.len(),
    {
        let toks: Vec<Token> = tokenize(input);
        let ghost tvs = views_of(toks@);
        let ghost fv = kind_filter_view(filter);
        let mut out: Vec<BuiltinEntityMatch> = Vec::new();
        let mut k: usize = 0;
        proof {
            assert(tvs.skip(0) =~= tvs);
        }
        while k < toks.len()
            invariant
                0 <= k <= toks@.len(),
                tvs == views_of(toks@),
                tvs == spec_tokenize(input@),
                tokens_in_text(input@, tvs),
                fv == kind_filter_view(filter),
                spec_extract(self, input@, fv) == views_of(out@) + spec_extract_from(
                    self.entries@,
                    tvs.skip(k as int),
                    fv,
                ),
                forall|l: int|
                    0 <= l < out@.len() ==> 0 <= (#[trigger] out@[l]).range.start
                        < out@[l].range.end <= input@.len(),
            decreases toks@.len() - k,
        {
            proof {
                assert(tvs.skip(k as int)[0] == tvs[k as int]);
                assert(tvs[k as int] == toks@[k as int]@);
                assert(tvs.skip(k as int).drop_first() =~= tvs.skip(k as int + 1));
            }
            let found = self.first_entry(&toks[k].value, filter);
            match found {
                Some(e) => {
                    let m = BuiltinEntityMatch {
                        range: toks[k].char_range,
                        kind: e.kind.clone(),
                        payload: clone_builtin_value(&e.payload),
                    };
                    let ghost old_out = out@;
                    let ghost mg = m;
                    proof {
                        assert(crate::tokens::token_in_text(input@, tvs[k as int]));
                    }
                    out.push(m);
                    proof {
                        crate::types::lemma_views_push(old_out, mg);
                        assert(spec_extract_from(self.entries@, tvs.skip(k as int), fv) == seq![
                            mg@,
                        ] + spec_extract_from(self.entries@, tvs.skip(k as int).drop_first(), fv));
                        assert(views_of(out@) =~= views_of(old_out).push(mg@));
                        assert(views_of(old_out) + spec_extract_from(
                            self.entries@,
                            tvs.skip(k as int),
                            fv,
                        ) =~= views_of(out@) + spec_extract_from(
                            self.entries@,
                            tvs.skip(k as int + 1),
                            fv,
                        ));
                    }
                },
                None => {
                    proof {
                        assert(spec_extract_from(self.entries@, tvs.skip(k as int), fv)
                            == spec_extract_from(self.entries@, tvs.skip(k as int + 1), fv));
                    }
                },
            }
            k += 1;
        }
        proof {
            assert(tvs.skip(toks@.len() as int) =~= Seq::<TokenView>::empty());
            assert(views_of(out@) + Seq::<BuiltinEntityMatchView>::empty() =~= views_of(out@));
        }
        out
    }

    /// Finds the first vocabulary row matching `word` under the filter.
    fn first_entry(&self, word: &String, filter: Option<&Vec<String>>) -> (r: Option<
        &BuiltinVocabEntry,
    >)
        ensures
            match r {
                Some(e) => spec_first_entry(self.entries@, word@, kind_filter_view(filter))
                    == Some(*e),
                None => spec_first_entry(self.entries@, word@, kind_filter_view(filter)) is None,
            },
    {
        let mut i: usize = 0;
        proof {
            assert(self.entries@.skip(0) =~= self.entries@);
        }
        while i < self.entries.len()
            invariant
                0 <= i <= self.entries@.len(),
                spec_first_entry(self.entries@, word@, kind_filter_view(filter))
                    == spec_first_entry(
                    self.entries@.skip(i as int),
                    word@,
                    kind_filter_view(filter),
                ),
            decreases self.entries@.len() - i,
        {
            proof {
                assert(self.entries@.skip(i as int)[0] == self.entries@[i as int]);
                assert(self.entries@.skip(i as int).drop_first() =~= self.entries@.skip(
                    i as int + 1,
                ));
            }
            let e = &self.entries[i];
            if str_eq(e.surface.as_str(), word.as_str()) && kind_admitted(filter, e.kind.as_str()) {
                return Some(e);
            }
            i += 1;
        }
        None
    }
}

/// Whether the token's range lies inside `s` with a nonempty span.
pub open spec fn token_range_ok(s: Seq<char>, t: TokenView) -> bool {
    0 <= t.char_range.start < t.char_range.end <= s.len()
}

/// Checks whether the kind filter admits `kind`.
fn kind_admitted(f: Option<&Vec<String>>, kind: &str) -> (r: bool)
    ensures
        r == filter_admits(kind_filter_view(f), kind@),
{
    match f {
        None => true,
        Some(v) => {
            let mut j: usize = 0;
            let mut found = false;
            while j < v.len()
                invariant
                    0 <= j <= v@.len(),
                    found == exists|l: int| 0 <= l < j && (#[trigger] v@[l])@ == kind@,
                decreases v@.len() - j,
            {
                if str_eq(v[j].as_str(), kind) {
                    found = true;
                    proof {
                        assert((v@[j as int])@ == kind@);
                    }
                }
                j += 1;
            }
            proof {
                let fs = v@.map_values(|s: String| s@);
                if found {
                    let l = choose|l: int| 0 <= l < v@.len() && (#[trigger] v@[l])@ == kind@;
                    assert(fs[l] == kind@);
                    assert(fs.contains(kind@));
                } else {
                    if fs.contains(kind@) {
                        let l = choose|l: int| 0 <= l < fs.len() && fs[l] == kind@;
                        assert((v@[l])@ == kind@);
                    }
                }
            }
            found
        },
    }
}

} // verus!
