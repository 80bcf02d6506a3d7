//! The library's laws: properties of parsing, normalization, single-slot
//! extraction and tagging, each proved from the public specifications.

use vstd::prelude::*;
use crate::assoc::assoc_find;
use crate::builtin::BuiltinEntityParser;
use crate::engine::{
    lemma_spec_parse_props, normalize_slot_spec, spec_baseline, spec_extract_slot, spec_parse,
    spec_seen_loop, spec_tag, spec_tag_seen, spec_window_candidate, threshold_of,
};
use crate::parser_api::IntentParser;
use crate::tagging::{
    lemma_enrich_prefix, lemma_enrich_sources, overlaps_any, pairwise_nonoverlapping, spec_enrich,
};
use crate::types::{Entity, NluErrorView, SlotValueView, SlotView, TaggedEntityView, TokenView};

verus! {

/// If a parse yields no intent it yields no slots, and the other way
/// round: the two are absent or present together, for every input.
pub proof fn law_parse_intent_slots_agree<P: IntentParser>(
    parsers: Seq<P>,
    entities: Seq<(String, Entity)>,
    input: Seq<char>,
    filter: Option<Seq<Seq<char>>>,
)
    requires
        forall|k: int| 0 <= k < parsers.len() ==> (#[trigger] parsers[k]).wf(),
    ensures
        match spec_parse(parsers, entities, input, filter) {
            Ok(res) => (res.intent is None) <==> (res.slots is None),
            Err(_) => true,
        },
{
    lemma_spec_parse_props(parsers, entities, input, filter);
}

/// The waterfall yields at most one intent, and exactly the first
/// strategy's answer: when every strategy before `k` declines and strategy
/// `k` classifies, the parse returns strategy `k`'s classification with its
/// normalized slots, and no later strategy is consulted.
pub proof fn law_parse_first_strategy_wins<P: IntentParser>(
    parsers: Seq<P>,
    entities: Seq<(String, Entity)>,
    input: Seq<char>,
    filter: Option<Seq<Seq<char>>>,
    k: int,
)
    requires
        0 <= k < parsers.len(),
        forall|l: int|
            0 <= l < k ==> (#[trigger] parsers[l]).spec_get_intent(input, filter) == Ok::<
                Option<crate::types::IntentClassificationView>,
                NluErrorView,
            >(None),
    ensures
        spec_parse(parsers, entities, input, filter) == (match parsers[k].spec_get_intent(
            input,
            filter,
        ) {
            Err(e) => Err::<crate::types::IntentParserResultView, NluErrorView>(e),
            Ok(None) => spec_parse(parsers.skip(k + 1), entities, input, filter),
            Ok(Some(c)) => match parsers[k].spec_get_slots(input, c.intent_name) {
                Err(e) => Err(e),
                Ok(ss) => Ok(
                    crate::types::IntentParserResultView {
                        input,
                        intent: Some(c),
                        slots: Some(crate::engine::normalize_slots_spec(entities, ss)),
                    },
                ),
            },
        }),
    decreases k,
{
    if k == 0 {
        assert(parsers.skip(1) =~= parsers.drop_first());
    } else {
        assert(parsers[0].spec_get_intent(input, filter) == Ok::<
            Option<crate::types::IntentClassificationView>,
            NluErrorView,
        >(None));
        assert(forall|l: int|
            0 <= l < k - 1 ==> (#[trigger] parsers.drop_first()[l]).spec_get_intent(input, filter)
                == Ok::<Option<crate::types::IntentClassificationView>, NluErrorView>(None));
        law_parse_first_strategy_wins(parsers.drop_first(), entities, input, filter, k - 1);
        assert(parsers.drop_first()[k - 1] == parsers[k]);
        assert(parsers.drop_first().skip(k) =~= parsers.skip(k + 1));
    }
}

/// A slot of a closed (non-extensible) catalog entity survives
/// normalization only with a canonical value: the value found in the
/// entity's utterance map under the slot's raw value, never an
/// out-of-vocabulary echo.
pub proof fn law_closed_entity_yields_canonical(
    entities: Seq<(String, Entity)>,
    s: SlotView,
    ent: Entity,
)
    requires
        assoc_find(entities, s.entity) == Some(ent),
        !ent.automatically_extensible,
    ensures
        match normalize_slot_spec(entities, s) {
            Some(t) => assoc_find(ent.utterances@, s.raw_value) is Some && t.value
                == SlotValueView::Custom(assoc_find(ent.utterances@, s.raw_value).unwrap()@),
            None => assoc_find(ent.utterances@, s.raw_value) is None,
        },
{
}

/// A slot of an extensible catalog entity whose raw value has no utterance
/// match survives normalization with the raw input echoed back unchanged.
pub proof fn law_extensible_entity_echoes_raw(
    entities: Seq<(String, Entity)>,
    s: SlotView,
    ent: Entity,
)
    requires
        assoc_find(entities, s.entity) == Some(ent),
        ent.automatically_extensible,
        assoc_find(ent.utterances@, s.raw_value) is None,
    ensures
        match normalize_slot_spec(entities, s) {
            Some(t) => t.value == SlotValueView::Custom(s.raw_value) && t.raw_value == s.raw_value,
            None => false,
        },
{
}

/// Single-slot extraction always fails, and with the corresponding typed
/// error, on an unregistered intent or slot name; it never returns a value
/// there.
pub proof fn law_extract_slot_unknown_names(
    mapping: Seq<(String, Vec<(String, String)>)>,
    entities: Seq<(String, Entity)>,
    bp: BuiltinEntityParser,
    input: Seq<char>,
    intent_name: Seq<char>,
    slot_name: Seq<char>,
)
    ensures
        assoc_find(mapping, intent_name) is None ==> spec_extract_slot(
            mapping,
            entities,
            bp,
            input,
            intent_name,
            slot_name,
        ) == Err::<Option<SlotView>, NluErrorView>(NluErrorView::UnknownIntent(intent_name)),
        (match assoc_find(mapping, intent_name) {
            Some(imap) => assoc_find(imap@, slot_name) is None ==> spec_extract_slot(
                mapping,
                entities,
                bp,
                input,
                intent_name,
                slot_name,
            ) == Err::<Option<SlotView>, NluErrorView>(NluErrorView::UnknownSlot(slot_name)),
            None => true,
        }),
{
}

/// With training data at or above the threshold, tagging returns exactly
/// the classifier baseline, unmodified.
pub proof fn law_tag_high_data_is_baseline<P: IntentParser>(
    parsers: Seq<P>,
    entities: Seq<(String, Entity)>,
    data_sizes: Seq<(String, usize)>,
    mapping: Seq<(String, Vec<(String, String)>)>,
    bp: BuiltinEntityParser,
    text: Seq<char>,
    intent: Seq<char>,
    threshold: Option<usize>,
    sz: usize,
)
    requires
        assoc_find(data_sizes, intent) == Some(sz),
        assoc_find(mapping, intent) is Some,
        sz >= threshold_of(threshold),
    ensures
        spec_tag(parsers, entities, data_sizes, mapping, bp, text, intent, threshold)
            == spec_baseline(parsers, entities, text, intent),
{
}

/// In the low-data branch, no two tagged spans of the returned sequence
/// have overlapping ranges.
pub proof fn law_tag_low_data_nonoverlap<P: IntentParser>(
    parsers: Seq<P>,
    entities: Seq<(String, Entity)>,
    data_sizes: Seq<(String, usize)>,
    mapping: Seq<(String, Vec<(String, String)>)>,
    bp: BuiltinEntityParser,
    text: Seq<char>,
    intent: Seq<char>,
    threshold: Option<usize>,
    sz: usize,
)
    requires
        assoc_find(data_sizes, intent) == Some(sz),
        sz < threshold_of(threshold),
    ensures
        match spec_tag(parsers, entities, data_sizes, mapping, bp, text, intent, threshold) {
            Ok(tags) => pairwise_nonoverlapping(tags),
            Err(_) => true,
        },
{
    match assoc_find(mapping, intent) {
        None => {
        },
        Some(imap) => {
            match spec_baseline(parsers, entities, text, intent) {
                Err(_) => {
                },
                Ok(baseline) => {
                    let toks = crate::tokens::spec_tokenize(text);
                    crate::engine::lemma_spec_seen_loop_nonoverlap(
                        entities,
                        imap@,
                        toks,
                        text,
                        toks.len() as int,
                        0,
                        Seq::empty(),
                    );
                    let seen = spec_tag_seen(entities, imap@, text);
                    let builtins = crate::engine::spec_tag_builtin(bp, text);
                    crate::tagging::lemma_enrich_nonoverlap(seen, builtins);
                    crate::tagging::lemma_enrich_nonoverlap(
                        spec_enrich(seen, builtins),
                        baseline,
                    );
                    crate::tagging::lemma_disambiguate_nonoverlap(
                        spec_enrich(spec_enrich(seen, builtins), baseline),
                        imap@,
                    );
                },
            }
        },
    }
}

/// Whether `te` is the candidate of some token window: a span whose
/// surface form matches exactly one relevant entity's utterances — an
/// ambiguous window (two or more distinct matching entities) yields no
/// candidate at all, so none can be accepted.
pub open spec fn is_seen_candidate(
    entities: Seq<(String, Entity)>,
    imap: Seq<(String, String)>,
    toks: Seq<TokenView>,
    text: Seq<char>,
    te: TaggedEntityView,
) -> bool {
    exists|i: int, j: int|
        0 <= i <= j < toks.len() && #[trigger] spec_window_candidate(entities, imap, toks, text, i, j)
            == Some(te)
}

/// Every span the seen-entity walk accepts beyond its starting set is a
/// window candidate, hence unambiguous: its surface form matches exactly
/// one relevant entity.
pub proof fn lemma_seen_loop_sound(
    entities: Seq<(String, Entity)>,
    imap: Seq<(String, String)>,
    toks: Seq<TokenView>,
    text: Seq<char>,
    len: int,
    start: int,
    acc: Seq<TaggedEntityView>,
)
    ensures
        forall|k: int|
            0 <= k < spec_seen_loop(entities, imap, toks, text, len, start, acc).len()
                ==> acc.contains(#[trigger] spec_seen_loop(entities, imap, toks, text, len, start, acc)[k])
                || is_seen_candidate(
                entities,
                imap,
                toks,
                text,
                spec_seen_loop(entities, imap, toks, text, len, start, acc)[k],
            ),
    decreases len, toks.len() - start,
{
    let res = spec_seen_loop(entities, imap, toks, text, len, start, acc);
    if len <= 0 {
        assert forall|k: int| 0 <= k < res.len() implies acc.contains(#[trigger] res[k])
            || is_seen_candidate(entities, imap, toks, text, res[k]) by {
            assert(res[k] == acc[k]);
            assert(acc.contains(acc[k]));
        }
    } else if start < 0 || start + len > toks.len() {
        lemma_seen_loop_sound(entities, imap, toks, text, len - 1, 0, acc);
        assert forall|k: int| 0 <= k < res.len() implies acc.contains(#[trigger] res[k])
            || is_seen_candidate(entities, imap, toks, text, res[k]) by {
            assert(res[k] == spec_seen_loop(entities, imap, toks, text, len - 1, 0, acc)[k]);
        }
    } else {
        let cand = spec_window_candidate(entities, imap, toks, text, start, start + len - 1);
        match cand {
            Some(te0) => {
                let acc2 = spec_enrich(acc, seq![te0]);
                lemma_seen_loop_sound(entities, imap, toks, text, len, start + 1, acc2);
                lemma_enrich_sources(acc, seq![te0]);
                assert forall|k: int| 0 <= k < res.len() implies acc.contains(#[trigger] res[k])
                    || is_seen_candidate(entities, imap, toks, text, res[k]) by {
                    assert(res == spec_seen_loop(entities, imap, toks, text, len, start + 1, acc2));
                    assert(res[k] == spec_seen_loop(entities, imap, toks, text, len, start + 1, acc2)[k]);
                    if acc2.contains(res[k]) {
                        let l = choose|l: int| 0 <= l < acc2.len() && acc2[l] == res[k];
                        assert(acc.contains(acc2[l]) || seq![te0].contains(acc2[l]));
                        if seq![te0].contains(acc2[l]) {
                            assert(seq![te0][0] == te0);
                            assert(res[k] == te0);
                            assert(0 <= start <= start + len - 1 < toks.len()
                                && spec_window_candidate(
                                entities,
                                imap,
                                toks,
                                text,
                                start,
                                start + len - 1,
                            ) == Some(res[k]));
                            assert(is_seen_candidate(entities, imap, toks, text, res[k]));
                        }
                    }
                }
            },
            None => {
                lemma_seen_loop_sound(entities, imap, toks, text, len, start + 1, acc);
                assert forall|k: int| 0 <= k < res.len() implies acc.contains(#[trigger] res[k])
                    || is_seen_candidate(entities, imap, toks, text, res[k]) by {
                    assert(res[k] == spec_seen_loop(entities, imap, toks, text, len, start + 1, acc)[k]);
                }
            },
        }
    }
}

/// No ambiguous n-gram ever appears in the seen-entity candidate set:
/// every accepted span is the candidate of some window, and a window's
/// candidate exists only when its surface form matches exactly one
/// relevant entity.
pub proof fn law_seen_entities_unambiguous(
    entities: Seq<(String, Entity)>,
    imap: Seq<(String, String)>,
    text: Seq<char>,
)
    ensures
        forall|k: int|
            0 <= k < spec_tag_seen(entities, imap, text).len() ==> is_seen_candidate(
                entities,
                imap,
                crate::tokens::spec_tokenize(text),
                text,
                #[trigger] spec_tag_seen(entities, imap, text)[k],
            ),
{
    let toks = crate::tokens::spec_tokenize(text);
    lemma_seen_loop_sound(entities, imap, toks, text, toks.len() as int, 0, Seq::empty());
    assert forall|k: int| 0 <= k < spec_tag_seen(entities, imap, text).len() implies is_seen_candidate(
        entities,
        imap,
        toks,
        text,
        #[trigger] spec_tag_seen(entities, imap, text)[k],
    ) by {
        assert(!Seq::<TaggedEntityView>::empty().contains(spec_tag_seen(entities, imap, text)[k]));
    }
}

/// The walk never removes an accepted span: the starting set stays a
/// prefix of the result, so spans accepted earlier — from longer windows —
/// are never displaced by later, shorter ones.
pub proof fn lemma_seen_loop_prefix(
    entities: Seq<(String, Entity)>,
    imap: Seq<(String, String)>,
    toks: Seq<TokenView>,
    text: Seq<char>,
    len: int,
    start: int,
    acc: Seq<TaggedEntityView>,
)
    ensures
        spec_seen_loop(entities, imap, toks, text, len, start, acc).len() >= acc.len(),
        forall|k: int|
            0 <= k < acc.len() ==> #[trigger] spec_seen_loop(entities, imap, toks, text, len, start, acc)[k]
                == acc[k],
    decreases len, toks.len() - start,
{
    if len <= 0 {
    } else if start < 0 || start + len > toks.len() {
        lemma_seen_loop_prefix(entities, imap, toks, text, len - 1, 0, acc);
    } else {
        match spec_window_candidate(entities, imap, toks, text, start, start + len - 1) {
            Some(te0) => {
                let acc2 = spec_enrich(acc, seq![te0]);
                lemma_enrich_prefix(acc, seq![te0]);
                lemma_seen_loop_prefix(entities, imap, toks, text, len, start + 1, acc2);
            },
            None => {
                lemma_seen_loop_prefix(entities, imap, toks, text, len, start + 1, acc);
            },
        }
    }
}

/// Greedy preference: a window's candidate is never silently dropped — it
/// is either in the final accepted set or overlaps a span accepted before
/// it, and since windows are walked longest first, whatever displaced it
/// came from a window at least as long.
pub proof fn law_seen_greedy_complete(
    entities: Seq<(String, Entity)>,
    imap: Seq<(String, String)>,
    text: Seq<char>,
)
    ensures
        forall|i: int, j: int|
            0 <= i <= j < crate::tokens::spec_tokenize(text).len()
                && (#[trigger] spec_window_candidate(
                entities,
                imap,
                crate::tokens::spec_tokenize(text),
                text,
                i,
                j,
            )) is Some ==> spec_tag_seen(entities, imap, text).contains(
                spec_window_candidate(
                    entities,
                    imap,
                    crate::tokens::spec_tokenize(text),
                    text,
                    i,
                    j,
                )->Some_0,
            ) || overlaps_any(
                spec_tag_seen(entities, imap, text),
                spec_window_candidate(
                    entities,
                    imap,
                    crate::tokens::spec_tokenize(text),
                    text,
                    i,
                    j,
                )->Some_0,
            ),
{
    let toks = crate::tokens::spec_tokenize(text);
    lemma_seen_loop_complete(entities, imap, toks, text, toks.len() as int, 0, Seq::empty());
    assert forall|i: int, j: int|
        0 <= i <= j < toks.len() && (#[trigger] spec_window_candidate(entities, imap, toks, text, i, j))
            is Some implies spec_tag_seen(entities, imap, text).contains(
        spec_window_candidate(entities, imap, toks, text, i, j)->Some_0,
    ) || overlaps_any(
        spec_tag_seen(entities, imap, text),
        spec_window_candidate(entities, imap, toks, text, i, j)->Some_0,
    ) by {
        assert(j - i + 1 <= toks.len());
        if j - i + 1 == toks.len() {
            assert(i >= 0);
        }
    }
}

/// Induction core of the greedy completeness law: at state `(len, start)`
/// every window already walked — longer than `len`, or of length `len`
/// left of `start` — has its candidate accepted or overlapped.
pub proof fn lemma_seen_loop_complete(
    entities: Seq<(String, Entity)>,
    imap: Seq<(String, String)>,
    toks: Seq<TokenView>,
    text: Seq<char>,
    len: int,
    start: int,
    acc: Seq<TaggedEntityView>,
)
    requires
        0 <= start,
    ensures
        forall|i: int, j: int|
            0 <= i <= j < toks.len() && (j - i + 1 < len || (j - i + 1 == len && i >= start))
                && (#[trigger] spec_window_candidate(entities, imap, toks, text, i, j)) is Some
                ==> spec_seen_loop(entities, imap, toks, text, len, start, acc).contains(
                spec_window_candidate(entities, imap, toks, text, i, j)->Some_0,
            ) || overlaps_any(
                spec_seen_loop(entities, imap, toks, text, len, start, acc),
                spec_window_candidate(entities, imap, toks, text, i, j)->Some_0,
            ),
    decreases len, toks.len() - start,
{
    let res = spec_seen_loop(entities, imap, toks, text, len, start, acc);
    if len <= 0 {
    } else if start + len > toks.len() {
        lemma_seen_loop_complete(entities, imap, toks, text, len - 1, 0, acc);
        assert forall|i: int, j: int|
            0 <= i <= j < toks.len() && (j - i + 1 < len || (j - i + 1 == len && i >= start))
                && (#[trigger] spec_window_candidate(entities, imap, toks, text, i, j)) is Some
                implies res.contains(
            spec_window_candidate(entities, imap, toks, text, i, j)->Some_0,
        ) || overlaps_any(res, spec_window_candidate(entities, imap, toks, text, i, j)->Some_0) by {
            if j - i + 1 == len && i >= start {
                assert(j < toks.len());
                assert(i + len <= toks.len());
                assert(i < start);
            }
        }
    } else {
        let cand = spec_window_candidate(entities, imap, toks, text, start, start + len - 1);
        let acc2 = match cand {
            Some(te0) => spec_enrich(acc, seq![te0]),
            None => acc,
        };
        lemma_seen_loop_complete(entities, imap, toks, text, len, start + 1, acc2);
        lemma_seen_loop_prefix(entities, imap, toks, text, len, start + 1, acc2);
        assert forall|i: int, j: int|
            0 <= i <= j < toks.len() && (j - i + 1 < len || (j - i + 1 == len && i >= start))
                && (#[trigger] spec_window_candidate(entities, imap, toks, text, i, j)) is Some
                implies res.contains(
            spec_window_candidate(entities, imap, toks, text, i, j)->Some_0,
        ) || overlaps_any(res, spec_window_candidate(entities, imap, toks, text, i, j)->Some_0) by {
            let te = spec_window_candidate(entities, imap, toks, text, i, j)->Some_0;
            assert(res == spec_seen_loop(entities, imap, toks, text, len, start + 1, acc2));
            if j - i + 1 < len || (j - i + 1 == len && i >= start + 1) {
            } else {
                assert(i == start && j == start + len - 1);
                assert(cand == Some(te));
                if overlaps_any(acc, te) {
                    let l = choose|l: int|
                        0 <= l < acc.len() && crate::tagging::ranges_overlap(
                            (#[trigger] acc[l]).range,
                            te.range,
                        );
                    assert(acc2[l] == acc[l]) by {
                        match cand {
                            Some(te0) => {
                                lemma_enrich_prefix(acc, seq![te0]);
                            },
                            None => {
                            },
                        }
                    }
                    assert(acc2.len() >= acc.len()) by {
                        match cand {
                            Some(te0) => {
                                lemma_enrich_prefix(acc, seq![te0]);
                            },
                            None => {
                            },
                        }
                    }
                    assert(spec_seen_loop(entities, imap, toks, text, len, start + 1, acc2)[l]
                        == acc2[l]);
                    assert(res[l] == acc2[l]);
                    assert(crate::tagging::ranges_overlap(res[l].range, te.range));
                    assert(overlaps_any(res, te));
                } else {
                    assert(acc2 == spec_enrich(acc, seq![te]));
                    assert(seq![te].drop_first() =~= Seq::<TaggedEntityView>::empty());
                    assert(!overlaps_any(acc, seq![te][0]));
                    assert(acc2 == spec_enrich(acc.push(te), Seq::<TaggedEntityView>::empty()));
                    assert(acc2 == acc.push(te));
                    assert(acc2[acc.len() as int] == te);
                    assert(spec_seen_loop(entities, imap, toks, text, len, start + 1, acc2)[acc.len() as int]
                        == acc2[acc.len() as int]);
                    assert(res[acc.len() as int] == te);
                    assert(res.contains(te));
                }
            }
        }
    }
}


/// Whether a tagged span's range lies inside `text` and its value is
/// exactly the text under its range.
pub open spec fn tag_in_text(text: Seq<char>, te: TaggedEntityView) -> bool {
    match te.range {
        None => true,
        Some(rg) => rg.start <= rg.end <= text.len() && te.value == text.subrange(
            rg.start as int,
            rg.end as int,
        ),
    }
}

/// Whether every span of `tags` round-trips through `text`.
pub open spec fn all_tags_in_text(text: Seq<char>, tags: Seq<TaggedEntityView>) -> bool {
    forall|k: int| 0 <= k < tags.len() ==> tag_in_text(text, #[trigger] tags[k])
}

/// A window candidate covers exactly the text under its range.
proof fn lemma_window_candidate_in_text(
    entities: Seq<(String, Entity)>,
    imap: Seq<(String, String)>,
    toks: Seq<TokenView>,
    text: Seq<char>,
    i: int,
    j: int,
)
    requires
        crate::tokens::tokens_in_text(text, toks),
        0 <= i <= j < toks.len(),
    ensures
        match spec_window_candidate(entities, imap, toks, text, i, j) {
            Some(te) => tag_in_text(text, te),
            None => true,
        },
{
    assert(crate::tokens::token_in_text(text, toks[i]));
    assert(crate::tokens::token_in_text(text, toks[j]));
    if i < j {
        assert(toks[i].char_range.end <= toks[j].char_range.start);
    }
}

/// The seen-entity walk only ever adds spans that round-trip.
proof fn lemma_seen_loop_in_text(
    entities: Seq<(String, Entity)>,
    imap: Seq<(String, String)>,
    toks: Seq<TokenView>,
    text: Seq<char>,
    len: int,
    start: int,
    acc: Seq<TaggedEntityView>,
)
    requires
        crate::tokens::tokens_in_text(text, toks),
        all_tags_in_text(text, acc),
    ensures
        all_tags_in_text(text, spec_seen_loop(entities, imap, toks, text, len, start, acc)),
    decreases len, toks.len() - start,
{
    if len <= 0 {
    } else if start < 0 || start + len > toks.len() {
        lemma_seen_loop_in_text(entities, imap, toks, text, len - 1, 0, acc);
    } else {
        match spec_window_candidate(entities, imap, toks, text, start, start + len - 1) {
            Some(te0) => {
                lemma_window_candidate_in_text(entities, imap, toks, text, start, start + len - 1);
                let acc2 = spec_enrich(acc, seq![te0]);
                lemma_enrich_in_text(text, acc, seq![te0]);
                lemma_seen_loop_in_text(entities, imap, toks, text, len, start + 1, acc2);
            },
            None => {
                lemma_seen_loop_in_text(entities, imap, toks, text, len, start + 1, acc);
            },
        }
    }
}

/// Merging spans that round-trip yields only spans that round-trip.
proof fn lemma_enrich_in_text(
    text: Seq<char>,
    acc: Seq<TaggedEntityView>,
    adds: Seq<TaggedEntityView>,
)
    requires
        all_tags_in_text(text, acc),
        all_tags_in_text(text, adds),
    ensures
        all_tags_in_text(text, spec_enrich(acc, adds)),
{
    let res = spec_enrich(acc, adds);
    lemma_enrich_sources(acc, adds);
    assert forall|k: int| 0 <= k < res.len() implies tag_in_text(text, #[trigger] res[k]) by {
        assert(acc.contains(res[k]) || adds.contains(res[k]));
        if acc.contains(res[k]) {
            let l = choose|l: int| 0 <= l < acc.len() && acc[l] == res[k];
            assert(tag_in_text(text, acc[l]));
        } else {
            let l = choose|l: int| 0 <= l < adds.len() && adds[l] == res[k];
            assert(tag_in_text(text, adds[l]));
        }
    }
}

/// Every recognizer match lies inside the text it was found in.
proof fn lemma_extract_ranges_in_text(
    entries: Seq<crate::builtin::BuiltinVocabEntry>,
    toks: Seq<TokenView>,
    filter: Option<Seq<Seq<char>>>,
    text: Seq<char>,
)
    requires
        crate::tokens::tokens_in_text(text, toks),
    ensures
        forall|k: int|
            0 <= k < crate::builtin::spec_extract_from(entries, toks, filter).len()
                ==> 0 <= (#[trigger] crate::builtin::spec_extract_from(entries, toks, filter)[k]).range.start
                < crate::builtin::spec_extract_from(entries, toks, filter)[k].range.end <= text.len(),
    decreases toks.len(),
{
    let res = crate::builtin::spec_extract_from(entries, toks, filter);
    if toks.len() > 0 {
        assert(crate::tokens::tokens_in_text(text, toks.drop_first())) by {
            assert(forall|k: int|
                0 <= k < toks.drop_first().len() ==> #[trigger] toks.drop_first()[k] == toks[k + 1]);
        }
        lemma_extract_ranges_in_text(entries, toks.drop_first(), filter, text);
        let rest = crate::builtin::spec_extract_from(entries, toks.drop_first(), filter);
        assert(crate::tokens::token_in_text(text, toks[0]));
        assert forall|k: int| 0 <= k < res.len() implies 0 <= (#[trigger] res[k]).range.start
            < res[k].range.end <= text.len() by {
            match crate::builtin::spec_first_entry(entries, toks[0].value, filter) {
                Some(_) => {
                    if k > 0 {
                        assert(res[k] == rest[k - 1]);
                    }
                },
                None => {
                    assert(res[k] == rest[k]);
                },
            }
        }
    }
}

/// Every builtin-derived span round-trips through its text.
proof fn lemma_tag_builtin_in_text(bp: BuiltinEntityParser, text: Seq<char>)
    requires
        text.len() <= usize::MAX,
    ensures
        all_tags_in_text(text, crate::engine::spec_tag_builtin(bp, text)),
{
    let toks = crate::tokens::spec_tokenize(text);
    crate::tokens::lemma_tokenize_in_text(text);
    lemma_extract_ranges_in_text(bp.entries@, toks, None, text);
    let ms = crate::builtin::spec_extract(&bp, text, None);
    let res = crate::engine::spec_tag_builtin(bp, text);
    assert forall|k: int| 0 <= k < res.len() implies tag_in_text(text, #[trigger] res[k]) by {
        assert(res[k] == crate::engine::te_of_match(text, ms[k]));
        assert(0 <= ms[k].range.start < ms[k].range.end <= text.len());
    }
}

/// Every classifier-baseline span round-trips through its text.
proof fn lemma_baseline_in_text<P: IntentParser>(
    parsers: Seq<P>,
    entities: Seq<(String, Entity)>,
    text: Seq<char>,
    intent: Seq<char>,
)
    requires
        forall|k: int| 0 <= k < parsers.len() ==> (#[trigger] parsers[k]).wf(),
    ensures
        match spec_baseline(parsers, entities, text, intent) {
            Ok(tags) => all_tags_in_text(text, tags),
            Err(_) => true,
        },
{
    lemma_spec_parse_props(parsers, entities, text, Some(seq![intent]));
    match spec_parse(parsers, entities, text, Some(seq![intent])) {
        Err(_) => {
        },
        Ok(res) => {
            match res.slots {
                None => {
                },
                Some(ss) => {
                    let tags = crate::engine::tagged_of_slots(ss);
                    assert forall|k: int| 0 <= k < tags.len() implies tag_in_text(
                        text,
                        #[trigger] tags[k],
                    ) by {
                        assert(tags[k] == crate::engine::spec_slot_to_tagged(ss[k]));
                        assert(crate::parser_api::slot_range_consistent(text, ss[k]));
                    }
                },
            }
        },
    }
}

/// Round trip: every span of a tagging result that carries a range covers
/// exactly `text[range.start .. range.end]`, in both regimes.
pub proof fn law_tag_round_trip<P: IntentParser>(
    parsers: Seq<P>,
    entities: Seq<(String, Entity)>,
    data_sizes: Seq<(String, usize)>,
    mapping: Seq<(String, Vec<(String, String)>)>,
    bp: BuiltinEntityParser,
    text: Seq<char>,
    intent: Seq<char>,
    threshold: Option<usize>,
)
    requires
        forall|k: int| 0 <= k < parsers.len() ==> (#[trigger] parsers[k]).wf(),
        text.len() <= usize::MAX,
    ensures
        match spec_tag(parsers, entities, data_sizes, mapping, bp, text, intent, threshold) {
            Ok(tags) => all_tags_in_text(text, tags),
            Err(_) => true,
        },
{
    match assoc_find(data_sizes, intent) {
        None => {
        },
        Some(sz) => {
            match assoc_find(mapping, intent) {
                None => {
                },
                Some(imap) => {
                    lemma_baseline_in_text(parsers, entities, text, intent);
                    match spec_baseline(parsers, entities, text, intent) {
                        Err(_) => {
                        },
                        Ok(baseline) => {
                            if sz >= threshold_of(threshold) {
                            } else {
                                let toks = crate::tokens::spec_tokenize(text);
                                crate::tokens::lemma_tokenize_in_text(text);
                                lemma_seen_loop_in_text(
                                    entities,
                                    imap@,
                                    toks,
                                    text,
                                    toks.len() as int,
                                    0,
                                    Seq::empty(),
                                );
                                let seen = spec_tag_seen(entities, imap@, text);
                                let builtins = crate::engine::spec_tag_builtin(bp, text);
                                lemma_tag_builtin_in_text(bp, text);
                                lemma_enrich_in_text(text, seen, builtins);
                                lemma_enrich_in_text(
                                    text,
                                    spec_enrich(seen, builtins),
                                    baseline,
                                );
                                let merged = spec_enrich(spec_enrich(seen, builtins), baseline);
                                crate::tagging::lemma_disambiguate_preserves_spans(merged, imap@);
                                let named = crate::tagging::spec_disambiguate(merged, imap@);
                                assert forall|k: int| 0 <= k < named.len() implies tag_in_text(
                                    text,
                                    #[trigger] named[k],
                                ) by {
                                    assert(named[k].range == merged[k].range && named[k].value
                                        == merged[k].value);
                                    assert(tag_in_text(text, merged[k]));
                                }
                            }
                        },
                    }
                },
            }
        },
    }
}


/// Two distinct windows never yield the same candidate: a candidate's
/// range pins down its window's first and last token.
proof fn lemma_window_unique(
    entities: Seq<(String, Entity)>,
    imap: Seq<(String, String)>,
    toks: Seq<TokenView>,
    text: Seq<char>,
    i1: int,
    j1: int,
    i2: int,
    j2: int,
)
    requires
        crate::tokens::tokens_in_text(text, toks),
        0 <= i1 <= j1 < toks.len(),
        0 <= i2 <= j2 < toks.len(),
        spec_window_candidate(entities, imap, toks, text, i1, j1) is Some,
        spec_window_candidate(entities, imap, toks, text, i1, j1) == spec_window_candidate(
            entities,
            imap,
            toks,
            text,
            i2,
            j2,
        ),
    ensures
        i1 == i2 && j1 == j2,
{
    assert(crate::tokens::token_in_text(text, toks[i1]));
    assert(crate::tokens::token_in_text(text, toks[i2]));
    assert(crate::tokens::token_in_text(text, toks[j1]));
    assert(crate::tokens::token_in_text(text, toks[j2]));
    assert(toks[i1].char_range.start == toks[i2].char_range.start);
    assert(toks[j1].char_range.end == toks[j2].char_range.end);
    if i1 < i2 {
        assert(toks[i1].char_range.end <= toks[i2].char_range.start);
    }
    if i2 < i1 {
        assert(toks[i2].char_range.end <= toks[i1].char_range.start);
    }
    if j1 < j2 {
        assert(toks[j1].char_range.end <= toks[j2].char_range.start);
    }
    if j2 < j1 {
        assert(toks[j2].char_range.end <= toks[j1].char_range.start);
    }
}

/// Whether the accepted spans stand in order of non-increasing window
/// length: an earlier-accepted span always comes from a window at least as
/// long as any later one's.
pub open spec fn accepted_windows_sorted(
    entities: Seq<(String, Entity)>,
    imap: Seq<(String, String)>,
    toks: Seq<TokenView>,
    text: Seq<char>,
    acc: Seq<TaggedEntityView>,
) -> bool {
    forall|k: int, l: int, i1: int, j1: int, i2: int, j2: int|
        #![trigger acc[k], acc[l], spec_window_candidate(entities, imap, toks, text, i1, j1),
            spec_window_candidate(entities, imap, toks, text, i2, j2)]
        0 <= k < l < acc.len() && 0 <= i1 <= j1 < toks.len() && 0 <= i2 <= j2 < toks.len()
            && spec_window_candidate(entities, imap, toks, text, i1, j1) == Some(acc[k])
            && spec_window_candidate(entities, imap, toks, text, i2, j2) == Some(acc[l]) ==> j1 - i1
            >= j2 - i2
}

/// Whether every accepted span's window has at least `len` tokens.
pub open spec fn windows_at_least(
    entities: Seq<(String, Entity)>,
    imap: Seq<(String, String)>,
    toks: Seq<TokenView>,
    text: Seq<char>,
    acc: Seq<TaggedEntityView>,
    len: int,
) -> bool {
    forall|k: int, i: int, j: int|
        #![trigger acc[k], spec_window_candidate(entities, imap, toks, text, i, j)]
        0 <= k < acc.len() && 0 <= i <= j < toks.len() && spec_window_candidate(
            entities,
            imap,
            toks,
            text,
            i,
            j,
        ) == Some(acc[k]) ==> j - i + 1 >= len
}

/// The walk accepts spans in order of non-increasing window length.
proof fn lemma_seen_loop_sorted(
    entities: Seq<(String, Entity)>,
    imap: Seq<(String, String)>,
    toks: Seq<TokenView>,
    text: Seq<char>,
    len: int,
    start: int,
    acc: Seq<TaggedEntityView>,
)
    requires
        crate::tokens::tokens_in_text(text, toks),
        accepted_windows_sorted(entities, imap, toks, text, acc),
        windows_at_least(entities, imap, toks, text, acc, len),
    ensures
        accepted_windows_sorted(
            entities,
            imap,
            toks,
            text,
            spec_seen_loop(entities, imap, toks, text, len, start, acc),
        ),
    decreases len, toks.len() - start,
{
    if len <= 0 {
    } else if start < 0 || start + len > toks.len() {
        assert(windows_at_least(entities, imap, toks, text, acc, len - 1));
        lemma_seen_loop_sorted(entities, imap, toks, text, len - 1, 0, acc);
    } else {
        let cand = spec_window_candidate(entities, imap, toks, text, start, start + len - 1);
        match cand {
            Some(te0) => {
                let acc2 = spec_enrich(acc, seq![te0]);
                if overlaps_any(acc, te0) {
                    assert(seq![te0].drop_first() =~= Seq::<TaggedEntityView>::empty());
                    assert(seq![te0][0] == te0);
                    assert(acc2 == spec_enrich(acc, seq![te0].drop_first()));
                    assert(spec_enrich(acc, Seq::<TaggedEntityView>::empty()) == acc);
                    assert(acc2 == acc);
                    lemma_seen_loop_sorted(entities, imap, toks, text, len, start + 1, acc2);
                } else {
                    assert(seq![te0].drop_first() =~= Seq::<TaggedEntityView>::empty());
                    assert(!overlaps_any(acc, seq![te0][0]));
                    assert(acc2 == spec_enrich(acc.push(te0), Seq::<TaggedEntityView>::empty()));
                    assert(acc2 == acc.push(te0));
                    assert(windows_at_least(entities, imap, toks, text, acc2, len)) by {
                        assert forall|k: int, i: int, j: int|
                            #![trigger acc2[k], spec_window_candidate(entities, imap, toks, text, i, j)]
                            0 <= k < acc2.len() && 0 <= i <= j < toks.len()
                                && spec_window_candidate(entities, imap, toks, text, i, j) == Some(
                                acc2[k],
                            ) implies j - i + 1 >= len by {
                            if k < acc.len() {
                                assert(acc2[k] == acc[k]);
                            } else {
                                assert(acc2[k] == te0);
                                lemma_window_unique(
                                    entities,
                                    imap,
                                    toks,
                                    text,
                                    start,
                                    start + len - 1,
                                    i,
                                    j,
                                );
                            }
                        }
                    }
                    assert(accepted_windows_sorted(entities, imap, toks, text, acc2)) by {
                        assert forall|k: int, l: int, i1: int, j1: int, i2: int, j2: int|
                            #![trigger acc2[k], acc2[l], spec_window_candidate(entities, imap, toks, text, i1, j1),
                                spec_window_candidate(entities, imap, toks, text, i2, j2)]
                            0 <= k < l < acc2.len() && 0 <= i1 <= j1 < toks.len() && 0 <= i2 <= j2
                                < toks.len() && spec_window_candidate(
                                entities,
                                imap,
                                toks,
                                text,
                                i1,
                                j1,
                            ) == Some(acc2[k]) && spec_window_candidate(
                                entities,
                                imap,
                                toks,
                                text,
                                i2,
                                j2,
                            ) == Some(acc2[l]) implies j1 - i1 >= j2 - i2 by {
                            if l < acc.len() {
                                assert(acc2[k] == acc[k]);
                                assert(acc2[l] == acc[l]);
                            } else {
                                assert(acc2[l] == te0);
                                lemma_window_unique(
                                    entities,
                                    imap,
                                    toks,
                                    text,
                                    start,
                                    start + len - 1,
                                    i2,
                                    j2,
                                );
                                assert(j2 - i2 + 1 == len);
                                assert(acc2[k] == acc[k]);
                                assert(j1 - i1 + 1 >= len);
                            }
                        }
                    }
                    lemma_seen_loop_sorted(entities, imap, toks, text, len, start + 1, acc2);
                }
            },
            None => {
                lemma_seen_loop_sorted(entities, imap, toks, text, len, start + 1, acc);
            },
        }
    }
}

/// Longer matching spans are preferred over shorter overlapping ones: the
/// accepted seen-entity spans stand in order of non-increasing window
/// length, an accepted span is never displaced by a later (shorter) one,
/// and a candidate is only ever rejected for overlapping a span accepted
/// no later than it.
pub proof fn law_seen_longer_spans_first(
    entities: Seq<(String, Entity)>,
    imap: Seq<(String, String)>,
    text: Seq<char>,
)
    requires
        text.len() <= usize::MAX,
    ensures
        accepted_windows_sorted(
            entities,
            imap,
            crate::tokens::spec_tokenize(text),
            text,
            spec_tag_seen(entities, imap, text),
        ),
{
    let toks = crate::tokens::spec_tokenize(text);
    crate::tokens::lemma_tokenize_in_text(text);
    lemma_seen_loop_sorted(
        entities,
        imap,
        toks,
        text,
        toks.len() as int,
        0,
        Seq::empty(),
    );
}

} // verus!
