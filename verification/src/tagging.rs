//! Merging and disambiguation of tagged entity spans.
//!
//! `enrich_entities` merges a batch of candidate tags into an accepted list:
//! a candidate is taken if and only if its character range overlaps no range
//! already accepted, so the side given first always has priority on
//! conflict.  `disambiguate_tagged_entities` assigns each span an argument
//! name through the intent's slot-name mapping; where an entity serves
//! several argument names the first-declared one is chosen, and a span whose
//! entity is not in the mapping keeps its slot name unset.

use vstd::prelude::*;
use crate::types::{
    CharRange, TaggedEntity, TaggedEntityView, clone_tagged, lemma_views_push, views_of,
};

verus! {

/// Whether two optional character ranges overlap.  A span without a range
/// conflicts with nothing.
pub open spec fn ranges_overlap(a: Option<CharRange>, b: Option<CharRange>) -> bool {
    match (a, b) {
        (Some(x), Some(y)) => x.start < y.end && y.start < x.end,
        _ => false,
    }
}

/// Whether `t`'s range overlaps the range of some accepted span.
pub open spec fn overlaps_any(acc: Seq<TaggedEntityView>, t: TaggedEntityView) -> bool {
    exists|k: int| 0 <= k < acc.len() && ranges_overlap((#[trigger] acc[k]).range, t.range)
}

/// No two spans of `s` overlap.
pub open spec fn pairwise_nonoverlapping(s: Seq<TaggedEntityView>) -> bool {
    forall|k: int, l: int|
        0 <= k < l < s.len() ==> !ranges_overlap((#[trigger] s[k]).range, (#[trigger] s[l]).range)
}

/// The accepted list after folding `adds` into `acc` in order, taking each
/// candidate exactly when it overlaps nothing accepted so far.
pub open spec fn spec_enrich(acc: Seq<TaggedEntityView>, adds: Seq<TaggedEntityView>) -> Seq<
    TaggedEntityView,
>
    decreases adds.len(),
{
    if adds.len() == 0 {
        acc
    } else {
        let acc2 = if overlaps_any(acc, adds[0]) {
            acc
        } else {
            acc.push(adds[0])
        };
        spec_enrich(acc2, adds.drop_first())
    }
}

/// Merging never disturbs what was already accepted: the first argument is
/// a prefix of the result, so earlier (higher-priority) spans are never
/// displaced by later ones.
pub proof fn lemma_enrich_prefix(acc: Seq<TaggedEntityView>, adds: Seq<TaggedEntityView>)
    ensures
        spec_enrich(acc, adds).len() >= acc.len(),
        forall|k: int| 0 <= k < acc.len() ==> #[trigger] spec_enrich(acc, adds)[k] == acc[k],
    decreases adds.len(),
{
    if adds.len() > 0 {
        let acc2 = if overlaps_any(acc, adds[0]) {
            acc
        } else {
            acc.push(adds[0])
        };
        lemma_enrich_prefix(acc2, adds.drop_first());
    }
}

/// Every span of the merged list stems from one of the two inputs.
pub proof fn lemma_enrich_sources(acc: Seq<TaggedEntityView>, adds: Seq<TaggedEntityView>)
    ensures
        forall|k: int|
            0 <= k < spec_enrich(acc, adds).len() ==> acc.contains(
                #[trigger] spec_enrich(acc, adds)[k],
            ) || adds.contains(spec_enrich(acc, adds)[k]),
    decreases adds.len(),
{
    let res = spec_enrich(acc, adds);
    if adds.len() > 0 {
        let acc2 = if overlaps_any(acc, adds[0]) {
            acc
        } else {
            acc.push(adds[0])
        };
        lemma_enrich_sources(acc2, adds.drop_first());
        assert forall|k: int| 0 <= k < res.len() implies acc.contains(#[trigger] res[k])
            || adds.contains(res[k]) by {
            assert(res == spec_enrich(acc2, adds.drop_first()));
            assert(acc2.contains(res[k]) || adds.drop_first().contains(res[k]));
            if acc2.contains(res[k]) {
                let j = choose|j: int| 0 <= j < acc2.len() && acc2[j] == res[k];
                if overlaps_any(acc, adds[0]) {
                    assert(acc2 == acc);
                    assert(acc.contains(res[k]));
                } else if j < acc.len() {
                    assert(acc2[j] == acc[j]);
                    assert(acc.contains(res[k]));
                } else {
                    assert(acc2[j] == adds[0]);
                    assert(adds[0] == res[k]);
                    assert(adds.contains(res[k]));
                }
            } else {
                assert(adds.drop_first().contains(res[k]));
                let j = choose|j: int|
                    0 <= j < adds.drop_first().len() && adds.drop_first()[j] == res[k];
                assert(adds[j + 1] == res[k]);
                assert(adds.contains(res[k]));
            }
        }
    }
}

/// Merging preserves the non-overlap invariant: if nothing accepted so far
/// overlaps, nothing in the merged list does either.
pub proof fn lemma_enrich_nonoverlap(acc: Seq<TaggedEntityView>, adds: Seq<TaggedEntityView>)
    requires
        pairwise_nonoverlapping(acc),
    ensures
        pairwise_nonoverlapping(spec_enrich(acc, adds)),
    decreases adds.len(),
{
    if adds.len() > 0 {
        if overlaps_any(acc, adds[0]) {
            lemma_enrich_nonoverlap(acc, adds.drop_first());
        } else {
            let acc2 = acc.push(adds[0]);
            assert forall|k: int, l: int| 0 <= k < l < acc2.len() implies !ranges_overlap(
                (#[trigger] acc2[k]).range,
                (#[trigger] acc2[l]).range,
            ) by {
                if l == acc.len() {
                    assert(acc2[l] == adds[0]);
                    assert(acc2[k] == acc[k]);
                    assert(!ranges_overlap(acc[k].range, adds[0].range));
                }
            }
            lemma_enrich_nonoverlap(acc2, adds.drop_first());
        }
    }
}

/// Checks whether two optional ranges overlap.
pub fn ranges_overlap_exec(a: &Option<CharRange>, b: &Option<CharRange>) -> (r: bool)
    ensures
        r == ranges_overlap(*a, *b),
{
    match (a, b) {
        (Some(x), Some(y)) => x.start < y.end && y.start < x.end,
        _ => false,
    }
}

/// Checks whether `t` overlaps some span of `acc`.
fn overlaps_any_exec(acc: &Vec<TaggedEntity>, t: &TaggedEntity) -> (r: bool)
    ensures
        r == overlaps_any(views_of(acc@), t@),
{
    let mut k: usize = 0;
    let mut found = false;
    while k < acc.len()
        invariant
            0 <= k <= acc@.len(),
            found == exists|l: int|
                0 <= l < k && ranges_overlap((#[trigger] acc@[l])@.range, t@.range),
        decreases acc@.len() - k,
    {
        if ranges_overlap_exec(&acc[k].range, &t.range) {
            found = true;
            proof {
                assert(acc@[k as int]@.range == acc@[k as int].range);
            }
        }
        k += 1;
    }
    proof {
        let vs = views_of(acc@);
        if found {
            let l = choose|l: int|
                0 <= l < acc@.len() && ranges_overlap((#[trigger] acc@[l])@.range, t@.range);
            assert(vs[l] == acc@[l]@);
            assert(overlaps_any(vs, t@));
        } else {
            if overlaps_any(vs, t@) {
                let l = choose|l: int|
                    0 <= l < vs.len() && ranges_overlap((#[trigger] vs[l]).range, t@.range);
                assert(vs[l] == acc@[l]@);
            }
        }
    }
    found
}

/// Merges `additions` into `base` in order; a candidate is accepted exactly
/// when its range overlaps no range already accepted, so `base` keeps
/// priority on every conflict.
pub fn enrich_entities(base: Vec<TaggedEntity>, additions: &Vec<TaggedEntity>) -> (r: Vec<
    TaggedEntity,
>)
    ensures
        views_of(r@) == spec_enrich(views_of(base@), views_of(additions@)),
{
    let ghost base_views = views_of(base@);
    let ghost add_views = views_of(additions@);
    let mut out = base;
    let mut k: usize = 0;
    proof {
        assert(add_views.skip(0) =~= add_views);
    }
    while k < additions.len()
        invariant
            0 <= k <= additions@.len(),
            add_views == views_of(additions@),
            spec_enrich(base_views, add_views) == spec_enrich(
                views_of(out@),
                add_views.skip(k as int),
            ),
        decreases additions@.len() - k,
    {
        proof {
            assert(add_views.skip(k as int)[0] == add_views[k as int]);
            assert(add_views[k as int] == additions@[k as int]@);
            assert(add_views.skip(k as int).drop_first() =~= add_views.skip(k as int + 1));
        }
        let t = &additions[k];
        if !overlaps_any_exec(&out, t) {
            let ghost old_out = out@;
            let c = clone_tagged(t);
            let ghost cg = c;
            out.push(c);
            proof {
                lemma_views_push(old_out, cg);
                assert(views_of(out@) =~= views_of(old_out).push(additions@[k as int]@));
            }
        }
        k += 1;
    }
    proof {
        assert(add_views.skip(additions@.len() as int) =~= Seq::<TaggedEntityView>::empty());
    }
    out
}

/// The argument name of the first mapping pair that refers to `entity`.
pub open spec fn rev_find(m: Seq<(String, String)>, entity: Seq<char>) -> Option<Seq<char>>
    decreases m.len(),
{
    if m.len() == 0 {
        None
    } else if m[0].1@ == entity {
        Some(m[0].0@)
    } else {
        rev_find(m.drop_first(), entity)
    }
}

/// A span already carrying an argument name keeps it; otherwise the span is
/// assigned the first-declared argument name bound to its entity, if any.
pub open spec fn spec_assign_slot_name(t: TaggedEntityView, m: Seq<(String, String)>) -> TaggedEntityView {
    match t.slot_name {
        Some(_) => t,
        None => TaggedEntityView { slot_name: rev_find(m, t.entity), ..t },
    }
}

/// The tags after assigning argument names through the mapping.
pub open spec fn spec_disambiguate(tags: Seq<TaggedEntityView>, m: Seq<(String, String)>) -> Seq<
    TaggedEntityView,
> {
    tags.map_values(|t: TaggedEntityView| spec_assign_slot_name(t, m))
}

/// Disambiguation touches only slot names: every span keeps its value,
/// range and entity.
pub proof fn lemma_disambiguate_preserves_spans(
    tags: Seq<TaggedEntityView>,
    m: Seq<(String, String)>,
)
    ensures
        spec_disambiguate(tags, m).len() == tags.len(),
        forall|k: int|
            0 <= k < tags.len() ==> (#[trigger] spec_disambiguate(tags, m)[k]).range == tags[k].range
                && spec_disambiguate(tags, m)[k].value == tags[k].value && spec_disambiguate(
                tags,
                m,
            )[k].entity == tags[k].entity,
{
    assert forall|k: int| 0 <= k < tags.len() implies (#[trigger] spec_disambiguate(tags, m)[k]).range
        == tags[k].range && spec_disambiguate(tags, m)[k].value == tags[k].value
        && spec_disambiguate(tags, m)[k].entity == tags[k].entity by {
        assert(spec_disambiguate(tags, m)[k] == spec_assign_slot_name(tags[k], m));
    }
}

/// Disambiguation keeps the non-overlap invariant.
pub proof fn lemma_disambiguate_nonoverlap(tags: Seq<TaggedEntityView>, m: Seq<(String, String)>)
    requires
        pairwise_nonoverlapping(tags),
    ensures
        pairwise_nonoverlapping(spec_disambiguate(tags, m)),
{
    lemma_disambiguate_preserves_spans(tags, m);
}

/// Looks up the first-declared argument name bound to `entity`.
pub fn rev_get<'a>(m: &'a Vec<(String, String)>, entity: &String) -> (r: Option<&'a String>)
    ensures
        match r {
            Some(v) => rev_find(m@, entity@) == Some(v@),
            None => rev_find(m@, entity@) is None,
        },
{
    let mut i: usize = 0;
    proof {
        assert(m@.skip(0) =~= m@);
    }
    while i < m.len()
        invariant
            0 <= i <= m@.len(),
            rev_find(m@, entity@) == rev_find(m@.skip(i as int), entity@),
        decreases m@.len() - i,
    {
        proof {
            assert(m@.skip(i as int)[0] == m@[i as int]);
            assert(m@.skip(i as int).drop_first() =~= m@.skip(i as int + 1));
        }
        if m[i].1 == *entity {
            return Some(&m[i].0);
        }
        i += 1;
    }
    None
}

/// Assigns each span an argument name through the intent's slot-name
/// mapping, leaving already-named spans and unmapped entities untouched.
pub fn disambiguate_tagged_entities(tags: Vec<TaggedEntity>, m: &Vec<(String, String)>) -> (r: Vec<
    TaggedEntity,
>)
    ensures
        views_of(r@) == spec_disambiguate(views_of(tags@), m@),
{
    let mut out: Vec<TaggedEntity> = Vec::new();
    let mut k: usize = 0;
    while k < tags.len()
        invariant
            0 <= k <= tags@.len(),
            views_of(out@) =~= spec_disambiguate(views_of(tags@), m@).take(k as int),
        decreases tags@.len() - k,
    {
        let t = &tags[k];
        let assigned: TaggedEntity = match &t.slot_name {
            Some(_) => clone_tagged(t),
            None => {
                let name: Option<String> = match rev_get(m, &t.entity) {
                    Some(n) => Some(n.clone()),
                    None => None,
                };
                TaggedEntity {
                    value: t.value.clone(),
                    range: t.range,
                    entity: t.entity.clone(),
                    slot_name: name,
                }
            },
        };
        proof {
            assert(assigned@ == spec_assign_slot_name(tags@[k as int]@, m@));
        }
        let ghost old_out = out@;
        let ghost ag = assigned;
        out.push(assigned);
        proof {
            lemma_views_push(old_out, ag);
            assert(views_of(tags@)[k as int] == tags@[k as int]@);
            assert(spec_disambiguate(views_of(tags@), m@)[k as int] == spec_assign_slot_name(
                tags@[k as int]@,
                m@,
            ));
            assert(views_of(out@) =~= spec_disambiguate(views_of(tags@), m@).take(k as int + 1));
        }
        k += 1;
    }
    proof {
        assert(spec_disambiguate(views_of(tags@), m@).take(tags@.len() as int) =~= spec_disambiguate(
            views_of(tags@),
            m@,
        ));
    }
    out
}

} // verus!
