//! First-match lookup in association lists.
//!
//! The engine's configuration tables (entity catalog, slot-name mapping,
//! training-data sizes, utterance maps) are held as vectors of key/value
//! pairs in configured order; a lookup returns the value of the first pair
//! whose key equals the query.

use vstd::prelude::*;

verus! {

/// The value of the first pair whose key reads `key`, if any.
pub open spec fn assoc_find<V>(s: Seq<(String, V)>, key: Seq<char>) -> Option<V>
    decreases s.len(),
{
    if s.len() == 0 {
        None
    } else if s[0].0@ == key {
        Some(s[0].1)
    } else {
        assoc_find(s.drop_first(), key)
    }
}

/// Whether some pair's key reads `key`.
pub open spec fn assoc_contains<V>(s: Seq<(String, V)>, key: Seq<char>) -> bool {
    assoc_find(s, key) is Some
}

/// Whether two strings read the same.
pub fn str_eq(a: &str, b: &str) -> (r: bool)
    ensures
        r == (a@ == b@),
{
    let sa: String = a.to_owned();
    let sb: String = b.to_owned();
    sa == sb
}

/// First-match lookup of `key` in the association list `m`.
pub fn assoc_get<'a, V>(m: &'a Vec<(String, V)>, key: &String) -> (r: Option<&'a V>)
    ensures
        match r {
            Some(v) => assoc_find(m@, key@) == Some(*v),
            None => assoc_find(m@, key@) is None,
        },
{
    let mut i: usize = 0;
    proof {
        assert(m@.skip(0) =~= m@);
    }
    while i < m.len()
        invariant
            0 <= i <= m@.len(),
            assoc_find(m@, key@) == assoc_find(m@.skip(i as int), key@),
        decreases m@.len() - i,
    {
        proof {
            assert(m@.skip(i as int)[0] == m@[i as int]);
            assert(m@.skip(i as int).drop_first() =~= m@.skip(i as int + 1));
        }
        if m[i].0 == *key {
            return Some(&m[i].1);
        }
        i += 1;
    }
    None
}

/// Whether some pair of `m` has `key` as its key.
pub fn assoc_contains_key<V>(m: &Vec<(String, V)>, key: &String) -> (r: bool)
    ensures
        r == assoc_contains(m@, key@),
{
    let found = assoc_get(m, key);
    found.is_some()
}

} // verus!
