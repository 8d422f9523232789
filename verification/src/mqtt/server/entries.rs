//! Tables of entries keyed by text, searched from the front: the first entry
//! with a key is the one that counts.
use vstd::prelude::*;

verus! {

/// The value of the first entry of `v` whose key is `key`, if any.
pub open spec fn entry_of<V>(v: Seq<(String, V)>, key: Seq<char>) -> Option<V>
    decreases v.len(),
{
    if v.len() == 0 {
        None
    } else if v[0].0@ == key {
        Some(v[0].1)
    } else {
        entry_of(v.drop_first(), key)
    }
}

/// Entries before `i` with other keys do not change what is found for `key`.
pub proof fn lemma_entry_of_skip<V>(v: Seq<(String, V)>, key: Seq<char>, i: int)
    requires
        0 <= i <= v.len(),
        forall|j: int| 0 <= j < i ==> (#[trigger] v[j]).0@ != key,
    ensures
        entry_of(v, key) == entry_of(v.skip(i), key),
    decreases i,
{
    if i > 0 {
        let t = v.drop_first();
        assert forall|j: int| 0 <= j < i - 1 implies (#[trigger] t[j]).0@ != key by {
            assert(t[j] == v[j + 1]);
        }
        lemma_entry_of_skip(t, key, i - 1);
        assert(t.skip(i - 1) =~= v.skip(i));
    } else {
        assert(v.skip(0) =~= v);
    }
}

/// Setting the entry at `i`, the first one for its key, changes only what
/// is found for that key.
pub proof fn lemma_entry_of_update<V>(v: Seq<(String, V)>, i: int, entry: (String, V), key: Seq<char>)
    requires
        0 <= i < v.len(),
        v[i].0@ == entry.0@,
        forall|j: int| 0 <= j < i ==> (#[trigger] v[j]).0@ != entry.0@,
    ensures
        entry_of(v.update(i, entry), key) == if key == entry.0@ {
            Some(entry.1)
        } else {
            entry_of(v, key)
        },
    decreases i,
{
    let u = v.update(i, entry);
    if i > 0 {
        assert(u.drop_first() =~= v.drop_first().update(i - 1, entry));
        assert forall|j: int| 0 <= j < i - 1 implies (#[trigger] v.drop_first()[j]).0@ != entry.0@ by {
            assert(v.drop_first()[j] == v[j + 1]);
        }
        lemma_entry_of_update(v.drop_first(), i - 1, entry, key);
    } else {
        assert(u.drop_first() =~= v.drop_first());
    }
}

/// Appending an entry for a key that has none changes only what is found
/// for that key.
pub proof fn lemma_entry_of_push<V>(v: Seq<(String, V)>, entry: (String, V), key: Seq<char>)
    requires
        entry_of(v, entry.0@) is None,
    ensures
        entry_of(v.push(entry), key) == if key == entry.0@ {
            Some(entry.1)
        } else {
            entry_of(v, key)
        },
    decreases v.len(),
{
    let p = v.push(entry);
    if v.len() == 0 {
        assert(p.drop_first() =~= Seq::<(String, V)>::empty());
        assert(p[0] == entry);
        assert(entry_of(p.drop_first(), key) is None);
    } else {
        assert(p[0] == v[0]);
        assert(p.drop_first() =~= v.drop_first().push(entry));
        lemma_entry_of_push(v.drop_first(), entry, key);
    }
}

/// The position of the first entry of `v` with key `key`, if any.
pub fn find_entry<V>(v: &Vec<(String, V)>, key: &String) -> (r: Option<usize>)
    ensures
        match r {
            Some(i) => i < v@.len() && v@[i as int].0@ == key@ && (forall|j: int|
                0 <= j < i ==> (#[trigger] v@[j]).0@ != key@) && entry_of(v@, key@) == Some(
                v@[i as int].1,
            ),
            None => entry_of(v@, key@) is None,
        },
{
    let mut i: usize = 0;
    while i < v.len()
        invariant
            i <= v@.len(),
            forall|j: int| 0 <= j < i ==> (#[trigger] v@[j]).0@ != key@,
        decreases v@.len() - i,
    {
        if v[i].0.eq(key) {
            proof {
                lemma_entry_of_skip(v@, key@, i as int);
                assert(v@.skip(i as int)[0] == v@[i as int]);
            }
            return Some(i);
        }
        i = i + 1;
    }
    proof {
        lemma_entry_of_skip(v@, key@, i as int);
        assert(v@.skip(i as int).len() == 0);
    }
    None
}

} // verus!
