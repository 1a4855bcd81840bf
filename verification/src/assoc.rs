//! Association lists keyed by strings: a vector of (key, value) entries read
//! as a map in which a later entry for a key replaces an earlier one.
use vstd::prelude::*;
use crate::text::chars_of;

verus! {

/// The map that a list of entries stands for: later entries win.
pub open spec fn assoc<V>(s: Seq<(String, V)>) -> Map<Seq<char>, V>
    decreases s.len(),
{
    if s.len() == 0 {
        Map::empty()
    } else {
        assoc(s.drop_last()).insert(s.last().0@, s.last().1)
    }
}

/// The entry at `i` gives the value of its key when no later entry has the key.
pub proof fn lemma_assoc_found<V>(s: Seq<(String, V)>, key: Seq<char>, i: int)
    requires
        0 <= i < s.len(),
        s[i].0@ == key,
        forall|j: int| i < j < s.len() ==> (#[trigger] s[j]).0@ != key,
    ensures
        assoc(s).contains_key(key),
        assoc(s)[key] == s[i].1,
    decreases s.len(),
{
    if i < s.len() - 1 {
        let t = s.drop_last();
        assert forall|j: int| i < j < t.len() implies (#[trigger] t[j]).0@ != key by {
            assert(t[j] == s[j]);
        }
        lemma_assoc_found(t, key, i);
    }
}

/// A key that no entry has is not in the map.
pub proof fn lemma_assoc_absent<V>(s: Seq<(String, V)>, key: Seq<char>)
    requires
        forall|j: int| 0 <= j < s.len() ==> (#[trigger] s[j]).0@ != key,
    ensures
        !assoc(s).contains_key(key),
    decreases s.len(),
{
    if s.len() > 0 {
        let t = s.drop_last();
        assert forall|j: int| 0 <= j < t.len() implies (#[trigger] t[j]).0@ != key by {
            assert(t[j] == s[j]);
        }
        lemma_assoc_absent(t, key);
    }
}

/// The keys of the map are the keys of the entries.
pub proof fn lemma_assoc_dom<V>(s: Seq<(String, V)>, key: Seq<char>)
    ensures
        assoc(s).contains_key(key) <==> exists|j: int| 0 <= j < s.len() && (#[trigger] s[j]).0@ == key,
    decreases s.len(),
{
    if s.len() > 0 {
        let t = s.drop_last();
        lemma_assoc_dom(t, key);
        if exists|j: int| 0 <= j < t.len() && (#[trigger] t[j]).0@ == key {
            let j = choose|j: int| 0 <= j < t.len() && (#[trigger] t[j]).0@ == key;
            assert(s[j] == t[j]);
        }
        if exists|j: int| 0 <= j < s.len() && (#[trigger] s[j]).0@ == key {
            let j = choose|j: int| 0 <= j < s.len() && (#[trigger] s[j]).0@ == key;
            if j < t.len() {
                assert(s[j] == t[j]);
            }
        }
    }
}

/// Whether two character sequences are equal.
pub fn chars_eq(a: &Vec<char>, b: &Vec<char>) -> (r: bool)
    ensures
        r == (a@ == b@),
{
    if a.len() != b.len() {
        return false;
    }
    let mut i: usize = 0;
    while i < a.len()
        invariant
            a@.len() == b@.len(),
            i <= a@.len(),
            forall|j: int| 0 <= j < i ==> a@[j] == b@[j],
        decreases a@.len() - i,
    {
        if a[i] != b[i] {
            return false;
        }
        i = i + 1;
    }
    assert(a@ =~= b@);
    true
}

/// Whether two strings are equal.
pub fn str_eq(a: &str, b: &str) -> (r: bool)
    ensures
        r == (a@ == b@),
{
    let ca = chars_of(a);
    let cb = chars_of(b);
    chars_eq(&ca, &cb)
}

/// The position of the last entry whose key is `key`, if any.
pub fn find_key<V>(entries: &Vec<(String, V)>, key: &Vec<char>) -> (r: Option<usize>)
    ensures
        match r {
            Some(i) => {
                &&& i < entries@.len()
                &&& entries@[i as int].0@ == key@
                &&& assoc(entries@).contains_key(key@)
                &&& assoc(entries@)[key@] == entries@[i as int].1
            },
            None => !assoc(entries@).contains_key(key@),
        },
{
    let mut i: usize = entries.len();
    while i > 0
        invariant
            i <= entries@.len(),
            forall|j: int| i <= j < entries@.len() ==> (#[trigger] entries@[j]).0@ != key@,
        decreases i,
    {
        let k = chars_of(entries[i - 1].0.as_str());
        if chars_eq(&k, key) {
            proof {
                lemma_assoc_found(entries@, key@, i - 1);
            }
            return Some(i - 1);
        }
        i = i - 1;
    }
    proof {
        lemma_assoc_absent(entries@, key@);
    }
    None
}


/// No two entries have the same key.
pub open spec fn keys_unique<V>(s: Seq<(String, V)>) -> bool {
    forall|i: int, j: int| 0 <= i < j < s.len() ==> (#[trigger] s[i]).0@ != (#[trigger] s[j]).0@
}

/// With unique keys, each entry gives the value of its key.
pub proof fn lemma_assoc_unique_at<V>(s: Seq<(String, V)>, j: int)
    requires
        keys_unique(s),
        0 <= j < s.len(),
    ensures
        assoc(s).contains_key(s[j].0@),
        assoc(s)[s[j].0@] == s[j].1,
{
    assert forall|k: int| j < k < s.len() implies (#[trigger] s[k]).0@ != s[j].0@ by {}
    lemma_assoc_found(s, s[j].0@, j);
}

/// With unique keys, replacing the entry of a key replaces its value.
pub proof fn lemma_assoc_update<V>(s: Seq<(String, V)>, i: int, k: String, v: V)
    requires
        keys_unique(s),
        0 <= i < s.len(),
        s[i].0@ == k@,
    ensures
        keys_unique(s.update(i, (k, v))),
        assoc(s.update(i, (k, v))) == assoc(s).insert(k@, v),
{
    let t = s.update(i, (k, v));
    assert forall|a: int, b: int| 0 <= a < b < t.len() implies (#[trigger] t[a]).0@ != (#[trigger] t[b]).0@ by {
        assert(s[a].0@ != s[b].0@);
    }
    assert forall|x: Seq<char>| #[trigger] assoc(t).contains_key(x) == assoc(s).insert(k@, v).contains_key(x) by {
        lemma_assoc_dom(t, x);
        lemma_assoc_dom(s, x);
        if exists|j: int| 0 <= j < t.len() && (#[trigger] t[j]).0@ == x {
            let j = choose|j: int| 0 <= j < t.len() && (#[trigger] t[j]).0@ == x;
            if j != i {
                assert(s[j] == t[j]);
            }
        }
        if exists|j: int| 0 <= j < s.len() && (#[trigger] s[j]).0@ == x {
            let j = choose|j: int| 0 <= j < s.len() && (#[trigger] s[j]).0@ == x;
            if j != i {
                assert(s[j] == t[j]);
            } else {
                assert(t[i].0@ == x);
            }
        }
    }
    assert forall|x: Seq<char>| #[trigger] assoc(t).contains_key(x) implies assoc(t)[x] == assoc(s).insert(k@, v)[x] by {
        lemma_assoc_dom(t, x);
        let j = choose|j: int| 0 <= j < t.len() && (#[trigger] t[j]).0@ == x;
        lemma_assoc_unique_at(t, j);
        if j != i {
            assert(s[j] == t[j]);
            lemma_assoc_unique_at(s, j);
        }
    }
    assert(assoc(t) =~= assoc(s).insert(k@, v));
}

/// Sets the value of a key: replaces its entry, or adds one at the end.
pub fn assoc_put<V>(entries: &mut Vec<(String, V)>, key: String, value: V)
    requires
        keys_unique(old(entries)@),
    ensures
        keys_unique(final(entries)@),
        assoc(final(entries)@) == assoc(old(entries)@).insert(key@, value),
        forall|j: int|
            0 <= j < old(entries)@.len() ==> (#[trigger] final(entries)@[j]).0@ == old(entries)@[j].0@,
        final(entries)@.len() == old(entries)@.len() || (final(entries)@.len() == old(entries)@.len() + 1 && final(entries)@.last().0@ == key@),
{
    let k = chars_of(key.as_str());
    match find_key(entries, &k) {
        Some(i) => {
            proof {
                lemma_assoc_update(entries@, i as int, key, value);
            }
            entries.set(i, (key, value));
        },
        None => {
            proof {
                lemma_assoc_dom(entries@, key@);
            }
            let ghost e0 = entries@;
            entries.push((key, value));
            proof {
                assert(entries@.drop_last() =~= e0);
                assert forall|a: int, b: int| 0 <= a < b < entries@.len() implies (#[trigger] entries@[a]).0@
                    != (#[trigger] entries@[b]).0@ by {
                    if b == e0.len() {
                        assert(entries@[a] == e0[a]);
                    } else {
                        assert(entries@[a] == e0[a]);
                        assert(entries@[b] == e0[b]);
                    }
                }
            }
        },
    }
}

} // verus!
