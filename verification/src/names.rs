//! Name-to-value association lists with exact `Map` views.
//!
//! Marks, checkpoints and symbols are all small maps keyed by strings; this
//! module gives them one verified representation: a vector of pairs whose
//! keys are pairwise distinct, denoting the `Map` built by `assoc_map`.

use vstd::prelude::*;
use vstd::string::StrSliceExecFns;

verus! {

/// The map an association list denotes.
pub open spec fn assoc_map<V>(s: Seq<(String, V)>) -> Map<Seq<char>, V>
    decreases s.len(),
{
    if s.len() == 0 {
        Map::empty()
    } else {
        assoc_map(s.drop_last()).insert(s.last().0@, s.last().1)
    }
}

/// All keys of the list are pairwise distinct.
pub open spec fn keys_unique<V>(s: Seq<(String, V)>) -> bool {
    forall|i: int, j: int| 0 <= i < j < s.len() ==> s[i].0@ != s[j].0@
}

/// A key is in the denoted map exactly when some entry carries it.
pub proof fn lemma_assoc_contains<V>(s: Seq<(String, V)>, k: Seq<char>)
    ensures
        assoc_map(s).dom().contains(k) <==> (exists|i: int| 0 <= i < s.len() && s[i].0@ == k),
    decreases s.len(),
{
    if s.len() > 0 {
        lemma_assoc_contains(s.drop_last(), k);
        if s.last().0@ == k {
            assert(s[s.len() - 1].0@ == k);
        } else {
            if exists|i: int| 0 <= i < s.drop_last().len() && s.drop_last()[i].0@ == k {
                let i = choose|i: int| 0 <= i < s.drop_last().len() && s.drop_last()[i].0@ == k;
                assert(s[i].0@ == k);
            }
            if exists|i: int| 0 <= i < s.len() && s[i].0@ == k {
                let i = choose|i: int| 0 <= i < s.len() && s[i].0@ == k;
                assert(s.drop_last()[i].0@ == k);
            }
        }
    }
}

/// With distinct keys, the entry at `i` gives the map's value at its key.
pub proof fn lemma_assoc_at<V>(s: Seq<(String, V)>, i: int)
    requires
        keys_unique(s),
        0 <= i < s.len(),
    ensures
        assoc_map(s).dom().contains(s[i].0@),
        assoc_map(s)[s[i].0@] == s[i].1,
    decreases s.len(),
{
    if i < s.len() - 1 {
        assert(s.drop_last()[i] == s[i]);
        lemma_assoc_at(s.drop_last(), i);
        assert(s[i].0@ != s.last().0@);
    }
}

/// Updating the value of entry `i` updates the map at its key.
pub proof fn lemma_assoc_update<V>(s: Seq<(String, V)>, i: int, name: String, v: V)
    requires
        keys_unique(s),
        0 <= i < s.len(),
        name@ == s[i].0@,
    ensures
        assoc_map(s.update(i, (name, v))) =~= assoc_map(s).insert(s[i].0@, v),
        keys_unique(s.update(i, (name, v))),
    decreases s.len(),
{
    let t = s.update(i, (name, v));
    assert forall|a: int, b: int| 0 <= a < b < t.len() implies t[a].0@ != t[b].0@ by {
        assert(s[a].0@ != s[b].0@);
    }
    if i == s.len() - 1 {
        assert(t.drop_last() =~= s.drop_last());
    } else {
        assert(t.drop_last() =~= s.drop_last().update(i, (name, v)));
        assert(s.drop_last()[i] == s[i]);
        lemma_assoc_update(s.drop_last(), i, name, v);
        assert(t.last() == s.last());
        assert(s[i].0@ != s.last().0@);
    }
}

/// Removing entry `i` removes its key from the map.
pub proof fn lemma_assoc_remove<V>(s: Seq<(String, V)>, i: int)
    requires
        keys_unique(s),
        0 <= i < s.len(),
    ensures
        assoc_map(s.remove(i)) =~= assoc_map(s).remove(s[i].0@),
        keys_unique(s.remove(i)),
    decreases s.len(),
{
    let t = s.remove(i);
    assert forall|a: int, b: int| 0 <= a < b < t.len() implies t[a].0@ != t[b].0@ by {
        let sa: int = if a < i { a } else { a + 1 };
        let sb: int = if b < i { b } else { b + 1 };
        assert(t[a] == s[sa] && t[b] == s[sb]);
        assert(s[sa].0@ != s[sb].0@);
    }
    if i == s.len() - 1 {
        assert(t =~= s.drop_last());
        lemma_assoc_contains(s.drop_last(), s[i].0@);
        assert(forall|j: int| 0 <= j < s.drop_last().len() ==> s.drop_last()[j].0@ != s[i].0@);
        assert(!assoc_map(s.drop_last()).dom().contains(s[i].0@));
    } else {
        assert(t.drop_last() =~= s.drop_last().remove(i));
        assert(s.drop_last()[i] == s[i]);
        lemma_assoc_remove(s.drop_last(), i);
        assert(t.last() == s.last());
        assert(s[i].0@ != s.last().0@);
    }
}

/// Appending an entry with a fresh key inserts it into the map.
pub proof fn lemma_assoc_push<V>(s: Seq<(String, V)>, name: String, v: V)
    requires
        keys_unique(s),
        forall|i: int| 0 <= i < s.len() ==> s[i].0@ != name@,
    ensures
        assoc_map(s.push((name, v))) == assoc_map(s).insert(name@, v),
        keys_unique(s.push((name, v))),
{
    let t = s.push((name, v));
    assert(t.drop_last() =~= s);
    assert(t.last() == (name, v));
}

/// Character-by-character string equality, decided against the views.
pub fn str_eq(a: &str, b: &str) -> (r: bool)
    ensures
        r == (a@ == b@),
{
    let la = a.unicode_len();
    let lb = b.unicode_len();
    if la != lb {
        proof {
            assert(a@ != b@);
        }
        return false;
    }
    let mut i: usize = 0;
    while i < la
        invariant
            la == a@.len(),
            la == b@.len(),
            0 <= i <= la,
            forall|j: int| 0 <= j < i ==> a@[j] == b@[j],
        decreases la - i,
    {
        if a.get_char(i) != b.get_char(i) {
            proof {
                assert(a@[i as int] != b@[i as int]);
            }
            return false;
        }
        i += 1;
    }
    proof {
        assert(a@ =~= b@);
    }
    true
}

/// The index of the entry carrying `name`, if any.
pub fn assoc_index<V>(v: &Vec<(String, V)>, name: &str) -> (r: Option<usize>)
    requires
        keys_unique(v@),
    ensures
        (match r {
            Some(i) => i < v@.len() && v@[i as int].0@ == name@
                && assoc_map(v@).dom().contains(name@),
            None => !assoc_map(v@).dom().contains(name@),
        }),
{
    let mut i: usize = 0;
    while i < v.len()
        invariant
            keys_unique(v@),
            0 <= i <= v@.len(),
            forall|j: int| 0 <= j < i ==> v@[j].0@ != name@,
        decreases v@.len() - i,
    {
        if str_eq(v[i].0.as_str(), name) {
            proof {
                lemma_assoc_at(v@, i as int);
            }
            return Some(i);
        }
        i += 1;
    }
    proof {
        lemma_assoc_contains(v@, name@);
    }
    None
}

/// Insert or update: afterwards the list denotes the old map with `name`
/// bound to `value`.  Returns whether the name was already bound.
pub fn assoc_set<V>(v: &mut Vec<(String, V)>, name: String, value: V) -> (existed: bool)
    requires
        keys_unique(old(v)@),
    ensures
        keys_unique(final(v)@),
        assoc_map(final(v)@) == assoc_map(old(v)@).insert(name@, value),
        existed == assoc_map(old(v)@).dom().contains(name@),
{
    let r = assoc_index(v, name.as_str());
    match r {
        Some(i) => {
            proof {
                lemma_assoc_update(v@, i as int, name, value);
            }
            v[i] = (name, value);
            true
        }
        None => {
            proof {
                lemma_assoc_contains(v@, name@);
                lemma_assoc_push(v@, name, value);
            }
            v.push((name, value));
            false
        }
    }
}

/// Remove the binding of `name` if there is one.
pub fn assoc_remove<V>(v: &mut Vec<(String, V)>, name: &str)
    requires
        keys_unique(old(v)@),
    ensures
        keys_unique(final(v)@),
        assoc_map(final(v)@) == assoc_map(old(v)@).remove(name@),
{
    let r = assoc_index(v, name);
    match r {
        Some(i) => {
            proof {
                lemma_assoc_remove(v@, i as int);
            }
            v.remove(i);
        }
        None => {
            proof {
                assert(assoc_map(v@).remove(name@) =~= assoc_map(v@));
            }
        }
    }
}

} // verus!
