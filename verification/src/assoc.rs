//! String-keyed association lists: the lookup model both caches share, with
//! the lemmas that characterize it.

use vstd::prelude::*;

verus! {

/// The index of the first entry whose key reads `key`.
pub open spec fn assoc_find<T>(s: Seq<(String, T)>, key: Seq<char>) -> Option<int>
    decreases s.len(),
{
    if s.len() == 0 {
        None
    } else if s[0].0@ == key {
        Some(0int)
    } else {
        match assoc_find(s.drop_first(), key) {
            Some(k) => Some(k + 1),
            None => None,
        }
    }
}

/// What [`assoc_find`] returns: the first matching entry, if any.
pub proof fn lemma_assoc_find_characterization<T>(s: Seq<(String, T)>, key: Seq<char>)
    ensures
        match assoc_find(s, key) {
            Some(k) => 0 <= k < s.len() && s[k].0@ == key && (forall|j: int|
                0 <= j < k ==> s[j].0@ != key),
            None => forall|j: int| 0 <= j < s.len() ==> s[j].0@ != key,
        },
    decreases s.len(),
{
    if s.len() > 0 && s[0].0@ != key {
        lemma_assoc_find_characterization(s.drop_first(), key);
        match assoc_find(s.drop_first(), key) {
            Some(k) => {
                assert(s.drop_first()[k] == s[k + 1]);
                assert forall|j: int| 0 <= j < k + 1 implies s[j].0@ != key by {
                    if j >= 1 {
                        assert(s.drop_first()[j - 1] == s[j]);
                    }
                }
            },
            None => {
                assert forall|j: int| 0 <= j < s.len() implies s[j].0@ != key by {
                    if j >= 1 {
                        assert(s.drop_first()[j - 1] == s[j]);
                    }
                }
            },
        }
    }
}

/// The first match of a list whose keys and another's agree pointwise is at
/// the same index.
pub proof fn lemma_assoc_find_same_keys<T>(
    s1: Seq<(String, T)>,
    s2: Seq<(String, T)>,
    key: Seq<char>,
)
    requires
        s1.len() == s2.len(),
        forall|j: int| 0 <= j < s1.len() ==> s1[j].0@ == #[trigger] s2[j].0@,
    ensures
        assoc_find(s1, key) == assoc_find(s2, key),
    decreases s1.len(),
{
    if s1.len() > 0 {
        assert(s1[0].0@ == s2[0].0@);
        assert(forall|j: int|
            0 <= j < s1.drop_first().len() ==> s1.drop_first()[j] == s1[j + 1]
                && s2.drop_first()[j] == #[trigger] s2[j + 1]);
        lemma_assoc_find_same_keys(s1.drop_first(), s2.drop_first(), key);
    }
}

/// Appending an entry leaves earlier finds unchanged and lets a previously
/// missing key be found at the end.
pub proof fn lemma_assoc_find_push<T>(s: Seq<(String, T)>, e: (String, T), key: Seq<char>)
    ensures
        assoc_find(s.push(e), key) == (match assoc_find(s, key) {
            Some(k) => Some(k),
            None => if e.0@ == key {
                Some(s.len() as int)
            } else {
                None
            },
        }),
    decreases s.len(),
{
    if s.len() == 0 {
        assert(s.push(e)[0] == e);
        assert(s.push(e).drop_first() =~= Seq::<(String, T)>::empty());
        assert(assoc_find(Seq::<(String, T)>::empty(), key) is None);
        assert(assoc_find(s, key) is None);
    } else {
        assert(s.push(e)[0] == s[0]);
        assert(s.push(e).drop_first() =~= s.drop_first().push(e));
        lemma_assoc_find_push(s.drop_first(), e, key);
        assert(s.drop_first().len() == s.len() - 1);
        if s[0].0@ == key {
            assert(assoc_find(s.push(e), key) == Some(0int));
            assert(assoc_find(s, key) == Some(0int));
        } else {
            assert(assoc_find(s.push(e), key) == (match assoc_find(s.push(e).drop_first(), key) {
                Some(k) => Some(k + 1),
                None => None,
            }));
            assert(assoc_find(s, key) == (match assoc_find(s.drop_first(), key) {
                Some(k) => Some(k + 1),
                None => None,
            }));
        }
    }
}

} // verus!
