//! In-memory case metadata store: the lookup-by-id contract the search
//! engine relies on. Durable persistence is the surrounding application's
//! concern; it feeds records in through [`MetadataStore::store_case_metadata`].

use vstd::prelude::*;

use crate::errors::SearchError;
use crate::{CaseId, CaseMetadata, CaseMetadataModel};

verus! {

/// Metadata records keyed by case id, ids unique, insertion order kept.
pub struct MetadataStore {
    records: Vec<CaseMetadata>,
}

/// The index of the record with a given id.
pub closed spec fn find_case(s: Seq<CaseMetadata>, id: CaseId) -> Option<int>
    decreases s.len(),
{
    if s.len() == 0 {
        None
    } else if s[0].id == id {
        Some(0int)
    } else {
        match find_case(s.drop_first(), id) {
            Some(k) => Some(k + 1),
            None => None,
        }
    }
}

/// What [`find_case`] returns: the first record with the id, if any.
pub proof fn lemma_find_case_characterization(s: Seq<CaseMetadata>, id: CaseId)
    ensures
        match find_case(s, id) {
            Some(k) => 0 <= k < s.len() && s[k].id == id && (forall|j: int|
                0 <= j < k ==> s[j].id != id),
            None => forall|j: int| 0 <= j < s.len() ==> s[j].id != id,
        },
    decreases s.len(),
{
    if s.len() > 0 && s[0].id != id {
        lemma_find_case_characterization(s.drop_first(), id);
        match find_case(s.drop_first(), id) {
            Some(k) => {
                assert(s.drop_first()[k] == s[k + 1]);
                assert forall|j: int| 0 <= j < k + 1 implies s[j].id != id by {
                    if j >= 1 {
                        assert(s.drop_first()[j - 1] == s[j]);
                    }
                }
            },
            None => {
                assert forall|j: int| 0 <= j < s.len() implies s[j].id != id by {
                    if j >= 1 {
                        assert(s.drop_first()[j - 1] == s[j]);
                    }
                }
            },
        }
    }
}

/// Appending a record leaves earlier finds unchanged and lets a previously
/// missing id be found at the end.
pub proof fn lemma_find_case_push(s: Seq<CaseMetadata>, e: CaseMetadata, id: CaseId)
    ensures
        find_case(s.push(e), id) == (match find_case(s, id) {
            Some(k) => Some(k),
            None => if e.id == id {
                Some(s.len() as int)
            } else {
                None
            },
        }),
    decreases s.len(),
{
    if s.len() == 0 {
        assert(s.push(e)[0] == e);
        assert(s.push(e).drop_first() =~= Seq::<CaseMetadata>::empty());
        assert(find_case(Seq::<CaseMetadata>::empty(), id) is None);
        assert(find_case(s, id) is None);
    } else {
        assert(s.push(e)[0] == s[0]);
        assert(s.push(e).drop_first() =~= s.drop_first().push(e));
        lemma_find_case_push(s.drop_first(), e, id);
        assert(s.drop_first().len() == s.len() - 1);
        if s[0].id == id {
            assert(find_case(s.push(e), id) == Some(0int));
            assert(find_case(s, id) == Some(0int));
        } else {
            assert(find_case(s.push(e), id) == (match find_case(s.push(e).drop_first(), id) {
                Some(k) => Some(k + 1),
                None => None,
            }));
            assert(find_case(s, id) == (match find_case(s.drop_first(), id) {
                Some(k) => Some(k + 1),
                None => None,
            }));
        }
    }
}

impl MetadataStore {
    /// The stored records, in insertion order.
    pub closed spec fn records(&self) -> Seq<CaseMetadata> {
        self.records@
    }

    /// The record stored under an id, as its mathematical image.
    pub open spec fn record_of(&self, id: CaseId) -> Option<CaseMetadataModel> {
        match find_case(self.records(), id) {
            Some(k) => Some(self.records()[k].model()),
            None => None,
        }
    }

    /// Every id occurs at most once.
    pub closed spec fn wf(&self) -> bool {
        forall|i: int, j: int|
            0 <= i < j < self.records@.len() ==> (#[trigger] self.records@[i]).id != (
            #[trigger] self.records@[j]).id
    }

    /// An empty store.
    pub fn new() -> (r: Self)
        ensures
            r.wf(),
            r.records() == Seq::<CaseMetadata>::empty(),
    {
        MetadataStore { records: Vec::new() }
    }

    /// How many cases are stored.
    pub fn len(&self) -> (r: usize)
        ensures
            r == self.records().len(),
    {
        self.records.len()
    }

    /// Stores a record: replaces the record with the same id, or appends.
    pub fn store_case_metadata(&mut self, metadata: CaseMetadata) -> (r: Result<(), SearchError>)
        requires
            old(self).wf(),
        ensures
            r is Ok,
            final(self).wf(),
            final(self).record_of(metadata.id) == Some(metadata.model()),
            forall|other: CaseId|
                other != metadata.id ==> #[trigger] final(self).record_of(other) == old(
                    self,
                ).record_of(other),
    {
        let id = metadata.id;
        let mut i: usize = 0;
        while i < self.records.len()
            invariant
                i <= self.records@.len(),
                forall|j: int| 0 <= j < i ==> (#[trigger] self.records@[j]).id != id,
                *self == *old(self),
                old(self).wf(),
                id == metadata.id,
            decreases self.records@.len() - i,
        {
            if self.records[i].id == id {
                let ghost pre = self.records@;
                self.records[i] = metadata;
                proof {
                    assert(forall|j: int|
                        0 <= j < self.records@.len() && j != i ==> #[trigger] self.records@[j]
                            == pre[j]);
                    assert(forall|j: int|
                        0 <= j < self.records@.len() ==> (#[trigger] self.records@[j]).id
                            == pre[j].id);
                    assert(find_case(pre, id) == Some(i as int)) by {
                        lemma_find_case_characterization(pre, id);
                        if find_case(pre, id) is None {
                            assert(pre[i as int].id != id);
                        }
                        match find_case(pre, id) {
                            Some(k) => {
                                if k != i as int {
                                    assert(pre[k].id == id);
                                    assert(old(self).wf());
                                }
                            },
                            None => {},
                        }
                    }
                    lemma_find_case_same_ids(self.records@, pre, id);
                    assert forall|other: CaseId|
                        other != id implies #[trigger] self.record_of(other) == old(
                        self,
                    ).record_of(other) by {
                        lemma_find_case_same_ids(self.records@, pre, other);
                        lemma_find_case_characterization(pre, other);
                        match find_case(pre, other) {
                            Some(k) => {
                                assert(pre[k].id == other);
                                assert(k != i as int);
                                assert(self.records@[k] == pre[k]);
                            },
                            None => {},
                        }
                    }
                    assert forall|x: int, y: int|
                        0 <= x < y < self.records@.len() implies (#[trigger] self.records@[x]).id
                        != (#[trigger] self.records@[y]).id by {
                        assert(pre[x].id != pre[y].id);
                    }
                }
                return Ok(());
            }
            i += 1;
        }
        let ghost pre = self.records@;
        self.records.push(metadata);
        proof {
            lemma_find_case_characterization(pre, id);
            lemma_find_case_push(pre, metadata, id);
            assert forall|other: CaseId|
                other != id implies #[trigger] self.record_of(other) == old(self).record_of(
                other,
            ) by {
                lemma_find_case_push(pre, metadata, other);
                lemma_find_case_characterization(pre, other);
                match find_case(pre, other) {
                    Some(k) => {
                        assert(0 <= k < pre.len());
                        assert(self.records@[k] == pre[k]);
                    },
                    None => {},
                }
            }
            assert(self.record_of(id) == Some(metadata.model()));
            assert forall|x: int, y: int|
                0 <= x < y < self.records@.len() implies (#[trigger] self.records@[x]).id != (
            #[trigger] self.records@[y]).id by {
                if y == self.records@.len() - 1 {
                    assert(self.records@[x] == pre[x]);
                }
            }
        }
        Ok(())
    }

    /// The record stored under an id, if any.
    pub fn get_case_metadata(&self, case_id: CaseId) -> (r: Option<CaseMetadata>)
        ensures
            match r {
                Some(m) => self.record_of(case_id) == Some(m.model()) && m.id == case_id,
                None => self.record_of(case_id) is None,
            },
    {
        let mut i: usize = 0;
        while i < self.records.len()
            invariant
                i <= self.records@.len(),
                forall|j: int| 0 <= j < i ==> (#[trigger] self.records@[j]).id != case_id,
            decreases self.records@.len() - i,
        {
            if self.records[i].id == case_id {
                proof {
                    lemma_find_case_characterization(self.records@, case_id);
                    if find_case(self.records@, case_id) is None {
                        assert(self.records@[i as int].id != case_id);
                    }
                }
                let found = self.records[i].clone();
                return Some(found);
            }
            i += 1;
        }
        proof {
            lemma_find_case_characterization(self.records@, case_id);
        }
        None
    }

    /// Whether a case is stored under the id.
    pub fn case_exists(&self, case_id: CaseId) -> (r: bool)
        ensures
            r == (self.record_of(case_id) is Some),
    {
        match self.get_case_metadata(case_id) {
            Some(_) => true,
            None => false,
        }
    }

    /// All stored case ids, in insertion order.
    pub fn list_case_ids(&self) -> (r: Vec<CaseId>)
        ensures
            r@.len() == self.records().len(),
            forall|k: int| 0 <= k < r@.len() ==> #[trigger] r@[k] == self.records()[k].id,
    {
        let mut r: Vec<CaseId> = Vec::new();
        let mut i: usize = 0;
        while i < self.records.len()
            invariant
                i <= self.records@.len(),
                r@.len() == i,
                forall|k: int| 0 <= k < i ==> #[trigger] r@[k] == self.records@[k].id,
            decreases self.records@.len() - i,
        {
            r.push(self.records[i].id);
            i += 1;
        }
        r
    }
}

/// Finding an id looks only at the ids, not at the rest of the records.
pub proof fn lemma_find_case_same_ids(s1: Seq<CaseMetadata>, s2: Seq<CaseMetadata>, id: CaseId)
    requires
        s1.len() == s2.len(),
        forall|j: int| 0 <= j < s1.len() ==> (#[trigger] s1[j]).id == (#[trigger] s2[j]).id,
    ensures
        find_case(s1, id) == find_case(s2, id),
    decreases s1.len(),
{
    if s1.len() > 0 {
        assert(s1[0].id == s2[0].id);
        assert(forall|j: int|
            0 <= j < s1.drop_first().len() ==> s1.drop_first()[j] == s1[j + 1]
                && s2.drop_first()[j] == #[trigger] s2[j + 1]);
        lemma_find_case_same_ids(s1.drop_first(), s2.drop_first(), id);
    }
}

} // verus!
