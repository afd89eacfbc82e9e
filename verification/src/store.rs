//! A model of the vector store's visible state: records keyed uniquely by
//! `id`, written through upserts. The connection that carries these rows to
//! the real store lives outside the crate; what is modelled here is the
//! metadata every row carries and what a sequence of upserts leaves behind.

use vstd::prelude::*;
use vstd::pervasive::VecAdditionalExecFns;
use crate::lang::{get_language, language_of};
use crate::text::str_eq;

verus! {

/// The structured metadata bag stored beside each document.
pub struct Metadata {
    pub source: String,
    pub language: String,
    pub path: String,
}

/// A stored row: the document id (its path), its text, the textual pieces
/// of its embedding vector, and its metadata.
pub struct Record {
    pub id: String,
    pub text: String,
    pub vector: Vec<String>,
    pub metadata: Metadata,
}

/// Well-formed metadata for a row keyed by `id`: the source tag is fixed,
/// the path is the id itself, and the language is derived from that path.
pub open spec fn metadata_wf(m: Metadata, id: Seq<char>) -> bool {
    &&& m.source@ == "codebase"@
    &&& m.path@ == id
    &&& m.language@ == language_of(id)
}

/// A well-formed row carries well-formed metadata for its own id.
pub open spec fn record_wf(r: Record) -> bool {
    metadata_wf(r.metadata, r.id@)
}

/// Builds the row for a document, deriving its metadata from the path.
pub fn make_record(path: &str, text: &str, vector: Vec<String>) -> (r: Record)
    ensures
        r.id@ == path@,
        r.text@ == text@,
        r.vector == vector,
        record_wf(r),
{
    let language = get_language(path);
    Record {
        id: path.to_owned(),
        text: text.to_owned(),
        vector,
        metadata: Metadata {
            source: "codebase".to_owned(),
            language: language.to_owned(),
            path: path.to_owned(),
        },
    }
}

/// The store's visible state: its rows, unique by id.
pub struct Store {
    pub rows: Vec<Record>,
}

impl Store {
    /// Ids are unique and every row is well formed.
    pub open spec fn wf(self) -> bool {
        &&& forall|i: int, j: int|
            0 <= i < j < self.rows@.len() ==> #[trigger] self.rows@[i].id@ != #[trigger] self.rows@[j].id@
        &&& forall|i: int| 0 <= i < self.rows@.len() ==> record_wf(#[trigger] self.rows@[i])
    }

    /// The set of ids present.
    pub open spec fn ids(self) -> Set<Seq<char>> {
        Set::new(|s: Seq<char>| exists|i: int| 0 <= i < self.rows@.len() && self.rows@[i].id@ == s)
    }

    /// An empty store.
    pub fn new() -> (s: Store)
        ensures
            s.wf(),
            s.ids() =~= Set::<Seq<char>>::empty(),
            s.rows@.len() == 0,
    {
        Store { rows: Vec::new() }
    }

    /// Inserts the row, or replaces the row with the same id: afterwards the
    /// id is present exactly once, and every other row is untouched.
    pub fn upsert(&mut self, r: Record)
        requires
            old(self).wf(),
            record_wf(r),
        ensures
            final(self).wf(),
            final(self).ids() =~= old(self).ids().insert(r.id@),
            exists|j: int|
                0 <= j < final(self).rows@.len() && #[trigger] final(self).rows@[j] == r,
            forall|j: int|
                0 <= j < old(self).rows@.len() && old(self).rows@[j].id@ != r.id@
                    ==> #[trigger] final(self).rows@[j] == old(self).rows@[j],
            forall|j: int|
                0 <= j < final(self).rows@.len() ==> #[trigger] final(self).rows@[j] == r || (j
                    < old(self).rows@.len() && final(self).rows@[j] == old(self).rows@[j]),
    {
        let ghost oldrows = self.rows@;
        let n = self.rows.len();
        let mut i: usize = 0;
        while i < n
            invariant
                n == self.rows@.len(),
                i <= n,
                self.rows@ == oldrows,
                oldrows == old(self).rows@,
                old(self).wf(),
                record_wf(r),
                forall|k: int| 0 <= k < i ==> #[trigger] oldrows[k].id@ != r.id@,
            decreases n - i,
        {
            if str_eq(self.rows[i].as_str_id(), r.id.as_str()) {
                self.rows.set(i, r);
                proof {
                    let newrows = self.rows@;
                    assert(newrows[i as int] == r);
                    assert forall|s: Seq<char>| self.ids().contains(s) implies old(self).ids().insert(
                        r.id@,
                    ).contains(s) by {
                        let k = choose|k: int|
                            0 <= k < newrows.len() && #[trigger] newrows[k].id@ == s;
                        if k != i {
                            assert(oldrows[k].id@ == s);
                        }
                    }
                    assert forall|s: Seq<char>| old(self).ids().insert(r.id@).contains(s) implies self
                        .ids().contains(s) by {
                        if s == r.id@ {
                            assert(newrows[i as int].id@ == s);
                        } else {
                            let k = choose|k: int|
                                0 <= k < oldrows.len() && #[trigger] oldrows[k].id@ == s;
                            assert(newrows[k].id@ == s);
                        }
                    }
                    assert(self.ids() =~= old(self).ids().insert(r.id@));
                }
                return ;
            }
            i += 1;
        }
        self.rows.push(r);
        proof {
            let newrows = self.rows@;
            assert(newrows[oldrows.len() as int] == r);
            assert(forall|k: int| 0 <= k < oldrows.len() ==> #[trigger] newrows[k] == oldrows[k]);
            assert forall|s: Seq<char>| self.ids().contains(s) implies old(self).ids().insert(
                r.id@,
            ).contains(s) by {
                let k = choose|k: int| 0 <= k < newrows.len() && #[trigger] newrows[k].id@ == s;
                if k < oldrows.len() {
                    assert(oldrows[k].id@ == s);
                }
            }
            assert forall|s: Seq<char>| old(self).ids().insert(r.id@).contains(s) implies self.ids()
                .contains(s) by {
                if s == r.id@ {
                    assert(newrows[oldrows.len() as int].id@ == s);
                } else {
                    let k = choose|k: int|
                        0 <= k < oldrows.len() && #[trigger] oldrows[k].id@ == s;
                    assert(newrows[k].id@ == s);
                }
            }
            assert(self.ids() =~= old(self).ids().insert(r.id@));
        }
    }
}

impl Record {
    /// The id field as a slice; a small accessor so the search in `upsert`
    /// can borrow the row and the candidate at once.
    pub fn as_str_id(&self) -> (r: &str)
        ensures
            r@ == self.id@,
    {
        self.id.as_str()
    }
}

/// The id set after upserting, in order, one row per element of `batch`
/// (each element the id of the row) into a store whose ids are `init`.
pub open spec fn ids_after_ingest(init: Set<Seq<char>>, batch: Seq<Seq<char>>) -> Set<Seq<char>>
    decreases batch.len(),
{
    if batch.len() == 0 {
        init
    } else {
        ids_after_ingest(init.insert(batch[0]), batch.drop_first())
    }
}

proof fn lemma_to_set_drop_first(batch: Seq<Seq<char>>)
    requires
        batch.len() > 0,
    ensures
        batch.to_set() =~= batch.drop_first().to_set().insert(batch[0]),
{
    let rest = batch.drop_first();
    assert forall|x: Seq<char>| batch.to_set().contains(x) implies rest.to_set().insert(
        batch[0],
    ).contains(x) by {
        let i = choose|i: int| 0 <= i < batch.len() && batch[i] == x;
        if i > 0 {
            assert(rest[i - 1] == x);
            assert(rest.contains(x));
        }
    }
    assert forall|x: Seq<char>| rest.to_set().insert(batch[0]).contains(x) implies batch.to_set()
        .contains(x) by {
        if x == batch[0] {
            assert(batch[0] == x);
        } else {
            let i = choose|i: int| 0 <= i < rest.len() && rest[i] == x;
            assert(batch[i + 1] == x);
        }
    }
}

/// Ingesting a batch leaves exactly the initial ids joined with the
/// batch's ids.
pub proof fn lemma_ids_after_ingest_union(init: Set<Seq<char>>, batch: Seq<Seq<char>>)
    ensures
        ids_after_ingest(init, batch) =~= init.union(batch.to_set()),
    decreases batch.len(),
{
    if batch.len() == 0 {
        assert(batch.to_set() =~= Set::<Seq<char>>::empty());
    } else {
        lemma_ids_after_ingest_union(init.insert(batch[0]), batch.drop_first());
        lemma_to_set_drop_first(batch);
    }
}

/// Re-ingesting the same corpus leaves the same set of ids in the store:
/// upserting the whole batch a second time changes nothing about which ids
/// are present, and uniqueness of ids is kept throughout by `upsert`.
pub proof fn lemma_reingest_same_ids(init: Set<Seq<char>>, batch: Seq<Seq<char>>)
    ensures
        ids_after_ingest(ids_after_ingest(init, batch), batch) == ids_after_ingest(init, batch),
{
    lemma_ids_after_ingest_union(init, batch);
    lemma_ids_after_ingest_union(ids_after_ingest(init, batch), batch);
    assert(init.union(batch.to_set()).union(batch.to_set()) =~= init.union(batch.to_set()));
}

} // verus!
