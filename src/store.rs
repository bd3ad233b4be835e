use vstd::prelude::*;
use crate::table::StrTable;

verus! {

/// The state after a change notification whose full-text changes are `batch`:
/// only the last one counts, and an empty batch changes nothing.
pub open spec fn after_change(
    docs: Map<Seq<char>, Seq<char>>,
    id: Seq<char>,
    batch: Seq<Seq<char>>,
) -> Map<Seq<char>, Seq<char>> {
    if batch.len() == 0 {
        docs
    } else {
        docs.insert(id, batch.last())
    }
}

/// The text of every open document, keyed by its identifier.
pub struct DocumentStore {
    files: StrTable,
}

impl DocumentStore {
    pub closed spec fn wf(&self) -> bool {
        self.files.wf()
    }

    pub closed spec fn view(&self) -> Map<Seq<char>, Seq<char>> {
        self.files@
    }

    pub fn new() -> (r: DocumentStore)
        ensures
            r.wf(),
            r@ == Map::<Seq<char>, Seq<char>>::empty(),
    {
        DocumentStore { files: StrTable::new() }
    }

    /// Records `text` as the full text of `id`, replacing any earlier text.
    pub fn open(&mut self, id: String, text: String)
        requires
            old(self).wf(),
        ensures
            final(self).wf(),
            final(self)@ == old(self)@.insert(id@, text@),
    {
        self.files.insert(id, text);
    }

    /// Applies a batch of full-text changes to `id`: only the last one is kept.
    pub fn change(&mut self, id: String, changes: Vec<String>)
        requires
            old(self).wf(),
        ensures
            final(self).wf(),
            final(self)@ == after_change(old(self)@, id@, changes.deep_view()),
    {
        let mut changes = changes;
        let ghost batch = changes.deep_view();
        match changes.pop() {
            Some(text) => {
                assert(batch.last() == text@);
                self.files.insert(id, text);
            },
            None => {},
        }
    }

    /// A copy of the current text of `id`, if it is open.
    pub fn get(&self, id: &str) -> (r: Option<String>)
        requires
            self.wf(),
        ensures
            match r {
                Some(t) => self@.contains_key(id@) && t@ == self@[id@],
                None => !self@.contains_key(id@),
            },
    {
        let k = id.to_owned();
        self.files.get(&k)
    }
}

/// Opening a document twice with the same text leaves the store as one opening does.
pub proof fn lemma_open_idempotent(store: DocumentStore, id: Seq<char>, text: Seq<char>)
    ensures
        store@.insert(id, text).insert(id, text) == store@.insert(id, text),
{
    assert(store@.insert(id, text).insert(id, text) =~= store@.insert(id, text));
}

/// Applying the same batch of changes twice leaves the store as applying it once does.
pub proof fn lemma_change_idempotent(store: DocumentStore, id: Seq<char>, batch: Seq<Seq<char>>)
    ensures
        after_change(after_change(store@, id, batch), id, batch) == after_change(store@, id, batch),
{
    if batch.len() > 0 {
        lemma_open_idempotent(store, id, batch.last());
    }
}

/// After a non-empty batch of changes, the document's text is the last change's text,
/// whatever the earlier ones held.
pub proof fn lemma_last_change_wins(store: DocumentStore, id: Seq<char>, batch: Seq<Seq<char>>)
    requires
        batch.len() >= 1,
    ensures
        after_change(store@, id, batch).contains_key(id),
        after_change(store@, id, batch)[id] == batch[batch.len() - 1],
        forall|other: Seq<Seq<char>>|
            other.len() >= 1 && other.last() == batch.last() ==> after_change(store@, id, other)
                == after_change(store@, id, batch),
{
}

} // verus!
