//! The in-memory registry: identities and the ordered file list each owns.
//!
//! The registry is a sequence of entries with pairwise-distinct identities,
//! viewed in contracts as a map from identity to its file list. Entry order
//! is kept so that a snapshot reproduces the registry exactly.

use crate::identity::{fresh_identity, Identity};
use vstd::prelude::*;

verus! {

/// One registered identity together with its files, in upload order.
pub struct IdentityEntry {
    pub id: Identity,
    pub files: Vec<String>,
}

/// The registry: a storage root shared by all identities, and the entries.
pub struct FileCoordinator {
    pub storage_prefix: String,
    pub list: Vec<IdentityEntry>,
}

/// An unregistered identity was named.
#[derive(PartialEq, Eq, Structural, Clone, Copy, Debug)]
pub enum RegistryError {
    NotFound,
}

/// The map that a sequence of entries denotes; later entries win.
pub open spec fn map_of(entries: Seq<(Identity, Seq<Seq<char>>)>) -> Map<Identity, Seq<Seq<char>>>
    decreases entries.len(),
{
    if entries.len() == 0 {
        Map::empty()
    } else {
        map_of(entries.drop_last()).insert(entries.last().0, entries.last().1)
    }
}

/// Pairwise-distinct identities.
pub open spec fn unique_ids(entries: Seq<(Identity, Seq<Seq<char>>)>) -> bool {
    forall|i: int, j: int| 0 <= i < j < entries.len() ==> entries[i].0 != entries[j].0
}

/// The entry pairs that a sequence of stored entries denotes.
pub open spec fn entries_of(list: Seq<IdentityEntry>) -> Seq<(Identity, Seq<Seq<char>>)> {
    Seq::new(list.len(), |i: int| (list[i].id, list[i].files.deep_view()))
}

/// Whether no identity occurs twice in `list`.
pub fn has_unique_ids(list: &Vec<IdentityEntry>) -> (r: bool)
    ensures
        r == unique_ids(entries_of(list@)),
{
    let mut i: usize = 0;
    while i < list.len()
        invariant
            i <= list@.len(),
            forall|p: int, q: int| 0 <= p < q < i ==> list@[p].id != list@[q].id,
        decreases list@.len() - i,
    {
        let mut j: usize = 0;
        while j < i
            invariant
                j <= i < list@.len(),
                forall|q: int| 0 <= q < j ==> list@[q].id != list@[i as int].id,
            decreases i - j,
        {
            if list[j].id == list[i].id {
                proof {
                    assert(entries_of(list@)[j as int].0 == entries_of(list@)[i as int].0);
                    assert(!unique_ids(entries_of(list@)));
                }
                return false;
            }
            j = j + 1;
        }
        i = i + 1;
    }
    proof {
        assert forall|p: int, q: int|
            0 <= p < q < entries_of(list@).len() implies entries_of(list@)[p].0 != entries_of(
            list@,
        )[q].0 by {
            assert(list@[p].id != list@[q].id);
        }
    }
    true
}

pub proof fn lemma_map_of_domain(entries: Seq<(Identity, Seq<Seq<char>>)>, id: Identity)
    ensures
        map_of(entries).contains_key(id) <==> exists|i: int|
            0 <= i < entries.len() && entries[i].0 == id,
    decreases entries.len(),
{
    if entries.len() > 0 {
        lemma_map_of_domain(entries.drop_last(), id);
        if entries.last().0 == id {
            assert(entries[entries.len() - 1].0 == id);
        } else if map_of(entries).contains_key(id) {
            let i = choose|i: int| 0 <= i < entries.drop_last().len() && entries.drop_last()[i].0
                == id;
            assert(entries[i].0 == id);
        } else {
            assert forall|i: int| 0 <= i < entries.len() implies entries[i].0 != id by {
                if i < entries.len() - 1 {
                    assert(entries.drop_last()[i].0 == entries[i].0);
                }
            }
        }
    }
}

pub proof fn lemma_map_of_index(entries: Seq<(Identity, Seq<Seq<char>>)>, i: int)
    requires
        unique_ids(entries),
        0 <= i < entries.len(),
    ensures
        map_of(entries).contains_key(entries[i].0),
        map_of(entries)[entries[i].0] == entries[i].1,
    decreases entries.len(),
{
    if i == entries.len() - 1 {
    } else {
        assert(unique_ids(entries.drop_last())) by {
            assert forall|p: int, q: int|
                0 <= p < q < entries.drop_last().len() implies entries.drop_last()[p].0
                != entries.drop_last()[q].0 by {
                assert(entries[p].0 != entries[q].0);
            }
        }
        assert(entries.drop_last()[i] == entries[i]);
        lemma_map_of_index(entries.drop_last(), i);
        assert(entries[i].0 != entries.last().0);
    }
}

/// Replacing the file list of the entry at `i` is, on the map, an insert.
pub proof fn lemma_map_of_update(
    entries: Seq<(Identity, Seq<Seq<char>>)>,
    i: int,
    v: Seq<Seq<char>>,
)
    requires
        unique_ids(entries),
        0 <= i < entries.len(),
    ensures
        map_of(entries.update(i, (entries[i].0, v))) == map_of(entries).insert(entries[i].0, v),
    decreases entries.len(),
{
    let upd = entries.update(i, (entries[i].0, v));
    if i == entries.len() - 1 {
        assert(upd.drop_last() =~= entries.drop_last());
        assert(map_of(upd) =~= map_of(entries).insert(entries[i].0, v));
    } else {
        assert(unique_ids(entries.drop_last())) by {
            assert forall|p: int, q: int|
                0 <= p < q < entries.drop_last().len() implies entries.drop_last()[p].0
                != entries.drop_last()[q].0 by {
                assert(entries[p].0 != entries[q].0);
            }
        }
        assert(entries.drop_last()[i] == entries[i]);
        lemma_map_of_update(entries.drop_last(), i, v);
        assert(upd.drop_last() =~= entries.drop_last().update(i, (entries[i].0, v)));
        assert(upd.last() == entries.last());
        assert(entries[i].0 != entries.last().0);
        assert(map_of(upd) =~= map_of(entries).insert(entries[i].0, v));
    }
}

impl FileCoordinator {
    /// The entries as pairs of identity and file-name sequence.
    pub open spec fn entries(self) -> Seq<(Identity, Seq<Seq<char>>)> {
        entries_of(self.list@)
    }

    /// Well-formed: no identity occurs twice.
    pub open spec fn wf(self) -> bool {
        unique_ids(self.entries())
    }

    /// The registry as a map from identity to its file list.
    pub open spec fn map_view(self) -> Map<Identity, Seq<Seq<char>>> {
        map_of(self.entries())
    }

    /// A fresh registry: storage root "files", no identities.
    pub fn new() -> (r: FileCoordinator)
        ensures
            r.wf(),
            r.storage_prefix@ == "files"@,
            r.map_view() == Map::<Identity, Seq<Seq<char>>>::empty(),
    {
        let r = FileCoordinator { storage_prefix: "files".to_owned(), list: Vec::new() };
        assert(r.entries() =~= Seq::<(Identity, Seq<Seq<char>>)>::empty());
        r
    }

    fn find_index(&self, id: Identity) -> (r: Option<usize>)
        ensures
            r matches Some(i) ==> i < self.list@.len() && self.list@[i as int].id == id,
            r is None ==> forall|i: int| 0 <= i < self.list@.len() ==> self.list@[i].id != id,
    {
        let mut i: usize = 0;
        while i < self.list.len()
            invariant
                i <= self.list@.len(),
                forall|j: int| 0 <= j < i ==> self.list@[j].id != id,
            decreases self.list@.len() - i,
        {
            if self.list[i].id == id {
                return Some(i);
            }
            i = i + 1;
        }
        None
    }

    /// Whether `id` has been registered.
    pub fn is_registered(&self, id: Identity) -> (r: bool)
        ensures
            r == self.map_view().contains_key(id),
    {
        proof {
            lemma_map_of_domain(self.entries(), id);
        }
        match self.find_index(id) {
            Some(i) => {
                proof {
                    assert(self.entries()[i as int].0 == id);
                }
                true
            },
            None => {
                proof {
                    assert forall|i: int|
                        0 <= i < self.entries().len() implies self.entries()[i].0 != id by {
                        assert(self.list@[i].id != id);
                    }
                }
                false
            },
        }
    }

    /// Records `id` with an empty file list; re-registering an identity
    /// resets its list, as inserting into a map does.
    pub fn register(&mut self, id: Identity)
        requires
            old(self).wf(),
        ensures
            final(self).wf(),
            final(self).storage_prefix == old(self).storage_prefix,
            final(self).map_view() == old(self).map_view().insert(
                id,
                Seq::<Seq<char>>::empty(),
            ),
    {
        match self.find_index(id) {
            Some(i) => {
                self.list[i].files = Vec::new();
                proof {
                    let es = old(self).entries();
                    assert(self.entries() =~~= es.update(i as int, (id, Seq::<Seq<char>>::empty())));
                    lemma_map_of_update(es, i as int, Seq::<Seq<char>>::empty());
                }
            },
            None => {
                self.list.push(IdentityEntry { id, files: Vec::new() });
                proof {
                    let es = old(self).entries();
                    assert(self.entries() =~~= es.push((id, Seq::<Seq<char>>::empty())));
                    assert(self.entries().drop_last() =~~= es);
                }
            },
        }
    }

    /// Registers a freshly generated identity and returns it.
    pub fn register_fresh(&mut self) -> (id: Identity)
        requires
            old(self).wf(),
        ensures
            final(self).wf(),
            final(self).storage_prefix == old(self).storage_prefix,
            final(self).map_view() == old(self).map_view().insert(
                id,
                Seq::<Seq<char>>::empty(),
            ),
    {
        let id = fresh_identity();
        self.register(id);
        id
    }

    /// The file list recorded for `id`, in upload order; `NotFound` exactly
    /// when `id` was never registered.
    pub fn list_files(&self, id: Identity) -> (r: Result<Vec<String>, RegistryError>)
        requires
            self.wf(),
        ensures
            r is Ok <==> self.map_view().contains_key(id),
            r matches Ok(v) ==> v.deep_view() == self.map_view()[id],
            r is Err ==> r == Result::<Vec<String>, RegistryError>::Err(RegistryError::NotFound),
    {
        proof {
            lemma_map_of_domain(self.entries(), id);
        }
        match self.find_index(id) {
            Some(i) => {
                proof {
                    lemma_map_of_index(self.entries(), i as int);
                }
                let copy = self.list[i].files.clone();
                proof {
                    assert(self.entries()[i as int].1 == self.list@[i as int].files.deep_view());
                    assert(copy@ =~= self.list@[i as int].files@);
                    assert(copy.deep_view() =~~= self.list@[i as int].files.deep_view());
                }
                Ok(copy)
            },
            None => Err(RegistryError::NotFound),
        }
    }

    /// Appends `filename` to `id`'s file list; fails exactly when `id` is
    /// unknown, leaving the registry unchanged.
    pub fn record_upload(&mut self, id: Identity, filename: String) -> (r: Result<
        (),
        RegistryError,
    >)
        requires
            old(self).wf(),
        ensures
            final(self).wf(),
            final(self).storage_prefix == old(self).storage_prefix,
            r is Ok <==> old(self).map_view().contains_key(id),
            r is Ok ==> final(self).map_view() == old(self).map_view().insert(
                id,
                old(self).map_view()[id].push(filename@),
            ),
            r is Err ==> *final(self) == *old(self) && r == Result::<(), RegistryError>::Err(
                RegistryError::NotFound,
            ),
    {
        proof {
            lemma_map_of_domain(old(self).entries(), id);
        }
        match self.find_index(id) {
            Some(i) => {
                proof {
                    lemma_map_of_index(self.entries(), i as int);
                }
                self.list[i].files.push(filename);
                proof {
                    let es = old(self).entries();
                    let newfiles = es[i as int].1.push(filename@);
                    assert(self.list@[i as int].files.deep_view() =~~= newfiles);
                    assert(self.entries() =~~= es.update(i as int, (id, newfiles)));
                    lemma_map_of_update(es, i as int, newfiles);
                }
                Ok(())
            },
            None => Err(RegistryError::NotFound),
        }
    }

    /// Whether `filename` is recorded for `id`; `Some` carries the stored
    /// record, so a download can be validated before touching storage.
    pub fn lookup(&self, id: Identity, filename: &String) -> (r: Option<String>)
        requires
            self.wf(),
        ensures
            r is Some <==> self.map_view().contains_key(id) && self.map_view()[id].contains(
                filename@,
            ),
            r matches Some(f) ==> f@ == filename@,
    {
        proof {
            lemma_map_of_domain(self.entries(), id);
        }
        match self.find_index(id) {
            Some(i) => {
                proof {
                    lemma_map_of_index(self.entries(), i as int);
                    assert(self.entries()[i as int].1 == self.list@[i as int].files.deep_view());
                    assert(self.map_view()[id] == self.list@[i as int].files.deep_view());
                }
                let files = &self.list[i].files;
                let mut j: usize = 0;
                while j < files.len()
                    invariant
                        j <= files@.len(),
                        i < self.list@.len(),
                        files == &self.list@[i as int].files,
                        self.map_view().contains_key(id),
                        self.map_view()[id] == files.deep_view(),
                        forall|k: int| 0 <= k < j ==> files@[k]@ != filename@,
                    decreases files@.len() - j,
                {
                    if files[j].eq(filename) {
                        proof {
                            assert(self.map_view()[id][j as int] == files@[j as int]@);
                            assert(self.map_view()[id].contains(filename@));
                        }
                        return Some(files[j].clone());
                    }
                    j = j + 1;
                }
                proof {
                    if self.map_view()[id].contains(filename@) {
                        let k = choose|k: int|
                            0 <= k < self.map_view()[id].len() && self.map_view()[id][k]
                                == filename@;
                        assert(self.map_view()[id][k] == files@[k]@);
                        assert(files@[k]@ == filename@);
                    }
                }
                None
            },
            None => None,
        }
    }
}

} // verus!
