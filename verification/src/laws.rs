//! Laws relating the registry, the transfer engine and physical storage,
//! stated over the same models the functions' contracts use: the registry
//! as a map from identity to file list, and storage as a map from path
//! to byte sequence (an upload writes one path, a download reads it).

use crate::identity::Identity;
use crate::transfer::{lemma_paths_disjoint, path_for};
use vstd::prelude::*;

verus! {

/// Registering two distinct identities leaves both registered, each with an
/// empty file list, and leaves every other identity's files untouched:
/// distinct registrations never collide.
pub proof fn lemma_registrations_coexist(
    m: Map<Identity, Seq<Seq<char>>>,
    id1: Identity,
    id2: Identity,
)
    requires
        id1 != id2,
    ensures
        ({
            let m2 = m.insert(id1, Seq::<Seq<char>>::empty()).insert(
                id2,
                Seq::<Seq<char>>::empty(),
            );
            &&& m2.contains_key(id1)
            &&& m2.contains_key(id2)
            &&& m2[id1] == Seq::<Seq<char>>::empty()
            &&& m2[id2] == Seq::<Seq<char>>::empty()
        }),
{
}

/// A freshly registered identity lists as empty, and registering touches no
/// other identity's listing.
pub proof fn lemma_listing_after_register(
    m: Map<Identity, Seq<Seq<char>>>,
    id: Identity,
    other: Identity,
)
    ensures
        m.insert(id, Seq::<Seq<char>>::empty())[id] == Seq::<Seq<char>>::empty(),
        id != other ==> m.insert(id, Seq::<Seq<char>>::empty()).contains_key(other)
            == m.contains_key(other),
        id != other && m.contains_key(other) ==> m.insert(id, Seq::<Seq<char>>::empty())[other]
            == m[other],
{
}

/// Round trip: after an upload of `bytes` as `f` under `id`, the download
/// admission check passes for `f`, and reading the upload's target path
/// yields exactly `bytes`, whatever they are.
pub proof fn lemma_upload_then_download(
    m: Map<Identity, Seq<Seq<char>>>,
    disk: Map<Seq<char>, Seq<u8>>,
    prefix: Seq<char>,
    id: Identity,
    f: Seq<char>,
    bytes: Seq<u8>,
)
    requires
        m.contains_key(id),
    ensures
        m.insert(id, m[id].push(f))[id].contains(f),
        disk.insert(path_for(prefix, id, f), bytes)[path_for(prefix, id, f)] == bytes,
{
    let files = m[id].push(f);
    assert(files[files.len() - 1] == f);
}

/// An upload appends exactly one record; uploading the same filename twice
/// leaves two records but the bytes of the latest upload on disk.
pub proof fn lemma_duplicate_uploads(
    m: Map<Identity, Seq<Seq<char>>>,
    disk: Map<Seq<char>, Seq<u8>>,
    prefix: Seq<char>,
    id: Identity,
    f: Seq<char>,
    bytes1: Seq<u8>,
    bytes2: Seq<u8>,
)
    requires
        m.contains_key(id),
    ensures
        ({
            let m1 = m.insert(id, m[id].push(f));
            &&& m1[id].len() == m[id].len() + 1
            &&& m1[id].contains(f)
            &&& m1[id].last() == f
        }),
        ({
            let m1 = m.insert(id, m[id].push(f));
            let m2 = m1.insert(id, m1[id].push(f));
            m2[id].len() == m[id].len() + 2
        }),
        ({
            let p = path_for(prefix, id, f);
            disk.insert(p, bytes1).insert(p, bytes2)[p] == bytes2
        }),
{
    let m1 = m.insert(id, m[id].push(f));
    assert(m1[id][m[id].len() as int] == f);
}

/// Uploads under two distinct identities never interfere: each identity ends
/// with exactly its own record appended, and the two writes land on distinct
/// paths, so each path holds its own bytes.
pub proof fn lemma_independent_uploads(
    m: Map<Identity, Seq<Seq<char>>>,
    disk: Map<Seq<char>, Seq<u8>>,
    prefix: Seq<char>,
    id1: Identity,
    f1: Seq<char>,
    bytes1: Seq<u8>,
    id2: Identity,
    f2: Seq<char>,
    bytes2: Seq<u8>,
)
    requires
        id1 != id2,
        m.contains_key(id1),
        m.contains_key(id2),
    ensures
        ({
            let m1 = m.insert(id1, m[id1].push(f1));
            let m2 = m1.insert(id2, m1[id2].push(f2));
            &&& m2[id1] == m[id1].push(f1)
            &&& m2[id2] == m[id2].push(f2)
        }),
        path_for(prefix, id1, f1) != path_for(prefix, id2, f2),
        ({
            let d2 = disk.insert(path_for(prefix, id1, f1), bytes1).insert(
                path_for(prefix, id2, f2),
                bytes2,
            );
            &&& d2[path_for(prefix, id1, f1)] == bytes1
            &&& d2[path_for(prefix, id2, f2)] == bytes2
        }),
{
    lemma_paths_disjoint(prefix, id1, f1, id2, f2);
}

} // verus!
