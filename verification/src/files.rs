//! A model of the files under the object root, and what storing and loading
//! mean for them.
//!
//! The library touches no file. The caller writes the bytes of a
//! `StoredObject` at its path and reads a storage location back before it
//! loads; these definitions say what that amounts to.

use crate::error::StoreError;
use crate::object::{
    lemma_load_of_frame, load_result, storage_path, store_result, stores, ObjectKind,
    StoredObjectView, ID_LEN,
};
use vstd::prelude::*;

verus! {

/// The files after `object` has been written at its path, replacing what was
/// there.
pub open spec fn after_store(
    files: Map<Seq<char>, Seq<u8>>,
    object: StoredObjectView,
) -> Map<Seq<char>, Seq<u8>> {
    files.insert(object.path, object.bytes)
}

/// What the storage location of `id` holds: `None` where no file is there.
pub open spec fn stored_at(files: Map<Seq<char>, Seq<u8>>, id: Seq<char>) -> Option<Seq<u8>> {
    if files.dom().contains(storage_path(id)) {
        Some(files[storage_path(id)])
    } else {
        None
    }
}

/// The outcome of loading `id` from `files`.
pub open spec fn load_from(files: Map<Seq<char>, Seq<u8>>, id: Seq<char>) -> Result<
    Seq<u8>,
    StoreError,
> {
    load_result(id, stored_at(files, id))
}

/// Round trip: once an object has been stored, loading its identifier gives
/// back exactly the content that was stored, whatever the files held before.
pub proof fn lemma_store_then_load(
    files: Map<Seq<char>, Seq<u8>>,
    kind: ObjectKind,
    content: Seq<u8>,
    object: StoredObjectView,
)
    requires
        stores(object, kind, content),
    ensures
        load_from(after_store(files, object), object.id) == Ok::<Seq<u8>, StoreError>(content),
{
    lemma_load_of_frame(object.id, kind, content, object.bytes);
}

/// Idempotence: a second store of the same content ends as the first did.
/// Where the first succeeded, so does the second, with the same identifier,
/// and writing its object leaves the files as the first write left them.
pub proof fn lemma_store_twice(
    files: Map<Seq<char>, Seq<u8>>,
    content: Seq<u8>,
    first: Result<StoredObjectView, StoreError>,
    second: Result<StoredObjectView, StoreError>,
)
    requires
        first == store_result(Some(content)),
        second == store_result(Some(content)),
    ensures
        second == first,
        match (first, second) {
            (Ok(a), Ok(b)) => b.id == a.id && after_store(after_store(files, a), b) == after_store(
                files,
                a,
            ),
            _ => first is Err,
        },
{
    if let Ok(a) = first {
        assert(after_store(after_store(files, a), a) =~= after_store(files, a));
    }
}

/// Identifiers of the right length that differ have different storage
/// locations.
pub proof fn lemma_storage_path_injective(a: Seq<char>, b: Seq<char>)
    requires
        a.len() == ID_LEN,
        b.len() == ID_LEN,
        storage_path(a) == storage_path(b),
    ensures
        a == b,
{
    reveal_strlit(".git/objects/");
    reveal_strlit("/");
    let root = ".git/objects/"@.len() as int;
    let path_a = storage_path(a);
    let path_b = storage_path(b);
    assert forall|i: int| 0 <= i < ID_LEN implies a[i] == b[i] by {
        if i < 2 {
            assert(path_a[root + i] == a.subrange(0, 2)[i]);
            assert(path_b[root + i] == b.subrange(0, 2)[i]);
        } else {
            assert(path_a[root + 1 + i] == a.subrange(2, ID_LEN as int)[i - 2]);
            assert(path_b[root + 1 + i] == b.subrange(2, ID_LEN as int)[i - 2]);
        }
    }
    assert(a =~= b);
}

/// Storing an object leaves every other identifier loading as it did before.
pub proof fn lemma_store_keeps_others(
    files: Map<Seq<char>, Seq<u8>>,
    kind: ObjectKind,
    content: Seq<u8>,
    object: StoredObjectView,
    other: Seq<char>,
)
    requires
        stores(object, kind, content),
        other != object.id,
    ensures
        load_from(after_store(files, object), other) == load_from(files, other),
{
    if other.len() == ID_LEN {
        if storage_path(other) == object.path {
            lemma_storage_path_injective(other, object.id);
        }
    }
}

/// An identifier that is not 40 characters long is rejected whatever the files
/// hold.
pub proof fn lemma_invalid_identifier(id: Seq<char>, stored: Option<Seq<u8>>)
    requires
        id.len() != ID_LEN,
    ensures
        load_result(id, stored) == Err::<Seq<u8>, StoreError>(StoreError::InvalidIdentifier),
{
}

/// A well-formed identifier with no file at its storage location is reported
/// as not found.
pub proof fn lemma_absent_object(files: Map<Seq<char>, Seq<u8>>, id: Seq<char>)
    requires
        id.len() == ID_LEN,
        !files.dom().contains(storage_path(id)),
    ensures
        load_from(files, id) == Err::<Seq<u8>, StoreError>(StoreError::ObjectNotFound),
{
}

} // verus!
