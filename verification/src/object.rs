//! The object codec: framing, identifiers, storage locations, and the stored
//! form of an object.

use crate::decimal::{decimal_digits, lemma_decimal_digits, push_decimal};
use crate::digest::{sha1_digest, sha1_of, HASH_LEN};
use crate::error::StoreError;
use crate::hex::{hex_encode, hex_text, is_lower_hex, lemma_hex_text_shape};
use crate::scan::{find_byte, first_index, is_first_index, lemma_first_index_is};
use crate::zlib::{zlib_compress, zlib_decompress, zlib_deflated, zlib_inflated};
use vstd::prelude::*;
use vstd::slice::{slice_subrange, slice_to_vec};

verus! {

/// The number of characters in an object identifier.
pub const ID_LEN: usize = 40;

/// The kinds of object that the store frames.
#[derive(Debug, Clone, Copy, PartialEq, Eq, Structural)]
pub enum ObjectKind {
    /// The bytes of a file.
    Blob,
    /// A directory listing.
    Tree,
}

impl ObjectKind {
    /// The type label that opens the object's header: ASCII `blob` or `tree`.
    pub open spec fn label(self) -> Seq<u8> {
        match self {
            ObjectKind::Blob => seq![0x62u8, 0x6c, 0x6f, 0x62],
            ObjectKind::Tree => seq![0x74u8, 0x72, 0x65, 0x65],
        }
    }
}

/// An object ready to be written: where it goes and the bytes that go there.
#[derive(Debug, Clone, PartialEq, Eq)]
pub struct StoredObject {
    /// The object's identifier.
    pub id: String,
    /// The directory to create if it is absent.
    pub dir: String,
    /// The file to write, replacing what is there.
    pub path: String,
    /// The file's content: the compressed frame.
    pub bytes: Vec<u8>,
}

/// A `StoredObject` as plain sequences.
pub struct StoredObjectView {
    pub id: Seq<char>,
    pub dir: Seq<char>,
    pub path: Seq<char>,
    pub bytes: Seq<u8>,
}

impl View for StoredObject {
    type V = StoredObjectView;

    open spec fn view(&self) -> StoredObjectView {
        StoredObjectView { id: self.id@, dir: self.dir@, path: self.path@, bytes: self.bytes@ }
    }
}

/// The header of an object of `kind` with `len` content bytes: the label, a
/// space, `len` in decimal, and a NUL.
pub open spec fn object_header(kind: ObjectKind, len: nat) -> Seq<u8> {
    kind.label() + seq![0x20u8] + decimal_digits(len) + seq![0u8]
}

/// The framed form of an object: its header, then its content.
pub open spec fn framed_object(kind: ObjectKind, content: Seq<u8>) -> Seq<u8> {
    object_header(kind, content.len()) + content
}

/// The identifier of the object with the given framed form: the SHA-1 digest
/// of the whole frame, in lowercase hexadecimal.
pub open spec fn object_id(framed: Seq<u8>) -> Seq<char> {
    hex_text(sha1_digest(framed))
}

/// The directory that holds the objects whose identifiers start like `id`.
pub open spec fn storage_dir(id: Seq<char>) -> Seq<char> {
    ".git/objects/"@ + id.subrange(0, 2)
}

/// The file that holds the object `id`: named by all but the first two
/// characters of `id`, in the directory named by those two.
pub open spec fn storage_path(id: Seq<char>) -> Seq<char> {
    storage_dir(id) + "/"@ + id.subrange(2, id.len() as int)
}

/// What follows the first NUL of a decompressed object, or `MalformedHeader`
/// where it holds no NUL.
pub open spec fn content_of(data: Seq<u8>) -> Result<Seq<u8>, StoreError> {
    match first_index(data, 0u8) {
        Some(i) => Ok(data.skip(i + 1)),
        None => Err(StoreError::MalformedHeader),
    }
}

/// The content of the object stored as `stored`: `CorruptObject` where the
/// bytes do not decompress, else what `content_of` finds in them.
pub open spec fn decoded_object(stored: Seq<u8>) -> Result<Seq<u8>, StoreError> {
    match zlib_inflated(stored) {
        Some(data) => content_of(data),
        None => Err(StoreError::CorruptObject),
    }
}

/// The outcome of loading `id` when its storage location holds `stored`
/// (`None`: no file there).
pub open spec fn load_result(id: Seq<char>, stored: Option<Seq<u8>>) -> Result<
    Seq<u8>,
    StoreError,
> {
    if id.len() != ID_LEN {
        Err(StoreError::InvalidIdentifier)
    } else {
        match stored {
            None => Err(StoreError::ObjectNotFound),
            Some(bytes) => decoded_object(bytes),
        }
    }
}

/// The object `id` with stored form `stream`, at the storage location of `id`.
pub open spec fn object_at(id: Seq<char>, stream: Seq<u8>) -> StoredObjectView {
    StoredObjectView { id, dir: storage_dir(id), path: storage_path(id), bytes: stream }
}

/// The stored form of `content` as an object of `kind`: the frame's
/// identifier and location with the compressed frame, or `CompressionFailed`
/// where the compressor gives none.
pub open spec fn stored_form(kind: ObjectKind, content: Seq<u8>) -> Result<
    StoredObjectView,
    StoreError,
> {
    let framed = framed_object(kind, content);
    match zlib_deflated(framed) {
        Some(stream) => Ok(object_at(object_id(framed), stream)),
        None => Err(StoreError::CompressionFailed),
    }
}

/// The outcome of storing a file as a blob, given what was read of it
/// (`None`: the file could not be read).
pub open spec fn store_result(source: Option<Seq<u8>>) -> Result<StoredObjectView, StoreError> {
    match source {
        Some(content) => stored_form(ObjectKind::Blob, content),
        None => Err(StoreError::ReadError),
    }
}

/// An outcome with its object taken as plain sequences.
pub open spec fn stored_outcome(r: Result<StoredObject, StoreError>) -> Result<
    StoredObjectView,
    StoreError,
> {
    match r {
        Ok(object) => Ok(object@),
        Err(e) => Err(e),
    }
}

/// Whether `id` has the shape of an object identifier: 40 lowercase
/// hexadecimal digits.
pub open spec fn is_object_id(id: Seq<char>) -> bool {
    &&& id.len() == ID_LEN
    &&& forall|i: int| 0 <= i < id.len() ==> is_lower_hex(#[trigger] id[i])
}

/// Whether `object` is what storing `content` as an object of `kind` gives:
/// it is the stored form, it carries a well-shaped identifier, and its bytes
/// decompress to the frame of `content`.
pub open spec fn stores(object: StoredObjectView, kind: ObjectKind, content: Seq<u8>) -> bool {
    &&& stored_form(kind, content) == Ok::<StoredObjectView, StoreError>(object)
    &&& is_object_id(object.id)
    &&& zlib_inflated(object.bytes) == Some(framed_object(kind, content))
}

/// An outcome with its bytes taken as a sequence.
pub open spec fn bytes_outcome(r: Result<Vec<u8>, StoreError>) -> Result<Seq<u8>, StoreError> {
    match r {
        Ok(bytes) => Ok(bytes@),
        Err(e) => Err(e),
    }
}

/// What the caller read, as a sequence: `None` where there was nothing to
/// read.
pub open spec fn stored_bytes(stored: Option<&[u8]>) -> Option<Seq<u8>> {
    match stored {
        Some(bytes) => Some(bytes@),
        None => None,
    }
}

/// Frames `content` as an object of `kind`.
pub fn frame_object(kind: ObjectKind, content: &[u8]) -> (framed: Vec<u8>)
    ensures
        framed@ == framed_object(kind, content@),
{
    let mut framed: Vec<u8> = Vec::new();
    match kind {
        ObjectKind::Blob => {
            framed.push(0x62);
            framed.push(0x6c);
            framed.push(0x6f);
            framed.push(0x62);
        },
        ObjectKind::Tree => {
            framed.push(0x74);
            framed.push(0x72);
            framed.push(0x65);
            framed.push(0x65);
        },
    }
    assert(framed@ =~= kind.label());
    framed.push(0x20);
    push_decimal(&mut framed, content.len());
    framed.push(0);
    assert(framed@ =~= object_header(kind, content@.len()));
    framed.extend_from_slice(content);
    assert(framed@ =~= framed_object(kind, content@));
    framed
}

/// The storage location of the object `hash`: the path of its file.
pub fn construct_path(hash: &str) -> (path: String)
    requires
        hash@.len() == ID_LEN,
    ensures
        path@ == storage_path(hash@),
{
    let mut path = object_dir(hash);
    path.append("/");
    path.append(hash.substring_char(2, ID_LEN));
    path
}

/// The directory of the storage location of the object `hash`.
pub fn object_dir(hash: &str) -> (dir: String)
    requires
        hash@.len() == ID_LEN,
    ensures
        dir@ == storage_dir(hash@),
{
    let mut dir = String::from_str(".git/objects/");
    dir.append(hash.substring_char(0, 2));
    dir
}

/// Checks the length of `id` and gives the path of its storage location.
pub fn locate_object(id: &str) -> (r: Result<String, StoreError>)
    ensures
        match r {
            Ok(path) => id@.len() == ID_LEN && path@ == storage_path(id@),
            Err(e) => id@.len() != ID_LEN && e == StoreError::InvalidIdentifier,
        },
{
    if id.unicode_len() != ID_LEN {
        return Err(StoreError::InvalidIdentifier);
    }
    Ok(construct_path(id))
}

/// Skips the header of a decompressed object: returns every byte after its
/// first NUL.
pub fn object_content(data: &[u8]) -> (r: Result<Vec<u8>, StoreError>)
    ensures
        bytes_outcome(r) == content_of(data@),
{
    assert(data@.skip(0) =~= data@);
    let len = data.len();
    match find_byte(data, 0, 0u8) {
        Some(nul) => {
            let content = slice_subrange(data, nul + 1, len);
            Ok(slice_to_vec(content))
        },
        None => Err(StoreError::MalformedHeader),
    }
}

/// Decompresses a stored object and skips its header.
pub fn decompress_blob(stored: &[u8]) -> (r: Result<Vec<u8>, StoreError>)
    ensures
        bytes_outcome(r) == decoded_object(stored@),
{
    match zlib_decompress(stored) {
        Ok(data) => object_content(data.as_slice()),
        Err(_) => Err(StoreError::CorruptObject),
    }
}

/// Loads the content of the object `id`, given what its storage location
/// holds: `None` where no file is there.
pub fn load_object(id: &str, stored: Option<&[u8]>) -> (r: Result<Vec<u8>, StoreError>)
    ensures
        bytes_outcome(r) == load_result(id@, stored_bytes(stored)),
{
    if id.unicode_len() != ID_LEN {
        return Err(StoreError::InvalidIdentifier);
    }
    match stored {
        None => Err(StoreError::ObjectNotFound),
        Some(bytes) => decompress_blob(bytes),
    }
}

/// Skipping the header of a frame gives back the content that was framed.
pub proof fn lemma_content_of_framed(kind: ObjectKind, content: Seq<u8>)
    ensures
        content_of(framed_object(kind, content)) == Ok::<Seq<u8>, StoreError>(content),
{
    let digits = decimal_digits(content.len());
    let header = object_header(kind, content.len());
    let framed = framed_object(kind, content);
    let nul = header.len() - 1;
    lemma_decimal_digits(content.len());
    assert(kind.label().len() == 4);
    assert(header[nul] == 0);
    assert forall|j: int| 0 <= j < nul implies framed[j] != 0 by {
        if j < 4 {
            assert(framed[j] == kind.label()[j]);
        } else if j == 4 {
            assert(framed[j] == 0x20);
        } else {
            assert(framed[j] == digits[j - 5]);
        }
    }
    assert(is_first_index(framed, 0u8, nul));
    lemma_first_index_is(framed, 0u8, nul);
    assert(framed.skip(nul + 1) =~= content);
}

/// The digest of a frame renders as an object identifier.
pub proof fn lemma_object_id_shape(digest: Seq<u8>)
    requires
        digest.len() == HASH_LEN,
    ensures
        is_object_id(hex_text(digest)),
{
    lemma_hex_text_shape(digest);
}

/// A stream that decompresses to the frame of `content` loads as `content`
/// under any identifier of the right length.
pub proof fn lemma_load_of_frame(
    id: Seq<char>,
    kind: ObjectKind,
    content: Seq<u8>,
    stream: Seq<u8>,
)
    requires
        id.len() == ID_LEN,
        zlib_inflated(stream) == Some(framed_object(kind, content)),
    ensures
        load_result(id, Some(stream)) == Ok::<Seq<u8>, StoreError>(content),
{
    lemma_content_of_framed(kind, content);
}

/// Completes an object from the digest of its frame and the outcome of
/// compressing the frame.
pub fn seal_object(digest: &[u8], compressed: Result<Vec<u8>, std::io::Error>) -> (r: Result<
    StoredObject,
    StoreError,
>)
    requires
        digest@.len() == HASH_LEN,
    ensures
        stored_outcome(r) == match compressed {
            Ok(stream) => Ok::<StoredObjectView, StoreError>(
                object_at(hex_text(digest@), stream@),
            ),
            Err(_) => Err(StoreError::CompressionFailed),
        },
{
    match compressed {
        Ok(bytes) => {
            let id = hex_encode(digest);
            let dir = object_dir(id.as_str());
            let path = construct_path(id.as_str());
            Ok(StoredObject { id, dir, path, bytes })
        },
        Err(_) => Err(StoreError::CompressionFailed),
    }
}

/// Encodes `content` as an object of `kind`: frames it, names it by the digest
/// of the frame, and compresses the frame.
pub fn store_object(kind: ObjectKind, content: &[u8]) -> (r: Result<StoredObject, StoreError>)
    ensures
        stored_outcome(r) == stored_form(kind, content@),
        match r {
            Ok(object) => {
                &&& stores(object@, kind, content@)
                &&& load_result(object.id@, Some(object.bytes@)) == Ok::<Seq<u8>, StoreError>(
                    content@,
                )
            },
            Err(_) => true,
        },
{
    let framed = frame_object(kind, content);
    let digest = sha1_of(framed.as_slice());
    let compressed = zlib_compress(framed.as_slice());
    proof {
        lemma_object_id_shape(digest@);
        if let Ok(stream) = &compressed {
            lemma_load_of_frame(hex_text(digest@), kind, content@, stream@);
        }
    }
    seal_object(digest.as_slice(), compressed)
}

/// Stores a file as a blob, given what was read of it: `None` where the file
/// could not be read.
pub fn store_blob(source: Option<&[u8]>) -> (r: Result<StoredObject, StoreError>)
    ensures
        stored_outcome(r) == store_result(stored_bytes(source)),
        match (source, r) {
            (Some(content), Ok(object)) => {
                &&& stores(object@, ObjectKind::Blob, content@)
                &&& object.id@ == hex_text(
                    sha1_digest(framed_object(ObjectKind::Blob, content@)),
                )
                &&& load_result(object.id@, Some(object.bytes@)) == Ok::<Seq<u8>, StoreError>(
                    content@,
                )
            },
            _ => true,
        },
{
    match source {
        Some(content) => store_object(ObjectKind::Blob, content),
        None => Err(StoreError::ReadError),
    }
}

} // verus!
