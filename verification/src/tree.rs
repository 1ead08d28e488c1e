//! The tree decoder: the packed entries of a tree object.
//!
//! An entry is the mode as text, a space, the name as text, a NUL, and the 20
//! raw bytes of the hash of the object it refers to. Entries follow each other
//! with nothing between them and nothing after the last.

use crate::digest::HASH_LEN;
use crate::error::StoreError;
use crate::hex::{hex_encode, hex_text};
use crate::object::{load_object, load_result, stored_bytes};
use crate::scan::{find_byte, first_index, is_first_index, lemma_first_index, lemma_first_index_is};
use crate::text::{decode_text, lemma_encoding_avoids, utf8_text};
use vstd::prelude::*;
use vstd::slice::slice_subrange;
use vstd::utf8::{encode_utf8, encode_utf8_decode_utf8, encode_utf8_valid_utf8};

verus! {

/// One entry of a tree: a reference to another object under a name.
#[derive(Debug, Clone, PartialEq, Eq)]
pub struct TreeEntry {
    /// The mode token, such as `40000` or `100644`.
    pub mode: String,
    /// The identifier of the object referred to.
    pub sha: String,
    /// The name under which the object is listed.
    pub name: String,
}

/// A `TreeEntry` as plain sequences.
pub struct TreeEntryView {
    pub mode: Seq<char>,
    pub sha: Seq<char>,
    pub name: Seq<char>,
}

impl View for TreeEntry {
    type V = TreeEntryView;

    open spec fn view(&self) -> TreeEntryView {
        TreeEntryView { mode: self.mode@, sha: self.sha@, name: self.name@ }
    }
}

/// The entries of a vector as plain sequences, in order.
pub open spec fn entry_views(entries: Seq<TreeEntry>) -> Seq<TreeEntryView> {
    entries.map_values(|e: TreeEntry| e@)
}

/// An outcome with its entries taken as plain sequences.
pub open spec fn entries_outcome(r: Result<Vec<TreeEntry>, StoreError>) -> Result<
    Seq<TreeEntryView>,
    StoreError,
> {
    match r {
        Ok(entries) => Ok(entry_views(entries@)),
        Err(e) => Err(e),
    }
}

/// The entry that `data` starts with and the number of bytes it takes.
///
/// The mode runs up to the first space, the name from there up to the next
/// NUL, and the hash is the 20 bytes after that NUL. Without the space or the
/// NUL, or with a mode or name that is not UTF-8, the entry is malformed; with
/// fewer than 20 bytes after the NUL it is truncated.
pub open spec fn first_entry(data: Seq<u8>) -> Result<(TreeEntryView, int), StoreError> {
    match first_index(data, 0x20u8) {
        None => Err(StoreError::MalformedEntry),
        Some(space) => match first_index(data.skip(space + 1), 0u8) {
            None => Err(StoreError::MalformedEntry),
            Some(name_len) => {
                let nul = space + 1 + name_len;
                let end = nul + 1 + HASH_LEN;
                match (utf8_text(data.subrange(0, space)), utf8_text(data.subrange(space + 1, nul))) {
                    (Some(mode), Some(name)) => if data.len() < end {
                        Err(StoreError::TruncatedEntry)
                    } else {
                        Ok(
                            (
                                TreeEntryView {
                                    mode,
                                    sha: hex_text(data.subrange(nul + 1, end)),
                                    name,
                                },
                                end,
                            ),
                        )
                    },
                    _ => Err(StoreError::MalformedEntry),
                }
            },
        },
    }
}

/// The outcome of listing the tree `id` when its storage location holds
/// `stored` (`None`: no file there): what loading the object gives, read as
/// packed entries.
pub open spec fn tree_result(id: Seq<char>, stored: Option<Seq<u8>>) -> Result<
    Seq<TreeEntryView>,
    StoreError,
> {
    match load_result(id, stored) {
        Ok(content) => tree_entries(content),
        Err(e) => Err(e),
    }
}

/// `head` followed by the entries of `tail`, or the error of `tail`.
pub open spec fn entries_then(
    head: Seq<TreeEntryView>,
    tail: Result<Seq<TreeEntryView>, StoreError>,
) -> Result<Seq<TreeEntryView>, StoreError> {
    match tail {
        Ok(rest) => Ok(head + rest),
        Err(e) => Err(e),
    }
}

/// The entries packed in `data`, in the order in which they lie there, or the
/// error of the first entry that cannot be read.
pub open spec fn tree_entries(data: Seq<u8>) -> Result<Seq<TreeEntryView>, StoreError>
    decreases data.len(),
    via tree_entries_decreases
{
    if data.len() == 0 {
        Ok(Seq::empty())
    } else {
        match first_entry(data) {
            Ok((entry, taken)) => entries_then(seq![entry], tree_entries(data.skip(taken))),
            Err(e) => Err(e),
        }
    }
}

#[via_fn]
proof fn tree_entries_decreases(data: Seq<u8>) {
    if data.len() != 0 {
        if let Ok((entry, taken)) = first_entry(data) {
            lemma_entry_extent(data);
        }
    }
}

/// An entry takes at least 22 bytes and no more than there are.
pub proof fn lemma_entry_extent(data: Seq<u8>)
    ensures
        first_entry(data) matches Ok((_, taken)) ==> 2 + HASH_LEN <= taken <= data.len(),
{
    lemma_first_index(data, 0x20u8);
    if let Some(space) = first_index(data, 0x20u8) {
        lemma_first_index(data.skip(space + 1), 0u8);
    }
}

/// Reads the entry that starts at `pos`, and says where the next one starts.
pub fn parse_entry(data: &[u8], pos: usize) -> (r: Result<(TreeEntry, usize), StoreError>)
    requires
        pos <= data@.len(),
    ensures
        match r {
            Ok((entry, next)) => first_entry(data@.skip(pos as int)) == Ok::<
                (TreeEntryView, int),
                StoreError,
            >((entry@, next - pos)),
            Err(e) => first_entry(data@.skip(pos as int)) == Err::<
                (TreeEntryView, int),
                StoreError,
            >(e),
        },
        r matches Ok((_, next)) ==> pos < next <= data@.len(),
{
    let len = data.len();
    let ghost tail = data@.skip(pos as int);
    let space = match find_byte(data, pos, 0x20u8) {
        Some(at) => at,
        None => {
            return Err(StoreError::MalformedEntry);
        },
    };
    let name_at = space + 1;
    assert(tail.skip(space - pos + 1) =~= data@.skip(name_at as int));
    let nul = match find_byte(data, name_at, 0u8) {
        Some(at) => at,
        None => {
            return Err(StoreError::MalformedEntry);
        },
    };
    assert(tail.subrange(0, space - pos) =~= data@.subrange(pos as int, space as int));
    assert(tail.subrange(space - pos + 1, nul - pos) =~= data@.subrange(
        name_at as int,
        nul as int,
    ));
    let mode = match decode_text(slice_subrange(data, pos, space)) {
        Some(text) => text,
        None => {
            return Err(StoreError::MalformedEntry);
        },
    };
    let name = match decode_text(slice_subrange(data, name_at, nul)) {
        Some(text) => text,
        None => {
            return Err(StoreError::MalformedEntry);
        },
    };
    let hash_at = nul + 1;
    if len - hash_at < HASH_LEN {
        return Err(StoreError::TruncatedEntry);
    }
    let end = hash_at + HASH_LEN;
    assert(tail.subrange(nul - pos + 1, end - pos) =~= data@.subrange(hash_at as int, end as int));
    let sha = hex_encode(slice_subrange(data, hash_at, end));
    Ok((TreeEntry { mode, sha, name }, end))
}

/// Reads the entries packed in the content of a tree object, in the order in
/// which they lie there.
pub fn parse_tree_entries(content: &[u8]) -> (r: Result<Vec<TreeEntry>, StoreError>)
    ensures
        entries_outcome(r) == tree_entries(content@),
{
    let mut entries: Vec<TreeEntry> = Vec::new();
    let mut pos: usize = 0;
    assert(content@.skip(0) =~= content@);
    assert(entry_views(entries@) =~= Seq::<TreeEntryView>::empty());
    while pos < content.len()
        invariant
            pos <= content@.len(),
            tree_entries(content@) == entries_then(
                entry_views(entries@),
                tree_entries(content@.skip(pos as int)),
            ),
        decreases content@.len() - pos,
    {
        let ghost before = entry_views(entries@);
        let ghost tail = content@.skip(pos as int);
        match parse_entry(content, pos) {
            Ok((entry, next)) => {
                proof {
                    let rest = tree_entries(content@.skip(next as int));
                    assert(tail.skip(next - pos) =~= content@.skip(next as int));
                    assert(tree_entries(tail) == entries_then(seq![entry@], rest));
                    assert(entry_views(entries@.push(entry)) =~= before.push(entry@));
                    if let Ok(more) = rest {
                        assert(before + (seq![entry@] + more) =~= before.push(entry@) + more);
                    }
                }
                entries.push(entry);
                pos = next;
            },
            Err(e) => {
                return Err(e);
            },
        }
    }
    assert(entry_views(entries@) + Seq::<TreeEntryView>::empty() =~= entry_views(entries@));
    Ok(entries)
}

/// Reads the entries of the tree object `id`, given what its storage location
/// holds: `None` where no file is there.
pub fn parse_tree(id: &str, stored: Option<&[u8]>) -> (r: Result<Vec<TreeEntry>, StoreError>)
    ensures
        entries_outcome(r) == tree_result(id@, stored_bytes(stored)),
{
    match load_object(id, stored) {
        Ok(content) => parse_tree_entries(content.as_slice()),
        Err(e) => Err(e),
    }
}

/// The bytes of one entry: the mode, a space, the name, a NUL, the hash.
pub open spec fn packed_entry(mode: Seq<u8>, name: Seq<u8>, hash: Seq<u8>) -> Seq<u8> {
    mode + seq![0x20u8] + name + seq![0u8] + hash
}

/// Whether `mode` and `name` can be told apart again once packed: both are
/// UTF-8, the mode holds no space and the name no NUL.
pub open spec fn packable(mode: Seq<u8>, name: Seq<u8>) -> bool {
    &&& utf8_text(mode) is Some
    &&& utf8_text(name) is Some
    &&& forall|i: int| 0 <= i < mode.len() ==> mode[i] != 0x20
    &&& forall|i: int| 0 <= i < name.len() ==> name[i] != 0
}

/// The entry that the decoder reads out of `packed_entry(mode, name, hash)`.
pub open spec fn unpacked_entry(mode: Seq<u8>, name: Seq<u8>, hash: Seq<u8>) -> TreeEntryView {
    TreeEntryView { mode: utf8_text(mode)->0, sha: hex_text(hash), name: utf8_text(name)->0 }
}

/// Where the delimiters of a packed entry lie, whatever follows it.
proof fn lemma_packed_delimiters(mode: Seq<u8>, name: Seq<u8>, hash: Seq<u8>, rest: Seq<u8>)
    requires
        packable(mode, name),
    ensures
        ({
            let data = packed_entry(mode, name, hash) + rest;
            let space = mode.len() as int;
            let nul = space + 1 + name.len();
            &&& first_index(data, 0x20u8) == Some(space)
            &&& first_index(data.skip(space + 1), 0u8) == Some(name.len() as int)
            &&& data.subrange(0, space) == mode
            &&& data.subrange(space + 1, nul) == name
            &&& data.len() == nul + 1 + hash.len() + rest.len()
            &&& data.skip(nul + 1) == hash + rest
        }),
{
    let data = packed_entry(mode, name, hash) + rest;
    let space = mode.len() as int;
    let nul = space + 1 + name.len();
    assert forall|j: int| 0 <= j < space implies data[j] != 0x20 by {
        assert(data[j] == mode[j]);
    }
    assert(data[space] == 0x20);
    assert(is_first_index(data, 0x20u8, space));
    lemma_first_index_is(data, 0x20u8, space);
    let after = data.skip(space + 1);
    assert forall|j: int| 0 <= j < name.len() implies after[j] != 0 by {
        assert(after[j] == name[j]);
    }
    assert(after[name.len() as int] == 0);
    assert(is_first_index(after, 0u8, name.len() as int));
    lemma_first_index_is(after, 0u8, name.len() as int);
    assert(data.subrange(0, space) =~= mode);
    assert(data.subrange(space + 1, nul) =~= name);
    assert(data.skip(nul + 1) =~= hash + rest);
}

/// A packed entry with its full hash is read back as it was packed, whatever
/// follows it.
pub proof fn lemma_first_packed_entry(mode: Seq<u8>, name: Seq<u8>, hash: Seq<u8>, rest: Seq<u8>)
    requires
        packable(mode, name),
        hash.len() == HASH_LEN,
    ensures
        first_entry(packed_entry(mode, name, hash) + rest) == Ok::<
            (TreeEntryView, int),
            StoreError,
        >((unpacked_entry(mode, name, hash), packed_entry(mode, name, hash).len() as int)),
{
    lemma_packed_delimiters(mode, name, hash, rest);
    let data = packed_entry(mode, name, hash) + rest;
    let nul = (mode.len() + 1 + name.len()) as int;
    assert(data.subrange(nul + 1, nul + 1 + HASH_LEN) =~= hash);
}

/// Entries are read one after the other: where `front` holds whole entries,
/// the entries of `front + back` are those of `front`, then those of `back`.
pub proof fn lemma_entries_of_concat(front: Seq<u8>, back: Seq<u8>)
    requires
        tree_entries(front) is Ok,
    ensures
        tree_entries(front + back) == entries_then(tree_entries(front)->Ok_0, tree_entries(back)),
    decreases front.len(),
{
    if front.len() == 0 {
        assert(front + back =~= back);
        if let Ok(rest) = tree_entries(back) {
            assert(Seq::<TreeEntryView>::empty() + rest =~= rest);
        }
    } else {
        let data = front + back;
        let (entry, taken) = first_entry(front)->Ok_0;
        lemma_entry_extent(front);
        lemma_first_index(front, 0x20u8);
        let space = first_index(front, 0x20u8)->0;
        assert(is_first_index(data, 0x20u8, space));
        lemma_first_index_is(data, 0x20u8, space);
        let after = front.skip(space + 1);
        lemma_first_index(after, 0u8);
        let name_len = first_index(after, 0u8)->0;
        assert(data.skip(space + 1) =~= after + back);
        assert(is_first_index(data.skip(space + 1), 0u8, name_len));
        lemma_first_index_is(data.skip(space + 1), 0u8, name_len);
        let nul = space + 1 + name_len;
        assert(data.subrange(0, space) =~= front.subrange(0, space));
        assert(data.subrange(space + 1, nul) =~= front.subrange(space + 1, nul));
        assert(data.subrange(nul + 1, taken) =~= front.subrange(nul + 1, taken));
        assert(first_entry(data) == first_entry(front));
        assert(data.skip(taken) =~= front.skip(taken) + back);
        lemma_entries_of_concat(front.skip(taken), back);
        let middle = tree_entries(front.skip(taken))->Ok_0;
        if let Ok(rest) = tree_entries(back) {
            assert(seq![entry] + (middle + rest) =~= (seq![entry] + middle) + rest);
        }
    }
}

/// A buffer that holds exactly one packed entry decodes to that entry.
pub proof fn lemma_single_entry(mode: Seq<u8>, name: Seq<u8>, hash: Seq<u8>)
    requires
        packable(mode, name),
        hash.len() == HASH_LEN,
    ensures
        tree_entries(packed_entry(mode, name, hash)) == Ok::<Seq<TreeEntryView>, StoreError>(
            seq![unpacked_entry(mode, name, hash)],
        ),
{
    let data = packed_entry(mode, name, hash);
    let none = Seq::<u8>::empty();
    lemma_first_packed_entry(mode, name, hash, none);
    assert(data + none =~= data);
    assert(data.skip(data.len() as int) =~= none);
    assert(tree_entries(none) == Ok::<Seq<TreeEntryView>, StoreError>(Seq::empty()));
    assert(seq![unpacked_entry(mode, name, hash)] + Seq::<TreeEntryView>::empty() =~= seq![
        unpacked_entry(mode, name, hash),
    ]);
}

/// A buffer that ends within the hash of an entry, after any number of whole
/// entries, is rejected as truncated.
pub proof fn lemma_truncated_hash(whole: Seq<u8>, mode: Seq<u8>, name: Seq<u8>, partial: Seq<u8>)
    requires
        tree_entries(whole) is Ok,
        packable(mode, name),
        partial.len() < HASH_LEN,
    ensures
        tree_entries(whole + packed_entry(mode, name, partial)) == Err::<
            Seq<TreeEntryView>,
            StoreError,
        >(StoreError::TruncatedEntry),
{
    let last = packed_entry(mode, name, partial);
    let none = Seq::<u8>::empty();
    lemma_packed_delimiters(mode, name, partial, none);
    assert(last + none =~= last);
    assert(first_entry(last) == Err::<(TreeEntryView, int), StoreError>(
        StoreError::TruncatedEntry,
    ));
    lemma_entries_of_concat(whole, last);
}

/// What a tree records of one object: its mode and name as text and its raw
/// hash.
pub struct EntryFields {
    pub mode: Seq<char>,
    pub name: Seq<char>,
    pub hash: Seq<u8>,
}

impl EntryFields {
    /// Whether the fields can be packed and told apart again: no space in the
    /// mode, no NUL in the name, and a hash of 20 bytes.
    pub open spec fn well_formed(self) -> bool {
        &&& forall|i: int| 0 <= i < self.mode.len() ==> self.mode[i] != ' '
        &&& forall|i: int| 0 <= i < self.name.len() ==> self.name[i] != '\0'
        &&& self.hash.len() == HASH_LEN
    }

    /// The bytes of the entry, with mode and name in UTF-8.
    pub open spec fn packed(self) -> Seq<u8> {
        packed_entry(encode_utf8(self.mode), encode_utf8(self.name), self.hash)
    }

    /// The entry as the decoder presents it.
    pub open spec fn listed(self) -> TreeEntryView {
        TreeEntryView { mode: self.mode, sha: hex_text(self.hash), name: self.name }
    }
}

/// The content of a tree that records `entries`, in order.
pub open spec fn packed_tree(entries: Seq<EntryFields>) -> Seq<u8>
    decreases entries.len(),
{
    if entries.len() == 0 {
        Seq::empty()
    } else {
        entries[0].packed() + packed_tree(entries.drop_first())
    }
}

/// Round trip of the tree format: the content packed from well-formed entries
/// decodes to those entries, in the same order, each with its hash in
/// hexadecimal.
pub proof fn lemma_packed_tree_decodes(entries: Seq<EntryFields>)
    requires
        forall|i: int| 0 <= i < entries.len() ==> (#[trigger] entries[i]).well_formed(),
    ensures
        tree_entries(packed_tree(entries)) == Ok::<Seq<TreeEntryView>, StoreError>(
            entries.map_values(|f: EntryFields| f.listed()),
        ),
    decreases entries.len(),
{
    let listed = entries.map_values(|f: EntryFields| f.listed());
    if entries.len() == 0 {
        assert(listed =~= Seq::<TreeEntryView>::empty());
    } else {
        let first = entries[0];
        let rest = entries.drop_first();
        let mode = encode_utf8(first.mode);
        let name = encode_utf8(first.name);
        assert(first.well_formed());
        assert(' ' == 0x20u8 as char && '\0' == 0u8 as char);
        lemma_encoding_avoids(first.mode, 0x20u8);
        lemma_encoding_avoids(first.name, 0u8);
        encode_utf8_valid_utf8(first.mode);
        encode_utf8_valid_utf8(first.name);
        encode_utf8_decode_utf8(first.mode);
        encode_utf8_decode_utf8(first.name);
        assert(packable(mode, name));
        assert(unpacked_entry(mode, name, first.hash) == first.listed());
        let tail = packed_tree(rest);
        lemma_first_packed_entry(mode, name, first.hash, tail);
        assert forall|i: int| 0 <= i < rest.len() implies (#[trigger] rest[i]).well_formed() by {
            assert(rest[i] == entries[i + 1]);
        }
        lemma_packed_tree_decodes(rest);
        let data = packed_tree(entries);
        assert(data == first.packed() + tail);
        assert(data.skip(first.packed().len() as int) =~= tail);
        assert(listed =~= seq![first.listed()] + rest.map_values(|f: EntryFields| f.listed()));
    }
}

} // verus!
