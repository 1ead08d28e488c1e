//! Searching a byte string for a delimiter.

use vstd::prelude::*;

verus! {

/// The least index at which `data` holds `byte`, if it holds it at all.
pub open spec fn first_index(data: Seq<u8>, byte: u8) -> Option<int>
    decreases data.len(),
{
    if data.len() == 0 {
        None
    } else if data[0] == byte {
        Some(0)
    } else {
        match first_index(data.drop_first(), byte) {
            Some(i) => Some(i + 1),
            None => None,
        }
    }
}

/// Whether `i` is the least index at which `data` holds `byte`.
pub open spec fn is_first_index(data: Seq<u8>, byte: u8, i: int) -> bool {
    &&& 0 <= i < data.len()
    &&& data[i] == byte
    &&& forall|j: int| 0 <= j < i ==> data[j] != byte
}

/// `first_index` finds the least index of `byte`, and finds nothing only where
/// `byte` does not occur.
pub proof fn lemma_first_index(data: Seq<u8>, byte: u8)
    ensures
        match first_index(data, byte) {
            Some(i) => is_first_index(data, byte, i),
            None => forall|j: int| 0 <= j < data.len() ==> data[j] != byte,
        },
    decreases data.len(),
{
    if data.len() > 0 && data[0] != byte {
        let rest = data.drop_first();
        lemma_first_index(rest, byte);
        match first_index(rest, byte) {
            Some(i) => {
                assert forall|j: int| 0 <= j < i + 1 implies data[j] != byte by {
                    if j > 0 {
                        assert(data[j] == rest[j - 1]);
                    }
                }
            },
            None => {
                assert forall|j: int| 0 <= j < data.len() implies data[j] != byte by {
                    if j > 0 {
                        assert(data[j] == rest[j - 1]);
                    }
                }
            },
        }
    }
}

/// The least index of `byte` is the one that `first_index` finds.
pub proof fn lemma_first_index_is(data: Seq<u8>, byte: u8, i: int)
    requires
        is_first_index(data, byte, i),
    ensures
        first_index(data, byte) == Some(i),
{
    lemma_first_index(data, byte);
}

/// Where `byte` does not occur, `first_index` finds nothing.
pub proof fn lemma_first_index_none(data: Seq<u8>, byte: u8)
    requires
        forall|j: int| 0 <= j < data.len() ==> data[j] != byte,
    ensures
        first_index(data, byte) is None,
{
    lemma_first_index(data, byte);
}

/// Finds the first occurrence of `byte` in `data` at or after `from`.
pub fn find_byte(data: &[u8], from: usize, byte: u8) -> (found: Option<usize>)
    requires
        from <= data@.len(),
    ensures
        match found {
            Some(at) => first_index(data@.skip(from as int), byte) == Some(at - from),
            None => first_index(data@.skip(from as int), byte) is None,
        },
        found matches Some(at) ==> from <= at < data@.len() && data@[at as int] == byte,
{
    let ghost tail = data@.skip(from as int);
    let mut at: usize = from;
    while at < data.len()
        invariant
            from <= at <= data@.len(),
            tail == data@.skip(from as int),
            forall|j: int| 0 <= j < at - from ==> tail[j] != byte,
        decreases data@.len() - at,
    {
        if data[at] == byte {
            proof {
                lemma_first_index_is(tail, byte, at - from);
            }
            return Some(at);
        }
        at += 1;
    }
    proof {
        lemma_first_index_none(tail, byte);
    }
    None
}

} // verus!
