//! The delta and signature formats, as functions of the chunks read.
use crate::hashing::digest_of;
use vstd::prelude::*;

verus! {

/// Tag of a chunk equal to the old file's chunk at the same place.
pub const TAG_SAME_HASH: u8 = 0;

/// Tag of a chunk whose bytes follow, matched to no old chunk.
pub const TAG_DIFFERENT_HASH: u8 = 1;

/// Tag of a chunk added before the old file's next chunk; its bytes follow.
pub const TAG_INSERTED_CHUNK: u8 = 2;

/// Tag of an old chunk that the new file no longer holds.
pub const TAG_REMOVED_CHUNK: u8 = 3;

/// The element after the first one, or empty where there is none.
pub open spec fn second(s: Seq<Seq<u8>>) -> Seq<u8> {
    if s.len() > 1 {
        s[1]
    } else {
        Seq::<u8>::empty()
    }
}

/// `s` without its first two elements.
pub open spec fn drop_two(s: Seq<Seq<u8>>) -> Seq<Seq<u8>> {
    if s.len() > 1 {
        s.skip(2)
    } else {
        Seq::<Seq<u8>>::empty()
    }
}

/// The delta of the new file's chunks `new` against the old file's digests
/// `sig`: a record for each step of the comparison, with a one-chunk lookahead
/// on a mismatch to tell an inserted or a removed chunk from a changed one.
pub open spec fn delta_of(new: Seq<Seq<u8>>, sig: Seq<Seq<u8>>) -> Seq<u8>
    decreases new.len(),
{
    if new.len() == 0 {
        Seq::<u8>::empty()
    } else if sig.len() == 0 {
        seq![TAG_DIFFERENT_HASH] + new[0] + delta_of(new.drop_first(), sig)
    } else if digest_of(new[0]) == sig[0] {
        seq![TAG_SAME_HASH] + delta_of(new.drop_first(), sig.drop_first())
    } else if sig[0] == digest_of(second(new)) {
        seq![TAG_INSERTED_CHUNK] + new[0] + seq![TAG_SAME_HASH] + delta_of(
            drop_two(new),
            sig.drop_first(),
        )
    } else if second(sig) == digest_of(new[0]) {
        seq![TAG_REMOVED_CHUNK, TAG_SAME_HASH] + delta_of(new.drop_first(), drop_two(sig))
    } else {
        seq![TAG_DIFFERENT_HASH] + new[0] + delta_of(new.drop_first(), sig.drop_first())
    }
}

/// The signature of a file whose chunks are `chunks`: their digests, concatenated.
pub open spec fn signature_of(chunks: Seq<Seq<u8>>) -> Seq<u8>
    decreases chunks.len(),
{
    if chunks.len() == 0 {
        Seq::<u8>::empty()
    } else {
        digest_of(chunks[0]) + signature_of(chunks.drop_first())
    }
}

} // verus!
