//! Chunked streams: the framing of a byte sequence into chunks, and the
//! read and write capabilities that the processor drives.
use vstd::prelude::*;

verus! {

/// The chunks of `data` for a chunk size of `size`: consecutive pieces of
/// `size` bytes, the last one possibly shorter. A size of zero frames no chunk.
pub open spec fn chunks_of(data: Seq<u8>, size: nat) -> Seq<Seq<u8>>
    decreases data.len(),
{
    if size == 0 || data.len() == 0 {
        seq![]
    } else if data.len() <= size {
        seq![data]
    } else {
        seq![data.take(size as int)] + chunks_of(data.skip(size as int), size)
    }
}

/// The chunks that remain to be read after `last` is handed back to a stream
/// whose remaining chunks are `upcoming`. An empty `last` hands back nothing.
pub open spec fn rewound(last: Seq<u8>, upcoming: Seq<Seq<u8>>) -> Seq<Seq<u8>> {
    if last.len() == 0 {
        upcoming
    } else {
        seq![last] + upcoming
    }
}

/// A sequential source of chunks that can step back over its latest read.
pub trait ProcessorDataInput {
    /// The chunks that the following reads return, in order.
    spec fn upcoming(&self) -> Seq<Seq<u8>>;

    /// The chunk that the latest read returned, or empty where there is nothing
    /// to step back over.
    spec fn last_read(&self) -> Seq<u8>;

    /// Whether every step back succeeds.
    spec fn rewinds_reliably(&self) -> bool;

    /// The source's internal invariant.
    spec fn well_formed(&self) -> bool;

    /// Returns the next chunk, or an empty chunk once the stream is exhausted.
    fn get_next_data(&mut self) -> (r: Vec<u8>)
        requires
            old(self).well_formed(),
        ensures
            final(self).well_formed(),
            final(self).rewinds_reliably() == old(self).rewinds_reliably(),
            final(self).last_read() == r@,
            r@.len() == 0 <==> old(self).upcoming().len() == 0,
            old(self).upcoming().len() == 0 ==> final(self).upcoming() == old(self).upcoming(),
            old(self).upcoming().len() > 0 ==> r@ == old(self).upcoming()[0]
                && final(self).upcoming() == old(self).upcoming().drop_first(),
    ;

    /// Steps back over the latest read, so that the next read returns that chunk
    /// again. Returns false where the stream cannot be repositioned.
    fn move_back_last_read(&mut self) -> (r: bool)
        requires
            old(self).well_formed(),
        ensures
            final(self).rewinds_reliably() == old(self).rewinds_reliably(),
            old(self).rewinds_reliably() ==> r,
            r ==> final(self).well_formed() && final(self).last_read().len() == 0
                && final(self).upcoming() == rewound(old(self).last_read(), old(self).upcoming()),
    ;
}

/// A sequential consumer of bytes.
pub trait ProcessorDataOutput {
    /// The bytes accepted so far.
    spec fn written(&self) -> Seq<u8>;

    /// Whether every write succeeds.
    spec fn writes_reliably(&self) -> bool;

    /// Appends `data`. Returns false where the bytes could not be accepted.
    fn write_data(&mut self, data: &[u8]) -> (r: bool)
        ensures
            final(self).writes_reliably() == old(self).writes_reliably(),
            old(self).writes_reliably() ==> r,
            r ==> final(self).written() == old(self).written() + data@,
    ;
}

} // verus!
