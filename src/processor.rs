//! The signature and delta engines.
use crate::delta::{
    delta_of, drop_two, second, signature_of, TAG_DIFFERENT_HASH, TAG_INSERTED_CHUNK,
    TAG_REMOVED_CHUNK, TAG_SAME_HASH,
};
use crate::hashing::{bytes_equal, calculate_chunk_hash};
use crate::stream::{ProcessorDataInput, ProcessorDataOutput};
use vstd::prelude::*;

verus! {

/// Default chunk size in bytes.
pub const CHUNK_SIZE: usize = 1024;

/// The two ways in which processing fails.
pub enum ProcessorError {
    /// The sink did not accept a write.
    FileWrite,
    /// A stream could not step back over its latest read.
    FileSeek,
}

impl ProcessorError {
    /// A description of the error.
    pub fn to_string(&self) -> (r: String)
        ensures
            self matches ProcessorError::FileWrite ==> r@ == "File write error"@,
            self matches ProcessorError::FileSeek ==> r@ == "Unable to change position in a file"@,
    {
        match self {
            ProcessorError::FileWrite => "File write error".to_string(),
            ProcessorError::FileSeek => "Unable to change position in a file".to_string(),
        }
    }
}

/// Drives a chunk source and a sink.
pub struct Processor<'a, T, S> {
    pub input_file: &'a mut T,
    pub output_file: &'a mut S,
}

/// Writes the one-byte record tag `tag`.
fn write_tag<S: ProcessorDataOutput>(out: &mut S, tag: u8) -> (r: bool)
    ensures
        final(out).writes_reliably() == old(out).writes_reliably(),
        old(out).writes_reliably() ==> r,
        r ==> final(out).written() == old(out).written() + seq![tag],
{
    let buf: [u8; 1] = [tag];
    let ok = out.write_data(buf.as_slice());
    proof {
        assert(buf@ == seq![tag]);
    }
    ok
}

/// Writes the record tag `tag` followed by `payload`.
fn write_record<S: ProcessorDataOutput>(out: &mut S, tag: u8, payload: &[u8]) -> (r: bool)
    ensures
        final(out).writes_reliably() == old(out).writes_reliably(),
        old(out).writes_reliably() ==> r,
        r ==> final(out).written() == old(out).written() + seq![tag] + payload@,
{
    if !write_tag(out, tag) {
        return false;
    }
    out.write_data(payload)
}

impl<'a, T, S> Processor<'a, T, S> {
    /// The chunk source, as it currently stands.
    pub open spec fn input(&self) -> T {
        *self.input_file
    }

    /// The sink, as it currently stands.
    pub open spec fn output(&self) -> S {
        *self.output_file
    }

    /// A processor that reads `input_file` and writes to `output_file`.
    pub fn new(input_file: &'a mut T, output_file: &'a mut S) -> (r: Self) where
        T: ProcessorDataInput,
        S: ProcessorDataOutput,

        ensures
            *r.input_file == *old(input_file),
            *r.output_file == *old(output_file),
            *final(input_file) == *final(r.input_file),
            *final(output_file) == *final(r.output_file),
    {
        Self { input_file, output_file }
    }

    /// Writes the delta of the chunks that the source has left against the
    /// digests that `signature_file` has left, in chunks of the digest size.
    /// Fails at the first write or step back that does not succeed.
    pub fn process_delta(&mut self, signature_file: &mut T) -> (r: Result<(), ProcessorError>) where
        T: ProcessorDataInput,
        S: ProcessorDataOutput,

        requires
            old(self).input().well_formed(),
            old(signature_file).well_formed(),
        ensures
            r is Ok ==> final(self).output().written() == old(self).output().written() + delta_of(
                old(self).input().upcoming(),
                old(signature_file).upcoming(),
            ),
            r is Ok ==> final(self).input().upcoming().len() == 0,
            *final(final(self).output_file) == *final(old(self).output_file),
            *final(final(self).input_file) == *final(old(self).input_file),
            r matches Err(ProcessorError::FileWrite) ==> !old(self).output().writes_reliably(),
            r matches Err(ProcessorError::FileSeek) ==> !old(self).input().rewinds_reliably()
                || !old(signature_file).rewinds_reliably(),
    {
        let ghost start = self.output().written() + delta_of(
            self.input().upcoming(),
            signature_file.upcoming(),
        );
        loop
            invariant
                self.input().well_formed(),
                signature_file.well_formed(),
                self.output().writes_reliably() == old(self).output().writes_reliably(),
                *final(self.output_file) == *final(old(self).output_file),
                *final(self.input_file) == *final(old(self).input_file),
                self.input().rewinds_reliably() == old(self).input().rewinds_reliably(),
                signature_file.rewinds_reliably() == old(signature_file).rewinds_reliably(),
                start == old(self).output().written() + delta_of(
                    old(self).input().upcoming(),
                    old(signature_file).upcoming(),
                ),
                start == self.output().written() + delta_of(
                    self.input().upcoming(),
                    signature_file.upcoming(),
                ),
            decreases self.input().upcoming().len(),
        {
            let ghost new = self.input().upcoming();
            let ghost sig = signature_file.upcoming();
            let ghost w = self.output().written();
            let cur_new = self.input_file.get_next_data();
            if cur_new.len() == 0 {
                assert(start =~= self.output().written());
                return Ok(());
            }
            let hash = calculate_chunk_hash(cur_new.as_slice());
            let cur_sig = signature_file.get_next_data();
            if cur_sig.len() == 0 {
                // No digest is left: every remaining chunk goes out as it is.
                if !write_record(self.output_file, TAG_DIFFERENT_HASH, cur_new.as_slice()) {
                    return Err(ProcessorError::FileWrite);
                }
                assert(self.output().written() + delta_of(self.input().upcoming(), sig) =~= w
                    + delta_of(new, sig));
                loop
                    invariant
                        self.input().well_formed(),
                        self.output().writes_reliably() == old(self).output().writes_reliably(),
                        *final(self.output_file) == *final(old(self).output_file),
                        *final(self.input_file) == *final(old(self).input_file),
                *final(self.output_file) == *final(old(self).output_file),
                *final(self.input_file) == *final(old(self).input_file),
                        sig.len() == 0,
                        start == old(self).output().written() + delta_of(
                            old(self).input().upcoming(),
                            old(signature_file).upcoming(),
                        ),
                        start == self.output().written() + delta_of(self.input().upcoming(), sig),
                    decreases self.input().upcoming().len(),
                {
                    let ghost new2 = self.input().upcoming();
                    let ghost w2 = self.output().written();
                    let chunk = self.input_file.get_next_data();
                    if chunk.len() == 0 {
                        assert(start =~= self.output().written());
                        return Ok(());
                    }
                    if !write_record(self.output_file, TAG_DIFFERENT_HASH, chunk.as_slice()) {
                        return Err(ProcessorError::FileWrite);
                    }
                    assert(self.output().written() + delta_of(self.input().upcoming(), sig)
                        =~= w2 + delta_of(new2, sig));
                }
            }
            if bytes_equal(hash.as_slice(), cur_sig.as_slice()) {
                if !write_tag(self.output_file, TAG_SAME_HASH) {
                    return Err(ProcessorError::FileWrite);
                }
                assert(self.output().written() + delta_of(
                    self.input().upcoming(),
                    signature_file.upcoming(),
                ) =~= w + delta_of(new, sig));
            } else {
                // A mismatch: one chunk of lookahead on each side tells an
                // inserted or a removed chunk from a changed one.
                let next_new = self.input_file.get_next_data();
                let hash_next = calculate_chunk_hash(next_new.as_slice());
                let next_sig = signature_file.get_next_data();
                assert(next_new@ == second(new));
                assert(next_sig@ == second(sig));
                if bytes_equal(cur_sig.as_slice(), hash_next.as_slice()) {
                    if !write_record(self.output_file, TAG_INSERTED_CHUNK, cur_new.as_slice())
                        || !write_tag(self.output_file, TAG_SAME_HASH) {
                        return Err(ProcessorError::FileWrite);
                    }
                    if !signature_file.move_back_last_read() {
                        return Err(ProcessorError::FileSeek);
                    }
                    assert(self.input().upcoming() =~= drop_two(new));
                    assert(signature_file.upcoming() =~= sig.drop_first());
                    assert(self.output().written() + delta_of(
                        self.input().upcoming(),
                        signature_file.upcoming(),
                    ) =~= w + delta_of(new, sig));
                } else if bytes_equal(next_sig.as_slice(), hash.as_slice()) {
                    if !write_tag(self.output_file, TAG_REMOVED_CHUNK) || !write_tag(
                        self.output_file,
                        TAG_SAME_HASH,
                    ) {
                        return Err(ProcessorError::FileWrite);
                    }
                    if !self.input_file.move_back_last_read() {
                        return Err(ProcessorError::FileSeek);
                    }
                    assert(self.input().upcoming() =~= new.drop_first());
                    assert(signature_file.upcoming() =~= drop_two(sig));
                    assert(self.output().written() + delta_of(
                        self.input().upcoming(),
                        signature_file.upcoming(),
                    ) =~= w + delta_of(new, sig));
                } else {
                    if !write_record(self.output_file, TAG_DIFFERENT_HASH, cur_new.as_slice()) {
                        return Err(ProcessorError::FileWrite);
                    }
                    if !self.input_file.move_back_last_read()
                        || !signature_file.move_back_last_read() {
                        return Err(ProcessorError::FileSeek);
                    }
                    assert(self.input().upcoming() =~= new.drop_first());
                    assert(signature_file.upcoming() =~= sig.drop_first());
                    assert(self.output().written() + delta_of(
                        self.input().upcoming(),
                        signature_file.upcoming(),
                    ) =~= w + delta_of(new, sig));
                }
            }
        }
    }

    /// Writes the digest of each chunk that the source has left, in order.
    pub fn process_signature(&mut self) -> (r: Result<(), ProcessorError>) where
        T: ProcessorDataInput,
        S: ProcessorDataOutput,

        requires
            old(self).input().well_formed(),
        ensures
            r is Ok ==> final(self).output().written() == old(self).output().written()
                + signature_of(old(self).input().upcoming()),
            r is Ok ==> final(self).input().upcoming().len() == 0,
            *final(final(self).output_file) == *final(old(self).output_file),
            *final(final(self).input_file) == *final(old(self).input_file),
            r is Err ==> r matches Err(ProcessorError::FileWrite),
            r is Err ==> !old(self).output().writes_reliably(),
    {
        let ghost start = self.output().written() + signature_of(self.input().upcoming());
        loop
            invariant
                self.input().well_formed(),
                self.output().writes_reliably() == old(self).output().writes_reliably(),
                *final(self.output_file) == *final(old(self).output_file),
                *final(self.input_file) == *final(old(self).input_file),
                start == old(self).output().written() + signature_of(old(self).input().upcoming()),
                start == self.output().written() + signature_of(self.input().upcoming()),
            decreases self.input().upcoming().len(),
        {
            let ghost up = self.input().upcoming();
            let ghost w = self.output().written();
            let chunk = self.input_file.get_next_data();
            if chunk.len() == 0 {
                assert(start =~= self.output().written());
                return Ok(());
            }
            let hash = calculate_chunk_hash(chunk.as_slice());
            if !self.output_file.write_data(hash.as_slice()) {
                return Err(ProcessorError::FileWrite);
            }
            assert(self.output().written() + signature_of(self.input().upcoming()) =~= w
                + signature_of(up));
        }
    }
}

} // verus!
