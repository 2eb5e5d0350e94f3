//! An in-memory byte buffer that serves both as a chunk source and as a sink.
use crate::stream::{chunks_of, ProcessorDataInput, ProcessorDataOutput};
use vstd::prelude::*;

verus! {

/// Bytes held in memory. Read as a source, they come in chunks of
/// `chunk_size` bytes from `location` on, and a source that is not `seekable`
/// cannot step back. Written as a sink, bytes are appended, up to `capacity`
/// bytes where there is one.
pub struct MemData {
    data: Vec<u8>,
    location: usize,
    chunk_size: usize,
    last_read_size: usize,
    seekable: bool,
    capacity: Option<usize>,
}

/// The bytes `data[start..end]`, copied.
fn copy_range(data: &Vec<u8>, start: usize, end: usize) -> (r: Vec<u8>)
    requires
        start <= end <= data@.len(),
    ensures
        r@ == data@.subrange(start as int, end as int),
{
    let mut r: Vec<u8> = Vec::new();
    let mut i: usize = start;
    while i < end
        invariant
            start <= i <= end <= data@.len(),
            r@ == data@.subrange(start as int, i as int),
        decreases end - i,
    {
        r.push(data[i]);
        assert(data@.subrange(start as int, i + 1) == data@.subrange(start as int, i as int).push(
            data@[i as int],
        ));
        i = i + 1;
    }
    r
}

impl MemData {
    /// A source that reads `data` in chunks of `chunk_size` bytes.
    pub fn new_input(chunk_size: usize, data: &[u8]) -> (r: Self)
        ensures
            r.well_formed(),
            r.upcoming() == chunks_of(data@, chunk_size as nat),
            r.last_read().len() == 0,
            r.rewinds_reliably(),
    {
        Self::source(chunk_size, data, true)
    }

    /// A source that reads `data` in chunks of `chunk_size` bytes, strictly
    /// forward: every step back fails.
    pub fn new_forward_input(chunk_size: usize, data: &[u8]) -> (r: Self)
        ensures
            r.well_formed(),
            r.upcoming() == chunks_of(data@, chunk_size as nat),
            r.last_read().len() == 0,
            !r.rewinds_reliably(),
    {
        Self::source(chunk_size, data, false)
    }

    fn source(chunk_size: usize, data: &[u8], seekable: bool) -> (r: Self)
        ensures
            r.well_formed(),
            r.upcoming() == chunks_of(data@, chunk_size as nat),
            r.last_read().len() == 0,
            r.seekable == seekable,
    {
        let mut v: Vec<u8> = Vec::new();
        let mut i: usize = 0;
        while i < data.len()
            invariant
                i <= data@.len(),
                v@ == data@.take(i as int),
            decreases data.len() - i,
        {
            v.push(data[i]);
            assert(data@.take(i + 1) == data@.take(i as int).push(data@[i as int]));
            i = i + 1;
        }
        assert(data@.take(data@.len() as int) == data@);
        assert(v@.skip(0) == v@);
        MemData { data: v, location: 0, chunk_size, last_read_size: 0, seekable, capacity: None }
    }

    /// An empty sink.
    pub fn new_output() -> (r: Self)
        ensures
            r.written() == Seq::<u8>::empty(),
            r.writes_reliably(),
    {
        MemData {
            data: Vec::new(),
            location: 0,
            chunk_size: 0,
            last_read_size: 0,
            seekable: true,
            capacity: None,
        }
    }

    /// An empty sink that holds at most `capacity` bytes: a write that would
    /// go beyond that fails and leaves the sink as it was.
    pub fn new_bounded_output(capacity: usize) -> (r: Self)
        ensures
            r.written() == Seq::<u8>::empty(),
            !r.writes_reliably(),
    {
        MemData {
            data: Vec::new(),
            location: 0,
            chunk_size: 0,
            last_read_size: 0,
            seekable: true,
            capacity: Some(capacity),
        }
    }

    /// The bytes held: for a sink, everything written so far.
    pub fn data(&self) -> (r: &Vec<u8>)
        ensures
            r@ == self.written(),
    {
        &self.data
    }
}

impl ProcessorDataInput for MemData {
    closed spec fn upcoming(&self) -> Seq<Seq<u8>> {
        chunks_of(self.data@.skip(self.location as int), self.chunk_size as nat)
    }

    closed spec fn last_read(&self) -> Seq<u8> {
        self.data@.subrange(self.location - self.last_read_size, self.location as int)
    }

    closed spec fn rewinds_reliably(&self) -> bool {
        self.seekable
    }

    closed spec fn well_formed(&self) -> bool {
        &&& self.location <= self.data@.len()
        &&& self.last_read_size <= self.location
        &&& self.last_read_size > 0 ==> {
            &&& self.last_read_size <= self.chunk_size
            &&& (self.last_read_size == self.chunk_size || self.location == self.data@.len())
        }
    }

    fn get_next_data(&mut self) -> (r: Vec<u8>) {
        if self.chunk_size == 0 || self.location >= self.data.len() {
            self.last_read_size = 0;
            return Vec::new();
        }
        let start = self.location;
        let remaining = self.data.len() - start;
        let n = if remaining <= self.chunk_size {
            remaining
        } else {
            self.chunk_size
        };
        let r = copy_range(&self.data, start, start + n);
        self.location = start + n;
        self.last_read_size = n;
        proof {
            let rest = self.data@.skip(start as int);
            assert(rest.take(n as int) == r@);
            assert(rest.skip(n as int) == self.data@.skip(self.location as int));
            if remaining <= self.chunk_size {
                assert(rest == r@);
            }
        }
        r
    }

    fn move_back_last_read(&mut self) -> (r: bool) {
        if !self.seekable {
            return false;
        }
        proof {
            let p = self.location - self.last_read_size;
            let rest = self.data@.skip(p);
            if self.last_read_size > 0 {
                assert(rest.take(self.last_read_size as int) == self.last_read());
                assert(rest.skip(self.last_read_size as int) == self.data@.skip(
                    self.location as int,
                ));
                if self.location == self.data@.len() {
                    assert(rest == self.last_read());
                    assert(self.upcoming() == Seq::<Seq<u8>>::empty());
                }
            }
        }
        self.location = self.location - self.last_read_size;
        self.last_read_size = 0;
        true
    }
}

impl ProcessorDataOutput for MemData {
    closed spec fn written(&self) -> Seq<u8> {
        self.data@
    }

    closed spec fn writes_reliably(&self) -> bool {
        self.capacity is None
    }

    /// A bounded sink refuses a write that does not fit and keeps its bytes.
    fn write_data(&mut self, data: &[u8]) -> (r: bool) {
        if let Some(c) = self.capacity {
            if self.data.len() > c || data.len() > c - self.data.len() {
                return false;
            }
        }
        let ghost before = self.data@;
        let ghost capacity = self.capacity;
        let mut i: usize = 0;
        while i < data.len()
            invariant
                i <= data@.len(),
                self.capacity == capacity,
                self.data@ == before + data@.take(i as int),
            decreases data.len() - i,
        {
            self.data.push(data[i]);
            assert(data@.take(i + 1) == data@.take(i as int).push(data@[i as int]));
            i = i + 1;
        }
        assert(data@.take(data@.len() as int) == data@);
        true
    }
}

} // verus!
