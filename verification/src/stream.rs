use vstd::prelude::*;
use crate::error::{IoError, IoErrorKind};

verus! {

/// An in-memory byte stream: bytes waiting to be read, and the bytes written so far.
/// It stands for the connection in the functions that read and write packets.
pub struct MemStream {
    source: ReadBuf,
    output: Vec<u8>,
}

/// Bytes to be read and the position of the next one.
struct ReadBuf {
    input: Vec<u8>,
    pos: usize,
}

impl ReadBuf {
    #[verifier::type_invariant]
    spec fn inv(self) -> bool {
        self.pos <= self.input.len()
    }

    closed spec fn unread(self) -> Seq<u8> {
        self.input@.skip(self.pos as int)
    }

    fn read_exact(&mut self, n: usize) -> (r: Result<Vec<u8>, IoError>)
        ensures
            n <= old(self).unread().len() ==> {
                &&& r matches Ok(b) && b@ == old(self).unread().take(n as int)
                &&& final(self).unread() == old(self).unread().skip(n as int)
            },
            n > old(self).unread().len() ==> {
                &&& r matches Err(e) && e.kind == IoErrorKind::UnexpectedEof
                &&& final(self).unread() == Seq::<u8>::empty()
            },
    {
        proof {
            use_type_invariant(&*self);
        }
        let ghost start = self.unread();
        let pos = self.pos;
        if n <= self.input.len() - pos {
            let mut out: Vec<u8> = Vec::new();
            let mut i: usize = 0;
            while i < n
                invariant
                    i <= n,
                    pos + n <= self.input.len(),
                    start == self.input@.skip(pos as int),
                    out@ == start.take(i as int),
                decreases n - i,
            {
                out.push(self.input[pos + i]);
                i = i + 1;
                assert(out@ =~= start.take(i as int));
            }
            self.pos = self.pos + n;
            assert(self.input@.skip(self.pos as int) =~= start.skip(n as int));
            Ok(out)
        } else {
            self.pos = self.input.len();
            assert(self.input@.skip(self.pos as int) =~= Seq::<u8>::empty());
            Err(IoError::unexpected_eof())
        }
    }
}

impl MemStream {
    /// The bytes not read yet.
    pub closed spec fn unread(self) -> Seq<u8> {
        self.source.unread()
    }

    /// The bytes written so far.
    pub closed spec fn written(self) -> Seq<u8> {
        self.output@
    }

    /// A stream that will yield `read_data` and has nothing written yet.
    pub fn new(read_data: &[u8]) -> (s: MemStream)
        ensures
            s.unread() == read_data@,
            s.written() == Seq::<u8>::empty(),
    {
        let mut input: Vec<u8> = Vec::new();
        let mut i: usize = 0;
        while i < read_data.len()
            invariant
                i <= read_data@.len(),
                input@ == read_data@.take(i as int),
            decreases read_data@.len() - i,
        {
            input.push(read_data[i]);
            i = i + 1;
            assert(input@ =~= read_data@.take(i as int));
        }
        assert(input@ =~= read_data@);
        let s = MemStream { source: ReadBuf { input, pos: 0 }, output: Vec::new() };
        assert(s.source.input@.skip(0) =~= s.source.input@);
        s
    }

    /// Reads exactly `n` bytes. When fewer are left, they are all consumed and
    /// the read fails with `UnexpectedEof`.
    pub fn read_exact(&mut self, n: usize) -> (r: Result<Vec<u8>, IoError>)
        ensures
            final(self).written() == old(self).written(),
            n <= old(self).unread().len() ==> {
                &&& r matches Ok(b) && b@ == old(self).unread().take(n as int)
                &&& final(self).unread() == old(self).unread().skip(n as int)
            },
            n > old(self).unread().len() ==> {
                &&& r matches Err(e) && e.kind == IoErrorKind::UnexpectedEof
                &&& final(self).unread() == Seq::<u8>::empty()
            },
    {
        self.source.read_exact(n)
    }

    /// Appends `data` to the written bytes.
    pub fn write_all(&mut self, data: &[u8])
        ensures
            final(self).written() == old(self).written() + data@,
            final(self).unread() == old(self).unread(),
    {
        let ghost start = self.output@;
        let ghost src = self.source;
        let mut i: usize = 0;
        while i < data.len()
            invariant
                i <= data@.len(),
                self.source == src,
                self.output@ == start + data@.take(i as int),
            decreases data@.len() - i,
        {
            self.output.push(data[i]);
            i = i + 1;
            assert(self.output@ =~= start + data@.take(i as int));
        }
        assert(data@.take(data@.len() as int) =~= data@);
    }

    /// Nothing is buffered, so flushing has no effect.
    pub fn flush(&mut self)
        ensures
            final(self).written() == old(self).written(),
            final(self).unread() == old(self).unread(),
    {
    }

    /// The bytes written so far.
    pub fn written_data(&self) -> (d: &[u8])
        ensures
            d@ == self.written(),
    {
        self.output.as_slice()
    }
}

/// Appends the bytes of `data` to `out`.
pub fn append_bytes(out: &mut Vec<u8>, data: &[u8])
    ensures
        final(out)@ == old(out)@ + data@,
{
    let ghost start = out@;
    let mut i: usize = 0;
    while i < data.len()
        invariant
            i <= data@.len(),
            out@ == start + data@.take(i as int),
        decreases data@.len() - i,
    {
        out.push(data[i]);
        i = i + 1;
        assert(out@ =~= start + data@.take(i as int));
    }
    assert(data@.take(data@.len() as int) =~= data@);
}

} // verus!
