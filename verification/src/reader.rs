//! Zero-copy little-endian cursor over a byte slice.
//!
//! All Warcraft III map formats are little-endian. Every read is
//! bounds-checked and returns [`Error::UnexpectedEof`] instead of panicking,
//! which matters for protected / truncated maps.
use crate::error::Error;
use crate::text::{lossy_string, utf8_lossy};
use vstd::prelude::*;

verus! {

/// The abstract state of a [`ByteReader`]: the whole input, the cursor, and
/// whether an empty string may be encoded without its terminator.
pub struct ReaderView {
    pub data: Seq<u8>,
    pub pos: int,
    pub lenient: bool,
}

/// The result of reading a value of type `T` from a reader state: the value and
/// the state after it, or the error the read ends with.
pub type Read<T> = Result<(T, ReaderView), Error>;

impl ReaderView {
    /// The cursor lies inside the input.
    pub open spec fn wf(self) -> bool {
        0 <= self.pos <= self.data.len()
    }

    pub open spec fn remaining(self) -> int {
        self.data.len() - self.pos
    }

    /// The same input and mode, with the cursor at `pos`.
    pub open spec fn at(self, pos: int) -> ReaderView {
        ReaderView { pos, ..self }
    }

    /// Consume `n` bytes.
    pub open spec fn take(self, n: int) -> Read<Seq<u8>> {
        if self.remaining() < n {
            Err(Error::UnexpectedEof { offset: self.pos as usize, needed: (n - self.remaining()) as usize })
        } else {
            Ok((self.data.subrange(self.pos, self.pos + n), self.at(self.pos + n)))
        }
    }

    pub open spec fn read_u8(self) -> Read<u8> {
        match self.take(1) {
            Ok((b, v)) => Ok((b[0], v)),
            Err(e) => Err(e),
        }
    }

    pub open spec fn read_u32(self) -> Read<u32> {
        match self.take(4) {
            Ok((b, v)) => Ok((le_u32(b), v)),
            Err(e) => Err(e),
        }
    }

    pub open spec fn read_i32(self) -> Read<i32> {
        match self.take(4) {
            Ok((b, v)) => Ok((le_u32(b) as i32, v)),
            Err(e) => Err(e),
        }
    }

    /// `n` consecutive little-endian `u32`s.
    pub open spec fn read_u32s(self, n: nat) -> Read<Seq<u32>>
        decreases n,
    {
        if n == 0 {
            Ok((Seq::empty(), self))
        } else {
            match self.read_u32s((n - 1) as nat) {
                Ok((xs, v)) => match v.read_u32() {
                    Ok((x, w)) => Ok((xs.push(x), w)),
                    Err(e) => Err(e),
                },
                Err(e) => Err(e),
            }
        }
    }

    /// `n` consecutive little-endian `i32`s.
    pub open spec fn read_i32s(self, n: nat) -> Read<Seq<i32>>
        decreases n,
    {
        if n == 0 {
            Ok((Seq::empty(), self))
        } else {
            match self.read_i32s((n - 1) as nat) {
                Ok((xs, v)) => match v.read_i32() {
                    Ok((x, w)) => Ok((xs.push(x), w)),
                    Err(e) => Err(e),
                },
                Err(e) => Err(e),
            }
        }
    }

    pub proof fn lemma_read_u32s_err(self, i: nat, j: nat)
        requires
            i <= j,
            self.read_u32s(i) is Err,
        ensures
            self.read_u32s(j) == self.read_u32s(i),
        decreases j - i,
    {
        if j > i {
            self.lemma_read_u32s_err(i, (j - 1) as nat);
        }
    }

    pub proof fn lemma_read_i32s_err(self, i: nat, j: nat)
        requires
            i <= j,
            self.read_i32s(i) is Err,
        ensures
            self.read_i32s(j) == self.read_i32s(i),
        decreases j - i,
    {
        if j > i {
            self.lemma_read_i32s_err(i, (j - 1) as nat);
        }
    }

    /// A NUL-terminated string, decoded lossily. A missing terminator takes
    /// the rest of the input; in lenient mode a zero byte right at the cursor
    /// is an empty string that consumes nothing.
    pub open spec fn read_cstr(self) -> Read<Seq<char>> {
        if self.lenient && self.pos < self.data.len() && self.data[self.pos] == 0 {
            Ok((Seq::empty(), self))
        } else {
            let nul = first_zero(self.data, self.pos);
            if nul < self.data.len() {
                Ok((utf8_lossy(self.data.subrange(self.pos, nul)), self.at(nul + 1)))
            } else {
                Ok((utf8_lossy(self.data.subrange(self.pos, self.data.len() as int)), self.at(self.data.len() as int)))
            }
        }
    }
}

/// The little-endian value of the first four bytes of `b`.
pub open spec fn le_u32(b: Seq<u8>) -> u32 {
    (b[0] as int + 256 * b[1] + 65536 * b[2] + 16777216 * b[3]) as u32
}

/// The little-endian value of the first two bytes of `b`.
pub open spec fn le_u16(b: Seq<u8>) -> u16 {
    (b[0] as int + 256 * b[1]) as u16
}

/// Index of the first zero byte at or after `from`, or the input length when
/// there is none.
pub open spec fn first_zero(data: Seq<u8>, from: int) -> int
    decreases data.len() - from,
{
    if from >= data.len() {
        data.len() as int
    } else if data[from] == 0 {
        from
    } else {
        first_zero(data, from + 1)
    }
}

pub proof fn lemma_first_zero(data: Seq<u8>, from: int)
    requires
        0 <= from <= data.len(),
    ensures
        from <= first_zero(data, from) <= data.len(),
        forall|k: int| from <= k < first_zero(data, from) ==> data[k] != 0,
        first_zero(data, from) < data.len() ==> data[first_zero(data, from)] == 0,
    decreases data.len() - from,
{
    if from < data.len() && data[from] != 0 {
        lemma_first_zero(data, from + 1);
    }
}

/// Little-endian `u32` from the first four bytes of a slice.
pub fn read_le_u32(b: &[u8]) -> (r: u32)
    requires
        b@.len() >= 4,
    ensures
        r == le_u32(b@),
{
    (b[0] as u32) + 256 * (b[1] as u32) + 65536 * (b[2] as u32) + 16777216 * (b[3] as u32)
}

/// Little-endian `u16` from the first two bytes of a slice.
pub fn read_le_u16(b: &[u8]) -> (r: u16)
    requires
        b@.len() >= 2,
    ensures
        r == le_u16(b@),
{
    (b[0] as u16) + 256 * (b[1] as u16)
}

/// The four little-endian bytes of `x`.
pub open spec fn le_bytes(x: u32) -> Seq<u8> {
    seq![(x % 256) as u8, ((x / 256) % 256) as u8, ((x / 65536) % 256) as u8, (x / 16777216) as u8]
}

pub proof fn lemma_le_roundtrip(x: u32)
    ensures
        le_bytes(x).len() == 4,
        le_u32(le_bytes(x)) == x,
{
}

/// The view of an optional value.
pub open spec fn opt_view<T: View>(o: Option<T>) -> Option<T::V> {
    match o {
        Some(x) => Some(x@),
        None => None,
    }
}

/// A read that only happens when `cond` holds; otherwise nothing is consumed
/// and the field is absent.
pub open spec fn read_if<T>(cond: bool, v: ReaderView, r: Read<T>) -> Read<Option<T>> {
    if cond {
        match r {
            Ok((x, w)) => Ok((Some(x), w)),
            Err(e) => Err(e),
        }
    } else {
        Ok((None, v))
    }
}

/// Little-endian cursor over borrowed bytes.
#[derive(Debug, Clone, Copy)]
pub struct ByteReader<'a> {
    data: &'a [u8],
    pos: usize,
    empty_strings_unterminated: bool,
}

impl<'a> View for ByteReader<'a> {
    type V = ReaderView;

    closed spec fn view(&self) -> ReaderView {
        ReaderView { data: self.data@, pos: self.pos as int, lenient: self.empty_strings_unterminated }
    }
}

impl<'a> ByteReader<'a> {
    /// Create a reader over `data`, positioned at the start.
    pub fn new(data: &'a [u8]) -> (r: Self)
        ensures
            r@ == (ReaderView { data: data@, pos: 0, lenient: false }),
    {
        Self { data, pos: 0, empty_strings_unterminated: false }
    }

    /// Read an empty string as zero bytes rather than as a lone terminator.
    ///
    /// Some third-party map optimizers emit nothing at all for an empty string
    /// instead of the NUL that terminates it, which shifts every field after
    /// it. The two encodings are locally indistinguishable, so this is only
    /// ever a retry after the format-conformant read has already failed.
    pub fn set_empty_strings_unterminated(&mut self, unterminated: bool)
        ensures
            final(self)@ == (ReaderView { lenient: unterminated, ..old(self)@ }),
    {
        self.empty_strings_unterminated = unterminated;
    }

    /// Current byte offset from the start of the input.
    pub fn position(&self) -> (p: usize)
        ensures
            p == self@.pos,
    {
        self.pos
    }

    /// Number of unread bytes.
    pub fn remaining(&self) -> (n: usize)
        requires
            self@.wf(),
        ensures
            n == self@.remaining(),
    {
        self.data.len() - self.pos
    }

    /// Whether the reader is exhausted.
    pub fn is_at_end(&self) -> (b: bool)
        ensures
            b == (self@.pos >= self@.data.len()),
    {
        self.pos >= self.data.len()
    }

    /// Look at the next byte without consuming it.
    pub fn peek_u8(&self) -> (b: Option<u8>)
        requires
            self@.wf(),
        ensures
            b == (if self@.pos < self@.data.len() { Some(self@.data[self@.pos]) } else { None::<u8> }),
    {
        if self.pos < self.data.len() {
            Some(self.data[self.pos])
        } else {
            None
        }
    }

    /// Consume `n` bytes, returning them as a slice.
    pub fn take(&mut self, n: usize) -> (res: Result<&'a [u8], Error>)
        requires
            old(self)@.wf(),
        ensures
            final(self)@.wf(),
            match res {
                Ok(s) => old(self)@.take(n as int) == Ok::<_, Error>((s@, final(self)@)),
                Err(e) => old(self)@.take(n as int) == Err::<(Seq<u8>, ReaderView), _>(e)
                    && final(self)@ == old(self)@,
            },
    {
        if self.remaining() < n {
            return Err(Error::UnexpectedEof { offset: self.pos, needed: n - self.remaining() });
        }
        let len = self.data.len();
        assert(self.pos + n <= len);
        let slice = &self.data[self.pos..self.pos + n];
        self.pos += n;
        Ok(slice)
    }

    /// Skip `n` bytes.
    pub fn skip(&mut self, n: usize) -> (res: Result<(), Error>)
        requires
            old(self)@.wf(),
        ensures
            final(self)@.wf(),
            match res {
                Ok(_) => old(self)@.take(n as int) is Ok && final(self)@ == old(self)@.take(n as int)->Ok_0.1,
                Err(e) => old(self)@.take(n as int) == Err::<(Seq<u8>, ReaderView), _>(e)
                    && final(self)@ == old(self)@,
            },
    {
        match self.take(n) {
            Ok(_) => Ok(()),
            Err(e) => Err(e),
        }
    }

    /// Read a single byte.
    pub fn u8(&mut self) -> (res: Result<u8, Error>)
        requires
            old(self)@.wf(),
        ensures
            final(self)@.wf(),
            match res {
                Ok(x) => old(self)@.read_u8() == Ok::<_, Error>((x, final(self)@)),
                Err(e) => old(self)@.read_u8() == Err::<(u8, ReaderView), _>(e) && final(self)@ == old(self)@,
            },
    {
        let b = self.take(1)?;
        Ok(b[0])
    }

    /// Read a little-endian `u32`.
    pub fn u32(&mut self) -> (res: Result<u32, Error>)
        requires
            old(self)@.wf(),
        ensures
            final(self)@.wf(),
            match res {
                Ok(x) => old(self)@.read_u32() == Ok::<_, Error>((x, final(self)@)),
                Err(e) => old(self)@.read_u32() == Err::<(u32, ReaderView), _>(e) && final(self)@ == old(self)@,
            },
    {
        let b = self.take(4)?;
        Ok(read_le_u32(b))
    }

    /// Read a little-endian `i32`.
    pub fn i32(&mut self) -> (res: Result<i32, Error>)
        requires
            old(self)@.wf(),
        ensures
            final(self)@.wf(),
            match res {
                Ok(x) => old(self)@.read_i32() == Ok::<_, Error>((x, final(self)@)),
                Err(e) => old(self)@.read_i32() == Err::<(i32, ReaderView), _>(e) && final(self)@ == old(self)@,
            },
    {
        let b = self.take(4)?;
        Ok(read_le_u32(b) as i32)
    }

    /// Read exactly `N` raw bytes.
    pub fn bytes<const N: usize>(&mut self) -> (res: Result<[u8; N], Error>)
        requires
            old(self)@.wf(),
        ensures
            final(self)@.wf(),
            match res {
                Ok(x) => old(self)@.take(N as int) == Ok::<_, Error>((x@, final(self)@)),
                Err(e) => old(self)@.take(N as int) == Err::<(Seq<u8>, ReaderView), _>(e) && final(self)@ == old(self)@,
            },
    {
        let b = self.take(N)?;
        let mut out = [0u8; N];
        let mut i: usize = 0;
        while i < N
            invariant
                b@.len() == N,
                0 <= i <= N,
                out@.len() == N,
                forall|k: int| 0 <= k < i ==> out@[k] == b@[k],
            decreases N - i,
        {
            out[i] = b[i];
            i += 1;
        }
        assert(out@ =~= b@);
        Ok(out)
    }

    /// Read `N` little-endian `u32`s.
    pub fn u32s<const N: usize>(&mut self) -> (res: Result<[u32; N], Error>)
        requires
            old(self)@.wf(),
        ensures
            final(self)@.wf(),
            match res {
                Ok(x) => old(self)@.read_u32s(N as nat) == Ok::<_, Error>((x@, final(self)@)),
                Err(e) => old(self)@.read_u32s(N as nat) == Err::<(Seq<u32>, ReaderView), _>(e)
                    && final(self)@ == old(self)@.at(old(self)@.pos + 4 * (old(self)@.remaining() / 4)),
            },
    {
        let ghost start = self@;
        let mut out = [0u32; N];
        let mut i: usize = 0;
        assert(out@.subrange(0, 0) =~= Seq::<u32>::empty());
        while i < N
            invariant
                0 <= i <= N,
                out@.len() == N,
                self@.wf(),
                start == old(self)@,
                start.read_u32s(i as nat) == Ok::<_, Error>((out@.subrange(0, i as int), self@)),
                self@ == start.at(start.pos + 4 * i),
            decreases N - i,
        {
            let ghost before = self@;
            let x = match self.u32() {
                Ok(x) => x,
                Err(e) => {
                    assert(start.read_u32s((i + 1) as nat) == Err::<(Seq<u32>, ReaderView), _>(e));
                    proof { start.lemma_read_u32s_err((i + 1) as nat, N as nat); }
                    assert(i == start.remaining() / 4);
                    return Err(e);
                }
            };
            let ghost prev = out@;
            out[i] = x;
            assert(out@.subrange(0, i + 1) =~= prev.subrange(0, i as int).push(x));
            i += 1;
        }
        assert(out@.subrange(0, N as int) =~= out@);
        Ok(out)
    }

    /// Read `N` little-endian `i32`s.
    pub fn i32s<const N: usize>(&mut self) -> (res: Result<[i32; N], Error>)
        requires
            old(self)@.wf(),
        ensures
            final(self)@.wf(),
            match res {
                Ok(x) => old(self)@.read_i32s(N as nat) == Ok::<_, Error>((x@, final(self)@)),
                Err(e) => old(self)@.read_i32s(N as nat) == Err::<(Seq<i32>, ReaderView), _>(e)
                    && final(self)@ == old(self)@.at(old(self)@.pos + 4 * (old(self)@.remaining() / 4)),
            },
    {
        let ghost start = self@;
        let mut out = [0i32; N];
        let mut i: usize = 0;
        assert(out@.subrange(0, 0) =~= Seq::<i32>::empty());
        while i < N
            invariant
                0 <= i <= N,
                out@.len() == N,
                self@.wf(),
                start == old(self)@,
                start.read_i32s(i as nat) == Ok::<_, Error>((out@.subrange(0, i as int), self@)),
                self@ == start.at(start.pos + 4 * i),
            decreases N - i,
        {
            let ghost before = self@;
            let x = match self.i32() {
                Ok(x) => x,
                Err(e) => {
                    assert(start.read_i32s((i + 1) as nat) == Err::<(Seq<i32>, ReaderView), _>(e));
                    proof { start.lemma_read_i32s_err((i + 1) as nat, N as nat); }
                    assert(i == start.remaining() / 4);
                    return Err(e);
                }
            };
            let ghost prev = out@;
            out[i] = x;
            assert(out@.subrange(0, i + 1) =~= prev.subrange(0, i as int).push(x));
            i += 1;
        }
        assert(out@.subrange(0, N as int) =~= out@);
        Ok(out)
    }

    /// Read a NUL-terminated string, consuming the terminator.
    ///
    /// Invalid UTF-8 is replaced lossily. If no terminator exists before the
    /// end of input the remaining bytes are returned as the string — protected
    /// maps sometimes truncate the final field.
    pub fn cstr_lossy(&mut self) -> (res: Result<String, Error>)
        requires
            old(self)@.wf(),
        ensures
            final(self)@.wf(),
            res is Ok,
            old(self)@.read_cstr() == Ok::<_, Error>((res->Ok_0@, final(self)@)),
    {
        if self.empty_strings_unterminated && self.peek_u8() == Some(0u8) {
            return Ok(String::new());
        }
        let ghost start = self@;
        let len = self.data.len();
        let mut nul = self.pos;
        proof {
            lemma_first_zero(start.data, start.pos);
        }
        while nul < len && self.data[nul] != 0
            invariant
                len == self.data@.len(),
                self@ == start,
                start.pos <= nul <= len,
                first_zero(start.data, start.pos) == first_zero(start.data, nul as int),
            decreases len - nul,
        {
            nul += 1;
        }
        if nul < len {
            let s = lossy_string(&self.data[self.pos..nul]);
            self.pos = nul + 1;
            Ok(s)
        } else {
            let s = lossy_string(&self.data[self.pos..len]);
            self.pos = len;
            Ok(s)
        }
    }

    /// Read a `u8` when `cond` holds.
    pub fn opt_u8(&mut self, cond: bool) -> (res: Result<Option<u8>, Error>)
        requires
            old(self)@.wf(),
        ensures
            final(self)@.wf(),
            match res {
                Ok(x) => read_if(cond, old(self)@, old(self)@.read_u8()) == Ok::<_, Error>((x, final(self)@)),
                Err(e) => read_if(cond, old(self)@, old(self)@.read_u8()) == Err::<(Option<u8>, ReaderView), _>(e)
                    && final(self)@ == old(self)@,
            },
    {
        if cond { Ok(Some(self.u8()?)) } else { Ok(None) }
    }

    /// Read a `u32` when `cond` holds.
    pub fn opt_u32(&mut self, cond: bool) -> (res: Result<Option<u32>, Error>)
        requires
            old(self)@.wf(),
        ensures
            final(self)@.wf(),
            match res {
                Ok(x) => read_if(cond, old(self)@, old(self)@.read_u32()) == Ok::<_, Error>((x, final(self)@)),
                Err(e) => read_if(cond, old(self)@, old(self)@.read_u32()) == Err::<(Option<u32>, ReaderView), _>(e)
                    && final(self)@ == old(self)@,
            },
    {
        if cond { Ok(Some(self.u32()?)) } else { Ok(None) }
    }

    /// Read an `i32` when `cond` holds.
    pub fn opt_i32(&mut self, cond: bool) -> (res: Result<Option<i32>, Error>)
        requires
            old(self)@.wf(),
        ensures
            final(self)@.wf(),
            match res {
                Ok(x) => read_if(cond, old(self)@, old(self)@.read_i32()) == Ok::<_, Error>((x, final(self)@)),
                Err(e) => read_if(cond, old(self)@, old(self)@.read_i32()) == Err::<(Option<i32>, ReaderView), _>(e)
                    && final(self)@ == old(self)@,
            },
    {
        if cond { Ok(Some(self.i32()?)) } else { Ok(None) }
    }

    /// Read a string when `cond` holds.
    pub fn opt_cstr(&mut self, cond: bool) -> (res: Result<Option<String>, Error>)
        requires
            old(self)@.wf(),
        ensures
            final(self)@.wf(),
            res is Ok,
            match res {
                Ok(x) => read_if(cond, old(self)@, old(self)@.read_cstr()) == Ok::<_, Error>((opt_view(x), final(self)@)),
                Err(e) => read_if(cond, old(self)@, old(self)@.read_cstr()) == Err::<(Option<Seq<char>>, ReaderView), _>(e),
            },
    {
        if cond { Ok(Some(self.cstr_lossy()?)) } else { Ok(None) }
    }

    /// Read `N` raw bytes when `cond` holds.
    pub fn opt_bytes<const N: usize>(&mut self, cond: bool) -> (res: Result<Option<[u8; N]>, Error>)
        requires
            old(self)@.wf(),
        ensures
            final(self)@.wf(),
            match res {
                Ok(x) => read_if(cond, old(self)@, old(self)@.take(N as int)) == Ok::<_, Error>((opt_view(x), final(self)@)),
                Err(e) => read_if(cond, old(self)@, old(self)@.take(N as int)) == Err::<(Option<Seq<u8>>, ReaderView), _>(e)
                    && final(self)@ == old(self)@,
            },
    {
        if cond { Ok(Some(self.bytes::<N>()?)) } else { Ok(None) }
    }

    /// Read `N` `u32`s when `cond` holds.
    pub fn opt_u32s<const N: usize>(&mut self, cond: bool) -> (res: Result<Option<[u32; N]>, Error>)
        requires
            old(self)@.wf(),
        ensures
            final(self)@.wf(),
            match res {
                Ok(x) => read_if(cond, old(self)@, old(self)@.read_u32s(N as nat)) == Ok::<_, Error>((opt_view(x), final(self)@)),
                Err(e) => read_if(cond, old(self)@, old(self)@.read_u32s(N as nat)) == Err::<(Option<Seq<u32>>, ReaderView), _>(e)
                    && final(self)@ == old(self)@.at(old(self)@.pos + 4 * (old(self)@.remaining() / 4)),
            },
    {
        if cond { Ok(Some(self.u32s::<N>()?)) } else { Ok(None) }
    }

    /// Read `N` `i32`s when `cond` holds.
    pub fn opt_i32s<const N: usize>(&mut self, cond: bool) -> (res: Result<Option<[i32; N]>, Error>)
        requires
            old(self)@.wf(),
        ensures
            final(self)@.wf(),
            match res {
                Ok(x) => read_if(cond, old(self)@, old(self)@.read_i32s(N as nat)) == Ok::<_, Error>((opt_view(x), final(self)@)),
                Err(e) => read_if(cond, old(self)@, old(self)@.read_i32s(N as nat)) == Err::<(Option<Seq<i32>>, ReaderView), _>(e)
                    && final(self)@ == old(self)@.at(old(self)@.pos + 4 * (old(self)@.remaining() / 4)),
            },
    {
        if cond { Ok(Some(self.i32s::<N>()?)) } else { Ok(None) }
    }
}

/// A record that can be read from a [`ByteReader`], with the specification
/// of what the read yields.
///
/// `version` is the format version of the file the record belongs to; records
/// whose layout does not depend on it ignore it.
pub trait Record: Sized + View {
    spec fn spec_read(v: ReaderView, version: u32) -> Read<Self::V>;

    fn read(r: &mut ByteReader<'_>, version: u32) -> (res: Result<Self, Error>)
        requires
            old(r)@.wf(),
        ensures
            final(r)@.wf(),
            match res {
                Ok(x) => Self::spec_read(old(r)@, version) == Ok::<_, Error>((x@, final(r)@)),
                Err(e) => Self::spec_read(old(r)@, version) == Err::<(Self::V, ReaderView), _>(e),
            },
    ;
}

impl Record for u8 {
    open spec fn spec_read(v: ReaderView, version: u32) -> Read<u8> {
        v.read_u8()
    }

    fn read(r: &mut ByteReader<'_>, version: u32) -> (res: Result<u8, Error>) {
        r.u8()
    }
}

/// `n` records of type `T`, read one after the other.
pub open spec fn read_records<T: Record>(v: ReaderView, version: u32, n: nat) -> Read<Seq<T::V>>
    decreases n,
{
    if n == 0 {
        Ok((Seq::empty(), v))
    } else {
        match read_records::<T>(v, version, (n - 1) as nat) {
            Ok((xs, w)) => match T::spec_read(w, version) {
                Ok((x, u)) => Ok((xs.push(x), u)),
                Err(e) => Err(e),
            },
            Err(e) => Err(e),
        }
    }
}

/// Once a run of records fails, every longer run fails the same way.
pub proof fn lemma_read_records_err<T: Record>(v: ReaderView, version: u32, i: nat, j: nat)
    requires
        i <= j,
        read_records::<T>(v, version, i) is Err,
    ensures
        read_records::<T>(v, version, j) == read_records::<T>(v, version, i),
    decreases j - i,
{
    if j > i {
        lemma_read_records_err::<T>(v, version, i, (j - 1) as nat);
    }
}

/// A `u32` count followed by that many records; fewer than four remaining
/// bytes read as an empty list.
pub open spec fn read_counted<T: Record>(v: ReaderView, version: u32) -> Read<Seq<T::V>> {
    if v.remaining() < 4 {
        Ok((Seq::empty(), v))
    } else {
        match v.read_u32() {
            Ok((count, w)) => read_records::<T>(w, version, count as nat),
            Err(e) => Err(e),
        }
    }
}

/// The views of the elements of `v`.
pub open spec fn views<T: View>(v: Seq<T>) -> Seq<T::V> {
    v.map_values(|x: T| x@)
}

impl Record for i32 {
    open spec fn spec_read(v: ReaderView, version: u32) -> Read<i32> {
        v.read_i32()
    }

    fn read(r: &mut ByteReader<'_>, version: u32) -> (res: Result<i32, Error>) {
        r.i32()
    }
}

/// A four-byte rawcode such as `hfoo`.
impl Record for [u8; 4] {
    open spec fn spec_read(v: ReaderView, version: u32) -> Read<Seq<u8>> {
        v.take(4)
    }

    fn read(r: &mut ByteReader<'_>, version: u32) -> (res: Result<[u8; 4], Error>) {
        r.bytes::<4>()
    }
}

/// Read `n` records one after the other.
pub fn parse_n<T: Record>(r: &mut ByteReader<'_>, version: u32, n: u32) -> (res: Result<Vec<T>, Error>)
    requires
        old(r)@.wf(),
    ensures
        final(r)@.wf(),
        match res {
            Ok(xs) => read_records::<T>(old(r)@, version, n as nat) == Ok::<_, Error>((views(xs@), final(r)@)),
            Err(e) => read_records::<T>(old(r)@, version, n as nat) == Err::<(Seq<T::V>, ReaderView), _>(e),
        },
{
    let ghost start = r@;
    // Clamp pre-allocation so a corrupt count cannot balloon memory.
    let cap: usize = if n > 4096 { 4096 } else { n as usize };
    let mut items: Vec<T> = Vec::with_capacity(cap);
    let mut i: u32 = 0;
    assert(views(items@) =~= Seq::<T::V>::empty());
    while i < n
        invariant
            0 <= i <= n,
            r@.wf(),
            start == old(r)@,
            read_records::<T>(start, version, i as nat) == Ok::<_, Error>((views(items@), r@)),
        decreases n - i,
    {
        let x = match T::read(r, version) {
            Ok(x) => x,
            Err(e) => {
                proof { lemma_read_records_err::<T>(start, version, (i + 1) as nat, n as nat); }
                return Err(e);
            }
        };
        let ghost prev = items@;
        items.push(x);
        assert(views(items@) =~= views(prev).push(x@));
        i += 1;
    }
    Ok(items)
}

/// Read a `u32` count followed by `count` records.
///
/// Returns an empty vector when fewer than 4 bytes remain — truncated
/// trailing sections are common on protected maps and are not an error.
pub fn parse_counted<T: Record>(r: &mut ByteReader<'_>, version: u32) -> (res: Result<Vec<T>, Error>)
    requires
        old(r)@.wf(),
    ensures
        final(r)@.wf(),
        match res {
            Ok(xs) => read_counted::<T>(old(r)@, version) == Ok::<_, Error>((views(xs@), final(r)@)),
            Err(e) => read_counted::<T>(old(r)@, version) == Err::<(Seq<T::V>, ReaderView), _>(e),
        },
{
    if r.remaining() < 4 {
        let empty: Vec<T> = Vec::new();
        assert(views(empty@) =~= Seq::<T::V>::empty());
        return Ok(empty);
    }
    let count = r.u32()?;
    parse_n(r, version, count)
}

} // verus!
