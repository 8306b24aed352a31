//! Message buffers: a bounded byte buffer for building network payloads
//! and a cursor for reading them back.
use vstd::prelude::*;
use vstd::string::StringSliceAdditionalSpecFns;
use crate::bytes::{le_u16, le_u32, u16_at, u32_at, u16_to_le, u32_to_le, read_u16_at, read_u32_at};
use crate::text::{lossy_text, string_from_utf8_lossy};

verus! {

#[derive(Debug, PartialEq, Eq, Clone, Copy)]
pub enum SizeBufError {
    Overflow,
    TooLarge,
}

/// What a `SizeBuf` holds: the bytes written since the last clear, its
/// capacity, whether a write past the capacity may restart the buffer, and
/// whether that has happened.
pub struct SizeBufView {
    pub data: Seq<u8>,
    pub maxsize: nat,
    pub allow_overflow: bool,
    pub overflowed: bool,
}

/// The buffer after a write of `bytes` to `b`, and the write's result.
///
/// A write that fits is appended. One that does not fit is refused, unless
/// the buffer allows overflow: then the buffer is emptied, marked as
/// overflowed and the write stands alone, provided it fits on its own.
pub open spec fn spec_write(b: SizeBufView, bytes: Seq<u8>) -> (SizeBufView, Result<(), SizeBufError>) {
    if b.data.len() + bytes.len() <= b.maxsize {
        (SizeBufView { data: b.data + bytes, ..b }, Ok(()))
    } else if !b.allow_overflow {
        (b, Err(SizeBufError::Overflow))
    } else if bytes.len() > b.maxsize {
        (b, Err(SizeBufError::TooLarge))
    } else {
        (SizeBufView { data: bytes, overflowed: true, ..b }, Ok(()))
    }
}

/// The bytes of a string as the message format carries it: its UTF-8
/// encoding followed by a terminating zero.
pub open spec fn cstring_bytes(text: Seq<char>) -> Seq<u8> {
    vstd::utf8::encode_utf8(text).push(0u8)
}

#[derive(Debug, Clone)]
pub struct SizeBuf {
    data: Vec<u8>,
    maxsize: usize,
    allow_overflow: bool,
    overflowed: bool,
}

impl View for SizeBuf {
    type V = SizeBufView;

    closed spec fn view(&self) -> SizeBufView {
        SizeBufView {
            data: self.data@,
            maxsize: self.maxsize as nat,
            allow_overflow: self.allow_overflow,
            overflowed: self.overflowed,
        }
    }
}

impl SizeBuf {
    /// The buffer never holds more than its capacity.
    pub open spec fn wf(&self) -> bool {
        self@.data.len() <= self@.maxsize
    }

    pub fn new(maxsize: usize) -> (b: Self)
        ensures
            b.wf(),
            b@ == (SizeBufView { data: Seq::empty(), maxsize: maxsize as nat, allow_overflow: false, overflowed: false }),
    {
        SizeBuf { data: Vec::new(), maxsize, allow_overflow: false, overflowed: false }
    }

    pub fn with_overflow(self, allow: bool) -> (b: Self)
        requires
            self.wf(),
        ensures
            b.wf(),
            b@ == (SizeBufView { allow_overflow: allow, ..self@ }),
    {
        let mut s = self;
        s.allow_overflow = allow;
        s
    }

    pub fn clear(&mut self)
        requires
            old(self).wf(),
        ensures
            final(self).wf(),
            final(self)@ == (SizeBufView { data: Seq::empty(), overflowed: false, ..old(self)@ }),
    {
        self.data.clear();
        self.overflowed = false;
    }

    pub fn is_overflowed(&self) -> (r: bool)
        ensures
            r == self@.overflowed,
    {
        self.overflowed
    }

    pub fn len(&self) -> (r: usize)
        ensures
            r == self@.data.len(),
    {
        self.data.len()
    }

    pub fn maxsize(&self) -> (r: usize)
        ensures
            r == self@.maxsize,
    {
        self.maxsize
    }

    pub fn as_slice(&self) -> (r: &[u8])
        ensures
            r@ == self@.data,
    {
        self.data.as_slice()
    }

    /// Overwrites one byte already written; an index past the end is refused.
    pub fn set_u8(&mut self, index: usize, value: u8) -> (r: Result<(), SizeBufError>)
        requires
            old(self).wf(),
        ensures
            final(self).wf(),
            index < old(self)@.data.len() ==> r is Ok && final(self)@ == (SizeBufView {
                data: old(self)@.data.update(index as int, value),
                ..old(self)@
            }),
            index >= old(self)@.data.len() ==> r == Err::<(), SizeBufError>(SizeBufError::Overflow)
                && final(self)@ == old(self)@,
    {
        if index >= self.data.len() {
            return Err(SizeBufError::Overflow);
        }
        self.data.set(index, value);
        Ok(())
    }

    /// Makes room for `length` more bytes, as a write of that many zeros
    /// would, and gives the offset at which they start.
    fn get_space(&mut self, length: usize) -> (r: Result<usize, SizeBufError>)
        requires
            old(self).wf(),
        ensures
            final(self).wf(),
            final(self)@ == spec_write(old(self)@, Seq::new(length as nat, |k: int| 0u8)).0,
            match r {
                Ok(start) => spec_write(old(self)@, Seq::new(length as nat, |k: int| 0u8)).1 is Ok
                    && start + length == final(self)@.data.len(),
                Err(e) => spec_write(old(self)@, Seq::new(length as nat, |k: int| 0u8)).1 == Err::<(), SizeBufError>(e),
            },
    {
        let ghost zeros = Seq::new(length as nat, |k: int| 0u8);
        let fits = length <= self.maxsize - self.data.len();
        if !fits {
            if !self.allow_overflow {
                return Err(SizeBufError::Overflow);
            }
            if length > self.maxsize {
                return Err(SizeBufError::TooLarge);
            }
            self.data.clear();
            self.overflowed = true;
        }
        let start = self.data.len();
        let ghost before = self.data@;
        let mut i: usize = 0;
        while i < length
            invariant
                self.data@ == before + zeros.take(i as int),
                before.len() == start,
                start + length <= self.maxsize,
                zeros == Seq::new(length as nat, |k: int| 0u8),
                i <= length,
                self.maxsize == old(self).maxsize,
                self.allow_overflow == old(self).allow_overflow,
                before == (if fits { old(self).data@ } else { Seq::<u8>::empty() }),
                self.overflowed == (if fits { old(self).overflowed } else { true }),
            decreases length - i,
        {
            self.data.push(0u8);
            assert(zeros.take(i as int).push(0u8) =~= zeros.take(i + 1));
            i = i + 1;
        }
        assert(zeros.take(length as int) =~= zeros);
        Ok(start)
    }

    /// Appends `bytes`, as `spec_write` says.
    pub fn write_bytes(&mut self, bytes: &[u8]) -> (r: Result<(), SizeBufError>)
        requires
            old(self).wf(),
        ensures
            final(self).wf(),
            (final(self)@, r) == spec_write(old(self)@, bytes@),
    {
        let ghost zeros = Seq::new(bytes@.len(), |k: int| 0u8);
        let start = self.get_space(bytes.len())?;
        let ghost base = self.data@.subrange(0, start as int);
        assert(self.data@ =~= base + zeros);
        assert(base =~= (if old(self)@.data.len() + bytes@.len() <= old(self)@.maxsize { old(self)@.data } else { Seq::<u8>::empty() }));
        let mut i: usize = 0;
        while i < bytes.len()
            invariant
                start + bytes@.len() == self.data@.len(),
                self.data@.len() <= self.maxsize,
                self.data@.subrange(0, start as int) == base,
                forall|k: int| 0 <= k < i ==> #[trigger] self.data@[start + k] == bytes@[k],
                forall|k: int| i <= k < bytes@.len() ==> #[trigger] self.data@[start + k] == 0u8,
                i <= bytes@.len(),
                self.maxsize == spec_write(old(self)@, zeros).0.maxsize,
                self.allow_overflow == spec_write(old(self)@, zeros).0.allow_overflow,
                self.overflowed == spec_write(old(self)@, zeros).0.overflowed,
            decreases bytes@.len() - i,
        {
            self.data.set(start + i, bytes[i]);
            assert(self.data@.subrange(0, start as int) =~= base);
            i = i + 1;
        }
        assert forall|k: int| 0 <= k < start implies #[trigger] self.data@[k] == base[k] by {
            assert(self.data@.subrange(0, start as int)[k] == self.data@[k]);
        }
        assert forall|k: int| start <= k < self.data@.len() implies #[trigger] self.data@[k] == bytes@[k - start] by {
            assert(self.data@[start + (k - start)] == bytes@[k - start]);
        }
        assert(self.data@ =~= base + bytes@);
        Ok(())
    }

    pub fn write_i8(&mut self, value: i8) -> (r: Result<(), SizeBufError>)
        requires
            old(self).wf(),
        ensures
            final(self).wf(),
            (final(self)@, r) == spec_write(old(self)@, seq![value as u8]),
    {
        let b = [value as u8];
        assert(b@ =~= seq![value as u8]);
        self.write_bytes(&b)
    }

    pub fn write_u8(&mut self, value: u8) -> (r: Result<(), SizeBufError>)
        requires
            old(self).wf(),
        ensures
            final(self).wf(),
            (final(self)@, r) == spec_write(old(self)@, seq![value]),
    {
        let b = [value];
        assert(b@ =~= seq![value]);
        self.write_bytes(&b)
    }

    pub fn write_i16(&mut self, value: i16) -> (r: Result<(), SizeBufError>)
        requires
            old(self).wf(),
        ensures
            final(self).wf(),
            (final(self)@, r) == spec_write(old(self)@, le_u16(value as u16)),
    {
        let b = u16_to_le(value as u16);
        self.write_bytes(&b)
    }

    pub fn write_u16(&mut self, value: u16) -> (r: Result<(), SizeBufError>)
        requires
            old(self).wf(),
        ensures
            final(self).wf(),
            (final(self)@, r) == spec_write(old(self)@, le_u16(value)),
    {
        let b = u16_to_le(value);
        self.write_bytes(&b)
    }

    pub fn write_i32(&mut self, value: i32) -> (r: Result<(), SizeBufError>)
        requires
            old(self).wf(),
        ensures
            final(self).wf(),
            (final(self)@, r) == spec_write(old(self)@, le_u32(value as u32)),
    {
        let b = u32_to_le(value as u32);
        self.write_bytes(&b)
    }

    pub fn write_u32(&mut self, value: u32) -> (r: Result<(), SizeBufError>)
        requires
            old(self).wf(),
        ensures
            final(self).wf(),
            (final(self)@, r) == spec_write(old(self)@, le_u32(value)),
    {
        let b = u32_to_le(value);
        self.write_bytes(&b)
    }

    /// Writes `text` and a terminating zero, or only the zero for `None`.
    /// The two writes go one after the other, as `spec_write` says of each.
    pub fn write_string(&mut self, value: Option<&str>) -> (r: Result<(), SizeBufError>)
        requires
            old(self).wf(),
        ensures
            final(self).wf(),
            match value {
                Some(text) => {
                    let first = spec_write(old(self)@, text.spec_bytes());
                    if first.1 is Err {
                        (final(self)@, r) == first
                    } else {
                        (final(self)@, r) == spec_write(first.0, seq![0u8])
                    }
                },
                None => (final(self)@, r) == spec_write(old(self)@, seq![0u8]),
            },
    {
        match value {
            Some(text) => {
                let r1 = self.write_bytes(text.as_bytes());
                if r1.is_err() {
                    return r1;
                }
                self.write_u8(0)
            },
            None => self.write_u8(0),
        }
    }
}

#[derive(Debug, PartialEq, Eq, Clone, Copy)]
pub enum MsgReadError {
    Eof,
}

/// A reader over a received message: the bytes, how far it has read, and
/// whether a read has run past the end.
#[derive(Debug)]
pub struct MsgReader<'a> {
    data: &'a [u8],
    cursor: usize,
    bad_read: bool,
}

/// Position of the first zero byte of `s` at or after `i`, or the length of
/// `s` where there is none.
pub open spec fn zero_from(s: Seq<u8>, i: int) -> int
    decreases s.len() - i,
{
    if i >= s.len() {
        s.len() as int
    } else if s[i] == 0 {
        i
    } else {
        zero_from(s, i + 1)
    }
}

/// Position of the first zero or newline byte of `s` at or after `i`, or
/// the length of `s` where there is none.
pub open spec fn line_end_from(s: Seq<u8>, i: int) -> int
    decreases s.len() - i,
{
    if i >= s.len() {
        s.len() as int
    } else if s[i] == 0 || s[i] == 10 {
        i
    } else {
        line_end_from(s, i + 1)
    }
}

pub proof fn lemma_zero_from_bounds(s: Seq<u8>, i: int)
    requires
        0 <= i <= s.len(),
    ensures
        i <= zero_from(s, i) <= s.len(),
        zero_from(s, i) < s.len() ==> s[zero_from(s, i)] == 0,
        forall|j: int| i <= j < zero_from(s, i) ==> s[j] != 0,
    decreases s.len() - i,
{
    if i < s.len() && s[i] != 0 {
        lemma_zero_from_bounds(s, i + 1);
    }
}

pub proof fn lemma_line_end_from_bounds(s: Seq<u8>, i: int)
    requires
        0 <= i <= s.len(),
    ensures
        i <= line_end_from(s, i) <= s.len(),
        line_end_from(s, i) < s.len() ==> (s[line_end_from(s, i)] == 0 || s[line_end_from(s, i)] == 10),
        forall|j: int| i <= j < line_end_from(s, i) ==> s[j] != 0 && s[j] != 10,
    decreases s.len() - i,
{
    if i < s.len() && s[i] != 0 && s[i] != 10 {
        lemma_line_end_from_bounds(s, i + 1);
    }
}

impl<'a> MsgReader<'a> {
    /// The bytes being read.
    pub closed spec fn data(&self) -> Seq<u8> {
        self.data@
    }

    /// How many bytes have been read.
    pub closed spec fn cursor(&self) -> int {
        self.cursor as int
    }

    /// Whether a read has failed.
    pub closed spec fn spec_bad_read(&self) -> bool {
        self.bad_read
    }

    /// The cursor never passes the end of the data.
    pub open spec fn wf(&self) -> bool {
        0 <= self.cursor() <= self.data().len()
    }

    /// A successful read of `n` bytes: the cursor moved by `n`, the rest is
    /// unchanged.
    pub open spec fn advanced(&self, old: &Self, n: int) -> bool {
        &&& self.wf()
        &&& self.data() == old.data()
        &&& self.cursor() == old.cursor() + n
        &&& self.spec_bad_read() == old.spec_bad_read()
    }

    /// A failed read: the cursor is at the end and the reader is marked bad.
    pub open spec fn failed(&self, old: &Self) -> bool {
        &&& self.wf()
        &&& self.data() == old.data()
        &&& self.cursor() == old.data().len()
        &&& self.spec_bad_read()
    }

    /// The byte at offset `k` from the cursor.
    pub open spec fn peek(&self, k: int) -> u8 {
        self.data()[self.cursor() + k]
    }

    /// Whether `n` more bytes can be read.
    pub open spec fn has(&self, n: int) -> bool {
        self.cursor() + n <= self.data().len()
    }

    pub fn new(data: &'a [u8]) -> (r: Self)
        ensures
            r.wf(),
            r.data() == data@,
            r.cursor() == 0,
            !r.spec_bad_read(),
    {
        MsgReader { data, cursor: 0, bad_read: false }
    }

    pub fn bad_read(&self) -> (r: bool)
        ensures
            r == self.spec_bad_read(),
    {
        self.bad_read
    }

    pub fn remaining(&self) -> (r: usize)
        requires
            self.wf(),
        ensures
            r == self.data().len() - self.cursor(),
    {
        self.data.len() - self.cursor
    }

    /// The next `count` bytes. A read past the end leaves the cursor where it
    /// was; the public readers below say what they leave.
    fn take(&mut self, count: usize) -> (r: Result<&'a [u8], MsgReadError>)
        requires
            old(self).wf(),
        ensures
            final(self).wf(),
            final(self).data() == old(self).data(),
            old(self).has(count as int) ==> {
                &&& r is Ok
                &&& r.unwrap()@ == old(self).data().subrange(old(self).cursor(), old(self).cursor() + count)
                &&& final(self).cursor() == old(self).cursor() + count
                &&& final(self).spec_bad_read() == old(self).spec_bad_read()
            },
            !old(self).has(count as int) ==> {
                &&& r == Err::<&[u8], MsgReadError>(MsgReadError::Eof)
                &&& final(self).cursor() == old(self).cursor()
                &&& final(self).spec_bad_read()
            },
    {
        if count > self.data.len() - self.cursor {
            self.bad_read = true;
            return Err(MsgReadError::Eof);
        }
        let start = self.cursor;
        self.cursor = self.cursor + count;
        Ok(&self.data[start..start + count])
    }

    pub fn read_i8(&mut self) -> (r: Result<i8, MsgReadError>)
        requires
            old(self).wf(),
        ensures
            old(self).has(1) ==> r == Ok::<i8, MsgReadError>(old(self).peek(0) as i8)
                && final(self).advanced(old(self), 1),
            !old(self).has(1) ==> r == Err::<i8, MsgReadError>(MsgReadError::Eof)
                && final(self).failed(old(self)),
    {
        let b = self.take(1)?;
        Ok(b[0] as i8)
    }

    pub fn read_u8(&mut self) -> (r: Result<u8, MsgReadError>)
        requires
            old(self).wf(),
        ensures
            old(self).has(1) ==> r == Ok::<u8, MsgReadError>(old(self).peek(0))
                && final(self).advanced(old(self), 1),
            !old(self).has(1) ==> r == Err::<u8, MsgReadError>(MsgReadError::Eof)
                && final(self).failed(old(self)),
    {
        let b = self.take(1)?;
        Ok(b[0])
    }

    /// A failed read of a wider value: the cursor does not move.
    pub open spec fn refused(&self, old: &Self) -> bool {
        &&& self.wf()
        &&& self.data() == old.data()
        &&& self.cursor() == old.cursor()
        &&& self.spec_bad_read()
    }

    pub fn read_u16(&mut self) -> (r: Result<u16, MsgReadError>)
        requires
            old(self).wf(),
        ensures
            old(self).has(2) ==> r == Ok::<u16, MsgReadError>(u16_at(old(self).data(), old(self).cursor()))
                && final(self).advanced(old(self), 2),
            !old(self).has(2) ==> r == Err::<u16, MsgReadError>(MsgReadError::Eof)
                && final(self).refused(old(self)),
    {
        let b = self.take(2)?;
        Ok(read_u16_at(b, 0))
    }

    pub fn read_i16(&mut self) -> (r: Result<i16, MsgReadError>)
        requires
            old(self).wf(),
        ensures
            old(self).has(2) ==> r == Ok::<i16, MsgReadError>(u16_at(old(self).data(), old(self).cursor()) as i16)
                && final(self).advanced(old(self), 2),
            !old(self).has(2) ==> r == Err::<i16, MsgReadError>(MsgReadError::Eof)
                && final(self).refused(old(self)),
    {
        let v = self.read_u16()?;
        Ok(v as i16)
    }

    pub fn read_u32(&mut self) -> (r: Result<u32, MsgReadError>)
        requires
            old(self).wf(),
        ensures
            old(self).has(4) ==> r == Ok::<u32, MsgReadError>(u32_at(old(self).data(), old(self).cursor()))
                && final(self).advanced(old(self), 4),
            !old(self).has(4) ==> r == Err::<u32, MsgReadError>(MsgReadError::Eof)
                && final(self).refused(old(self)),
    {
        let b = self.take(4)?;
        Ok(read_u32_at(b, 0))
    }

    pub fn read_i32(&mut self) -> (r: Result<i32, MsgReadError>)
        requires
            old(self).wf(),
        ensures
            old(self).has(4) ==> r == Ok::<i32, MsgReadError>(u32_at(old(self).data(), old(self).cursor()) as i32)
                && final(self).advanced(old(self), 4),
            !old(self).has(4) ==> r == Err::<i32, MsgReadError>(MsgReadError::Eof)
                && final(self).refused(old(self)),
    {
        let v = self.read_u32()?;
        Ok(v as i32)
    }

    /// Reads up to the next zero byte and gives the bytes before it, decoded
    /// as text; a message that ends first is an error.
    pub fn read_string(&mut self) -> (r: Result<String, MsgReadError>)
        requires
            old(self).wf(),
        ensures
            ({
                let d = old(self).data();
                let z = zero_from(d, old(self).cursor());
                if z < d.len() {
                    &&& r is Ok
                    &&& r.unwrap()@ == lossy_text(d.subrange(old(self).cursor(), z))
                    &&& final(self).advanced(old(self), z - old(self).cursor() + 1)
                } else {
                    &&& r == Err::<String, MsgReadError>(MsgReadError::Eof)
                    &&& final(self).failed(old(self))
                }
            }),
    {
        self.read_until(false)
    }

    /// Reads up to the next zero or newline byte, as `read_string` does.
    pub fn read_string_line(&mut self) -> (r: Result<String, MsgReadError>)
        requires
            old(self).wf(),
        ensures
            ({
                let d = old(self).data();
                let z = line_end_from(d, old(self).cursor());
                if z < d.len() {
                    &&& r is Ok
                    &&& r.unwrap()@ == lossy_text(d.subrange(old(self).cursor(), z))
                    &&& final(self).advanced(old(self), z - old(self).cursor() + 1)
                } else {
                    &&& r == Err::<String, MsgReadError>(MsgReadError::Eof)
                    &&& final(self).failed(old(self))
                }
            }),
    {
        self.read_until(true)
    }

    fn read_until(&mut self, newline: bool) -> (r: Result<String, MsgReadError>)
        requires
            old(self).wf(),
        ensures
            ({
                let d = old(self).data();
                let z = if newline { line_end_from(d, old(self).cursor()) } else { zero_from(d, old(self).cursor()) };
                if z < d.len() {
                    &&& r is Ok
                    &&& r.unwrap()@ == lossy_text(d.subrange(old(self).cursor(), z))
                    &&& final(self).advanced(old(self), z - old(self).cursor() + 1)
                } else {
                    &&& r == Err::<String, MsgReadError>(MsgReadError::Eof)
                    &&& final(self).failed(old(self))
                }
            }),
    {
        let ghost d = self.data@;
        let ghost start = self.cursor as int;
        let ghost z = if newline { line_end_from(d, start) } else { zero_from(d, start) };
        proof {
            lemma_zero_from_bounds(d, start);
            lemma_line_end_from_bounds(d, start);
        }
        let mut out: Vec<u8> = Vec::new();
        loop
            invariant_except_break
                self.wf(),
                self.data@ == d,
                0 <= start <= self.cursor <= z,
                z == (if newline { line_end_from(d, start) } else { zero_from(d, start) }),
                start <= z <= d.len(),
                z < d.len() ==> (if newline { d[z] == 0 || d[z] == 10 } else { d[z] == 0 }),
                forall|j: int| start <= j < z ==> d[j] != 0 && (newline ==> d[j] != 10),
                out@ == d.subrange(start, self.cursor as int),
                self.bad_read == old(self).bad_read,
                d == old(self).data@,
                start == old(self).cursor,
            ensures
                self.wf(),
                self.data@ == d,
                z < d.len(),
                self.cursor == z + 1,
                out@ == d.subrange(start, z),
                self.bad_read == old(self).bad_read,
                d == old(self).data@,
                start == old(self).cursor,
            decreases d.len() - self.cursor,
        {
            if self.cursor >= self.data.len() {
                self.bad_read = true;
                assert(z == d.len());
                assert(self.cursor() == d.len());
                assert(d == old(self).data());
                assert(start == old(self).cursor());
                assert(self.failed(old(self)));
                return Err(MsgReadError::Eof);
            }
            let b = self.data[self.cursor];
            if b == 0 || (newline && b == 10) {
                self.cursor = self.cursor + 1;
                break;
            }
            let ghost c0 = self.cursor as int;
            assert(d[c0] == b);
            assert(c0 < z);
            assert(out@ == d.subrange(start, c0));
            self.cursor = self.cursor + 1;
            assert(self.cursor as int == c0 + 1);
            assert(c0 + 1 <= d.len());
            let ghost prev = out@;
            out.push(b);
            assert(out@ == prev.push(b));
            assert(prev.push(b) =~= d.subrange(start, c0 + 1));
        }
        Ok(string_from_utf8_lossy(&out))
    }
}

/// The buffer after writing each of `parts` in turn, stopping at the first
/// write refused.
pub open spec fn write_all(b: SizeBufView, parts: Seq<Seq<u8>>) -> (SizeBufView, Result<(), SizeBufError>)
    decreases parts.len(),
{
    if parts.len() == 0 {
        (b, Ok(()))
    } else {
        let r = spec_write(b, parts[0]);
        if r.1 is Err {
            r
        } else {
            write_all(r.0, parts.drop_first())
        }
    }
}

/// The parts one after the other.
pub open spec fn concat_parts(parts: Seq<Seq<u8>>) -> Seq<u8>
    decreases parts.len(),
{
    if parts.len() == 0 {
        Seq::empty()
    } else {
        parts[0] + concat_parts(parts.drop_first())
    }
}

/// Writes that fit together all succeed and append their bytes.
pub proof fn lemma_write_all_fits(b: SizeBufView, parts: Seq<Seq<u8>>)
    requires
        b.data.len() + concat_parts(parts).len() <= b.maxsize,
    ensures
        write_all(b, parts) == (SizeBufView { data: b.data + concat_parts(parts), ..b }, Ok::<(), SizeBufError>(())),
    decreases parts.len(),
{
    if parts.len() == 0 {
        assert(b.data + concat_parts(parts) =~= b.data);
    } else {
        let r = spec_write(b, parts[0]);
        lemma_write_all_fits(r.0, parts.drop_first());
        assert(b.data + parts[0] + concat_parts(parts.drop_first()) =~= b.data + concat_parts(parts));
    }
}

/// The UTF-8 encoding of text without NUL characters has no zero byte.
pub proof fn lemma_encode_no_zero(text: Seq<char>)
    requires
        !text.contains('\0'),
    ensures
        forall|i: int| 0 <= i < vstd::utf8::encode_utf8(text).len() ==> #[trigger] vstd::utf8::encode_utf8(text)[i] != 0,
    decreases text.len(),
{
    if text.len() > 0 {
        let rest = text.drop_first();
        assert(!rest.contains('\0')) by {
            if rest.contains('\0') {
                let k = choose|k: int| 0 <= k < rest.len() && rest[k] == '\0';
                assert(text[k + 1] == '\0');
            }
        }
        lemma_encode_no_zero(rest);
        let c = text[0] as u32;
        vstd::utf8::char_u32_cast(text[0], c);
        assert(c != 0) by {
            if c == 0 {
                assert((0u32 as char) == '\0');
            }
        }
        vstd::utf8::char_is_scalar(text[0]);
        let head = vstd::utf8::encode_scalar(c);
        assert forall|i: int| 0 <= i < head.len() implies #[trigger] head[i] != 0 by {
            if vstd::utf8::has_width_1_encoding(c) {
                assert((c & 0x7f) as u8 != 0) by (bit_vector)
                    requires
                        c != 0,
                        c <= 0x7f,
                ;
            } else {
                assert(forall|x: u32| #![auto] (0xC0u8 | ((x >> 6) & 0x1F) as u8) != 0) by (bit_vector);
                assert(forall|x: u32| #![auto] (0xE0u8 | ((x >> 12) & 0x0F) as u8) != 0) by (bit_vector);
                assert(forall|x: u32| #![auto] (0xF0u8 | ((x >> 18) & 0x7) as u8) != 0) by (bit_vector);
                assert(forall|x: u32| #![auto] (0x80u8 | (x & 0x3F) as u8) != 0) by (bit_vector);
                assert(forall|x: u32| #![auto] (0x80u8 | ((x >> 6) & 0x3F) as u8) != 0) by (bit_vector);
                assert(forall|x: u32| #![auto] (0x80u8 | ((x >> 12) & 0x3F) as u8) != 0) by (bit_vector);
            }
        }
        let all = vstd::utf8::encode_utf8(text);
        assert(all == head + vstd::utf8::encode_utf8(rest));
        assert forall|i: int| 0 <= i < all.len() implies #[trigger] all[i] != 0 by {
            if i < head.len() {
                assert(all[i] == head[i]);
            } else {
                assert(all[i] == vstd::utf8::encode_utf8(rest)[i - head.len()]);
            }
        }
    }
}

/// Where a run of nonzero bytes ends in a zero, the search for a zero
/// stops there.
pub proof fn lemma_zero_at(d: Seq<u8>, c: int, e: int)
    requires
        0 <= c <= e < d.len(),
        d[e] == 0,
        forall|j: int| c <= j < e ==> d[j] != 0,
    ensures
        zero_from(d, c) == e,
    decreases e - c,
{
    if c < e {
        lemma_zero_at(d, c + 1, e);
    }
}

/// Bytes that are valid UTF-8 read back as the text they encode.
pub proof fn lemma_lossy_text_of_encoding(text: Seq<char>)
    ensures
        lossy_text(vstd::utf8::encode_utf8(text)) == text,
{
    vstd::utf8::encode_utf8_valid_utf8(text);
    vstd::utf8::encode_utf8_decode_utf8(text);
}

/// A string written to a message reads back as itself, whatever comes
/// before or after it, when it holds no NUL character: the reader stops
/// at the terminating zero and decodes the bytes before it.
pub proof fn law_string_round_trip(prefix: Seq<u8>, text: Seq<char>, rest: Seq<u8>)
    requires
        !text.contains('\0'),
    ensures
        ({
            let d = prefix + cstring_bytes(text) + rest;
            let z = zero_from(d, prefix.len() as int);
            &&& z == prefix.len() + vstd::utf8::encode_utf8(text).len()
            &&& z < d.len()
            &&& lossy_text(d.subrange(prefix.len() as int, z)) == text
        }),
{
    let enc = vstd::utf8::encode_utf8(text);
    let d = prefix + cstring_bytes(text) + rest;
    let c = prefix.len() as int;
    let e = c + enc.len();
    lemma_encode_no_zero(text);
    assert forall|j: int| c <= j < e implies d[j] != 0 by {
        assert(d[j] == enc[j - c]);
    }
    assert(d[e] == 0);
    lemma_zero_at(d, c, e);
    assert(d.subrange(c, e) =~= enc);
    lemma_lossy_text_of_encoding(text);
}

/// The bytes of each part.
pub open spec fn byte_parts(v: Seq<Vec<u8>>) -> Seq<Seq<u8>> {
    Seq::new(v.len(), |i: int| v[i]@)
}

/// Writes each part in turn, as `spec_write` says of each, stopping at
/// the first write refused.
pub fn write_parts(buf: &mut SizeBuf, parts: &Vec<Vec<u8>>) -> (r: Result<(), SizeBufError>)
    requires
        old(buf).wf(),
    ensures
        final(buf).wf(),
        (final(buf)@, r) == write_all(old(buf)@, byte_parts(parts@)),
{
    let ghost all = byte_parts(parts@);
    let mut i: usize = 0;
    assert(all.skip(0) =~= all);
    while i < parts.len()
        invariant
            buf.wf(),
            i <= parts@.len(),
            all == byte_parts(parts@),
            write_all(old(buf)@, all) == write_all(buf@, all.skip(i as int)),
        decreases parts@.len() - i,
    {
        assert(all.skip(i as int)[0] == parts@[i as int]@);
        assert(all.skip(i as int).drop_first() =~= all.skip(i + 1));
        match buf.write_bytes(parts[i].as_slice()) {
            Ok(()) => {},
            Err(e) => {
                return Err(e);
            },
        }
        i = i + 1;
    }
    assert(all.skip(i as int) =~= Seq::<Seq<u8>>::empty());
    Ok(())
}

} // verus!
