//! The byte cursor: a reader that walks a buffer and a writer that fills one,
//! each with a byte order that is chosen when it is made.

use vstd::prelude::*;
use crate::nbt::error::NbtError;
use crate::nbt::wire::{
    byte_from_i8, i16_bytes, i16_from_u16, i16_value, i32_bytes, i32_from_u32, i32_value,
    i64_bytes, i64_from_u64, i64_value, i8_byte, i8_from_byte, i8_value, lemma_value_of_2,
    lemma_value_of_4, lemma_value_of_8, nth_byte, u16_bytes, u16_from_bytes, u16_from_i16,
    u16_value, u32_bytes, u32_from_bytes, u32_from_i32, u32_value, u64_bytes, u64_from_bytes,
    u64_from_i64, u64_value, uint_bytes,
};

verus! {

/// The model of a reader: its byte order, its buffer, and how
/// many bytes of the buffer it has consumed.
pub struct ReaderView {
    pub little_endian: bool,
    pub bytes: Seq<u8>,
    pub position: int,
}

impl ReaderView {
    /// True if `n` bytes are left to read.
    pub open spec fn has(self, n: int) -> bool {
        0 <= self.position && self.position + n <= self.bytes.len()
    }

    /// How many bytes are left to read.
    pub open spec fn left(self) -> nat {
        if self.position <= self.bytes.len() {
            (self.bytes.len() - self.position) as nat
        } else {
            0
        }
    }

    /// The next `n` bytes.
    pub open spec fn next(self, n: int) -> Seq<u8> {
        self.bytes.subrange(self.position, self.position + n)
    }

    /// This reader after it has consumed `n` more bytes.
    pub open spec fn advance(self, n: int) -> ReaderView {
        ReaderView { position: self.position + n, ..self }
    }
}

/// A reader over a buffer of bytes. It never reads past the end of the
/// buffer: a read for which too few bytes are left fails and consumes
/// nothing.
pub struct NbtReader {
    little_endian: bool,
    bytes: Vec<u8>,
    ptr: usize,
}

impl View for NbtReader {
    type V = ReaderView;

    closed spec fn view(&self) -> ReaderView {
        ReaderView {
            little_endian: self.little_endian,
            bytes: self.bytes@,
            position: self.ptr as int,
        }
    }
}

impl NbtReader {
    #[verifier::type_invariant]
    spec fn in_bounds(&self) -> bool {
        self.ptr <= self.bytes@.len()
    }

    /// A reader at the start of `bytes`.
    pub fn new(little_endian: bool, bytes: Vec<u8>) -> (r: NbtReader)
        ensures
            r@ == (ReaderView { little_endian, bytes: bytes@, position: 0 }),
    {
        NbtReader { little_endian, bytes, ptr: 0 }
    }

    /// True if and only if the whole buffer has been consumed.
    pub fn read_all(&self) -> (done: bool)
        ensures
            done == (self@.position == self@.bytes.len()),
            0 <= self@.position <= self@.bytes.len(),
    {
        proof {
            use_type_invariant(self);
        }
        self.ptr >= self.bytes.len()
    }

    /// The byte order of this reader.
    pub fn little_endian(&self) -> (le: bool)
        ensures
            le == self@.little_endian,
    {
        self.little_endian
    }

    /// How many bytes have been consumed.
    pub fn position(&self) -> (p: usize)
        ensures
            p == self@.position,
            p <= self@.bytes.len(),
    {
        proof {
            use_type_invariant(self);
        }
        self.ptr
    }

    /// How many bytes are left.
    pub fn remaining(&self) -> (n: usize)
        ensures
            n == self@.bytes.len() - self@.position,
    {
        proof {
            use_type_invariant(self);
        }
        self.bytes.len() - self.ptr
    }

    /// Goes back to a position that the reader has already passed. A
    /// position that it has not reached yet is ignored.
    pub fn rewind(&mut self, position: usize)
        ensures
            position <= old(self)@.position ==> final(self)@ == (ReaderView {
                position: position as int,
                ..old(self)@
            }),
            position > old(self)@.position ==> final(self)@ == old(self)@,
    {
        proof {
            use_type_invariant(&*self);
        }
        if position <= self.ptr {
            self.ptr = position;
        }
    }

    /// Consumes one byte.
    pub fn next_byte(&mut self) -> (r: Result<u8, NbtError>)
        ensures
            match r {
                Ok(b) => old(self)@.has(1) && b == old(self)@.bytes[old(self)@.position]
                    && final(self)@ == old(self)@.advance(1),
                Err(e) => e == NbtError::UnexpectedEndOfInput && !old(self)@.has(1) && final(self)@
                    == old(self)@,
            },
            0 <= old(self)@.position <= old(self)@.bytes.len(),
    {
        proof {
            use_type_invariant(&*self);
        }
        if self.ptr >= self.bytes.len() {
            return Err(NbtError::UnexpectedEndOfInput);
        }
        let byte = self.bytes[self.ptr];
        self.ptr = self.ptr + 1;
        Ok(byte)
    }

    /// Consumes `N` bytes.
    pub fn next_bytes<const N: usize>(&mut self) -> (r: Result<[u8; N], NbtError>)
        ensures
            match r {
                Ok(a) => old(self)@.has(N as int) && a@ == old(self)@.next(N as int) && final(self)@
                    == old(self)@.advance(N as int),
                Err(e) => e == NbtError::UnexpectedEndOfInput && !old(self)@.has(N as int)
                    && final(self)@ == old(self)@,
            },
            0 <= old(self)@.position <= old(self)@.bytes.len(),
    {
        proof {
            use_type_invariant(&*self);
        }
        if self.bytes.len() - self.ptr < N {
            return Err(NbtError::UnexpectedEndOfInput);
        }
        let mut out = [0u8; N];
        let mut i: usize = 0;
        while i < N
            invariant
                i <= N,
                self.ptr + N <= self.bytes.len(),
                forall|j: int| 0 <= j < i ==> out@[j] == self.bytes@[self.ptr + j],
            decreases N - i,
        {
            out[i] = self.bytes[self.ptr + i];
            i = i + 1;
        }
        assert(out@ =~= self@.next(N as int));
        self.ptr = self.ptr + N;
        Ok(out)
    }

    /// Consumes `n` bytes.
    pub fn take_bytes(&mut self, n: usize) -> (r: Result<Vec<u8>, NbtError>)
        ensures
            match r {
                Ok(run) => old(self)@.has(n as int) && run@ == old(self)@.next(n as int)
                    && final(self)@ == old(self)@.advance(n as int),
                Err(e) => e == NbtError::UnexpectedEndOfInput && !old(self)@.has(n as int)
                    && final(self)@ == old(self)@,
            },
            0 <= old(self)@.position <= old(self)@.bytes.len(),
    {
        proof {
            use_type_invariant(&*self);
        }
        if self.bytes.len() - self.ptr < n {
            return Err(NbtError::UnexpectedEndOfInput);
        }
        let mut run: Vec<u8> = Vec::new();
        let mut i: usize = 0;
        while i < n
            invariant
                i <= n,
                self.ptr + n <= self.bytes.len(),
                run@.len() == i,
                forall|j: int| 0 <= j < i ==> run@[j] == self.bytes@[self.ptr + j],
            decreases n - i,
        {
            run.push(self.bytes[self.ptr + i]);
            i = i + 1;
        }
        assert(run@ =~= self@.next(n as int));
        self.ptr = self.ptr + n;
        Ok(run)
    }

    /// Consumes 2 bytes and reads them as a `u16` in this reader's byte
    /// order.
    pub fn u16_from_next_bytes(&mut self) -> (r: Result<u16, NbtError>)
        ensures
            match r {
                Ok(v) => old(self)@.has(2) && v == u16_value(
                    old(self)@.little_endian,
                    old(self)@.next(2),
                ) && final(self)@ == old(self)@.advance(2),
                Err(e) => e == NbtError::UnexpectedEndOfInput && !old(self)@.has(2) && final(self)@
                    == old(self)@,
            },
            0 <= old(self)@.position <= old(self)@.bytes.len(),
    {
        match self.next_bytes::<2>() {
            Ok(b) => Ok(u16_from_bytes(self.little_endian, b)),
            Err(e) => Err(e),
        }
    }

    /// Consumes 4 bytes and reads them as a `u32` in this reader's byte
    /// order.
    pub fn u32_from_next_bytes(&mut self) -> (r: Result<u32, NbtError>)
        ensures
            match r {
                Ok(v) => old(self)@.has(4) && v == u32_value(
                    old(self)@.little_endian,
                    old(self)@.next(4),
                ) && final(self)@ == old(self)@.advance(4),
                Err(e) => e == NbtError::UnexpectedEndOfInput && !old(self)@.has(4) && final(self)@
                    == old(self)@,
            },
            0 <= old(self)@.position <= old(self)@.bytes.len(),
    {
        match self.next_bytes::<4>() {
            Ok(b) => Ok(u32_from_bytes(self.little_endian, b)),
            Err(e) => Err(e),
        }
    }

    /// Consumes 8 bytes and reads them as a `u64` in this reader's byte
    /// order.
    pub fn u64_from_next_bytes(&mut self) -> (r: Result<u64, NbtError>)
        ensures
            match r {
                Ok(v) => old(self)@.has(8) && v == u64_value(
                    old(self)@.little_endian,
                    old(self)@.next(8),
                ) && final(self)@ == old(self)@.advance(8),
                Err(e) => e == NbtError::UnexpectedEndOfInput && !old(self)@.has(8) && final(self)@
                    == old(self)@,
            },
            0 <= old(self)@.position <= old(self)@.bytes.len(),
    {
        match self.next_bytes::<8>() {
            Ok(b) => Ok(u64_from_bytes(self.little_endian, b)),
            Err(e) => Err(e),
        }
    }

    /// Consumes one byte and reads it as a signed byte.
    pub fn i8_from_next_byte(&mut self) -> (r: Result<i8, NbtError>)
        ensures
            match r {
                Ok(v) => old(self)@.has(1) && v == i8_value(old(self)@.bytes[old(self)@.position])
                    && final(self)@ == old(self)@.advance(1),
                Err(e) => e == NbtError::UnexpectedEndOfInput && !old(self)@.has(1) && final(self)@
                    == old(self)@,
            },
            0 <= old(self)@.position <= old(self)@.bytes.len(),
    {
        match self.next_byte() {
            Ok(b) => Ok(i8_from_byte(b)),
            Err(e) => Err(e),
        }
    }

    /// Consumes 2 bytes and reads them as a `i16` in this reader's byte
    /// order.
    pub fn i16_from_next_bytes(&mut self) -> (r: Result<i16, NbtError>)
        ensures
            match r {
                Ok(v) => old(self)@.has(2) && v == i16_value(
                    old(self)@.little_endian,
                    old(self)@.next(2),
                ) && final(self)@ == old(self)@.advance(2),
                Err(e) => e == NbtError::UnexpectedEndOfInput && !old(self)@.has(2) && final(self)@
                    == old(self)@,
            },
            0 <= old(self)@.position <= old(self)@.bytes.len(),
    {
        match self.next_bytes::<2>() {
            Ok(b) => {
                proof {
                    lemma_value_of_2(self.little_endian, b@);
                }
                Ok(i16_from_u16(u16_from_bytes(self.little_endian, b)))
            },
            Err(e) => Err(e),
        }
    }

    /// Consumes 4 bytes and reads them as a `i32` in this reader's byte
    /// order.
    pub fn i32_from_next_bytes(&mut self) -> (r: Result<i32, NbtError>)
        ensures
            match r {
                Ok(v) => old(self)@.has(4) && v == i32_value(
                    old(self)@.little_endian,
                    old(self)@.next(4),
                ) && final(self)@ == old(self)@.advance(4),
                Err(e) => e == NbtError::UnexpectedEndOfInput && !old(self)@.has(4) && final(self)@
                    == old(self)@,
            },
            0 <= old(self)@.position <= old(self)@.bytes.len(),
    {
        match self.next_bytes::<4>() {
            Ok(b) => {
                proof {
                    lemma_value_of_4(self.little_endian, b@);
                }
                Ok(i32_from_u32(u32_from_bytes(self.little_endian, b)))
            },
            Err(e) => Err(e),
        }
    }

    /// Consumes 8 bytes and reads them as a `i64` in this reader's byte
    /// order.
    pub fn i64_from_next_bytes(&mut self) -> (r: Result<i64, NbtError>)
        ensures
            match r {
                Ok(v) => old(self)@.has(8) && v == i64_value(
                    old(self)@.little_endian,
                    old(self)@.next(8),
                ) && final(self)@ == old(self)@.advance(8),
                Err(e) => e == NbtError::UnexpectedEndOfInput && !old(self)@.has(8) && final(self)@
                    == old(self)@,
            },
            0 <= old(self)@.position <= old(self)@.bytes.len(),
    {
        match self.next_bytes::<8>() {
            Ok(b) => {
                proof {
                    lemma_value_of_8(self.little_endian, b@);
                }
                Ok(i64_from_u64(u64_from_bytes(self.little_endian, b)))
            },
            Err(e) => Err(e),
        }
    }
}

/// The model of a writer: its byte order and the bytes that
/// it has written so far.
pub struct WriterView {
    pub little_endian: bool,
    pub bytes: Seq<u8>,
}

impl WriterView {
    /// This writer after it has written `more`.
    pub open spec fn append(self, more: Seq<u8>) -> WriterView {
        WriterView { bytes: self.bytes + more, ..self }
    }
}

/// A writer that appends to a buffer of its own. Writing never fails.
pub struct NbtWriter {
    little_endian: bool,
    bytes: Vec<u8>,
}

impl View for NbtWriter {
    type V = WriterView;

    closed spec fn view(&self) -> WriterView {
        WriterView { little_endian: self.little_endian, bytes: self.bytes@ }
    }
}

impl NbtWriter {
    /// A writer that has written nothing yet.
    pub fn new(little_endian: bool) -> (w: NbtWriter)
        ensures
            w@ == (WriterView { little_endian, bytes: Seq::<u8>::empty() }),
    {
        NbtWriter { little_endian, bytes: Vec::new() }
    }

    /// The byte order of this writer.
    pub fn little_endian(&self) -> (le: bool)
        ensures
            le == self@.little_endian,
    {
        self.little_endian
    }

    /// The bytes that were written.
    pub fn into_bytes(self) -> (bytes: Vec<u8>)
        ensures
            bytes@ == self@.bytes,
    {
        self.bytes
    }

    /// Writes one byte.
    pub fn write(&mut self, byte: u8)
        ensures
            final(self)@ == old(self)@.append(seq![byte]),
    {
        self.bytes.push(byte);
        assert(self.bytes@ =~= old(self).bytes@ + seq![byte]);
    }

    /// Writes a run of bytes as it stands.
    pub fn write_bytes(&mut self, bytes: &[u8])
        ensures
            final(self)@ == old(self)@.append(bytes@),
    {
        let mut i: usize = 0;
        while i < bytes.len()
            invariant
                i <= bytes@.len(),
                self.little_endian == old(self).little_endian,
                self.bytes@ == old(self).bytes@ + bytes@.subrange(0, i as int),
            decreases bytes@.len() - i,
        {
            self.bytes.push(bytes[i]);
            assert(bytes@.subrange(0, i + 1) =~= bytes@.subrange(0, i as int).push(bytes@[i as int]));
            i = i + 1;
        }
        assert(bytes@.subrange(0, i as int) =~= bytes@);
    }

    /// Writes the `width` low bytes of `v` in this writer's byte order.
    fn write_uint(&mut self, v: u64, width: usize)
        requires
            width == 2 || width == 4 || width == 8,
        ensures
            final(self)@ == old(self)@.append(uint_bytes(old(self)@.little_endian, v as int, width as int)),
    {
        let mut i: usize = 0;
        while i < width
            invariant
                i <= width <= 8,
                self.little_endian == old(self).little_endian,
                self.bytes@ == old(self).bytes@ + uint_bytes(
                    self.little_endian,
                    v as int,
                    width as int,
                ).subrange(0, i as int),
            decreases width - i,
        {
            let place: usize = if self.little_endian {
                i
            } else {
                width - 1 - i
            };
            let b = nth_byte(v, place);
            self.bytes.push(b);
            assert(uint_bytes(self.little_endian, v as int, width as int).subrange(0, i + 1)
                =~= uint_bytes(self.little_endian, v as int, width as int).subrange(
                0,
                i as int,
            ).push(b));
            i = i + 1;
        }
        assert(uint_bytes(self.little_endian, v as int, width as int).subrange(0, width as int)
            =~= uint_bytes(self.little_endian, v as int, width as int));
    }

    /// Writes a `u16` in this writer's byte order.
    pub fn u16_write_to_bytes(&mut self, num: u16)
        ensures
            final(self)@ == old(self)@.append(u16_bytes(old(self)@.little_endian, num)),
    {
        self.write_uint(num as u64, 2);
    }

    /// Writes a `u32` in this writer's byte order.
    pub fn u32_write_to_bytes(&mut self, num: u32)
        ensures
            final(self)@ == old(self)@.append(u32_bytes(old(self)@.little_endian, num)),
    {
        self.write_uint(num as u64, 4);
    }

    /// Writes a `u64` in this writer's byte order.
    pub fn u64_write_to_bytes(&mut self, num: u64)
        ensures
            final(self)@ == old(self)@.append(u64_bytes(old(self)@.little_endian, num)),
    {
        self.write_uint(num, 8);
    }

    /// Writes a signed byte.
    pub fn i8_write_to_bytes(&mut self, num: i8)
        ensures
            final(self)@ == old(self)@.append(seq![i8_byte(num)]),
    {
        self.write(byte_from_i8(num));
    }

    /// Writes an `i16` in this writer's byte order.
    pub fn i16_write_to_bytes(&mut self, num: i16)
        ensures
            final(self)@ == old(self)@.append(i16_bytes(old(self)@.little_endian, num)),
    {
        self.write_uint(u16_from_i16(num) as u64, 2);
    }

    /// Writes an `i32` in this writer's byte order.
    pub fn i32_write_to_bytes(&mut self, num: i32)
        ensures
            final(self)@ == old(self)@.append(i32_bytes(old(self)@.little_endian, num)),
    {
        self.write_uint(u32_from_i32(num) as u64, 4);
    }

    /// Writes an `i64` in this writer's byte order.
    pub fn i64_write_to_bytes(&mut self, num: i64)
        ensures
            final(self)@ == old(self)@.append(i64_bytes(old(self)@.little_endian, num)),
    {
        self.write_uint(u64_from_i64(num), 8);
    }
}

} // verus!
