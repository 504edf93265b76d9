use vstd::prelude::*;

use crate::endian::{
    lemma_pow256_increases, lemma_pow256_values, lemma_le_word_value_snoc, lemma_word_value_bound,
    le_word_value, be_word_value, pow256, word_value, Endian,
};
use crate::error::Error;
use crate::leb128::{
    lemma_pow128_increases, lemma_pow128_values, lemma_leb_end_range, lemma_leb_end_skip,
    lemma_uleb_payload_snoc, leb_end, pow128, sleb_value, uleb_payload,
};

verus! {

/// The mathematical abstraction of a byte cursor: the whole underlying
/// buffer, the window `[start, end)` the cursor is scoped to, the current
/// read position inside that window, and the byte order of its fixed-width
/// reads.
pub ghost struct CursorModel {
    pub buf: Seq<u8>,
    pub start: int,
    pub pos: int,
    pub end: int,
    pub endian: Endian,
}

impl CursorModel {
    pub open spec fn wf(self) -> bool {
        0 <= self.start <= self.pos <= self.end <= self.buf.len() && self.end <= usize::MAX
    }

    /// How many bytes remain readable.
    pub open spec fn avail(self) -> int {
        self.end - self.pos
    }

    /// The same cursor, advanced by `n` bytes.
    pub open spec fn advanced(self, n: int) -> CursorModel {
        CursorModel {
            buf: self.buf,
            start: self.start,
            pos: self.pos + n,
            end: self.end,
            endian: self.endian,
        }
    }

    /// The same cursor, positioned at `p`.
    pub open spec fn with_pos(self, p: int) -> CursorModel {
        CursorModel { buf: self.buf, start: self.start, pos: p, end: self.end, endian: self.endian }
    }
}

/// Two cursor states that differ at most in their read position: every read
/// leaves the buffer, the window and the byte order untouched.
pub open spec fn same_window(a: CursorModel, b: CursorModel) -> bool {
    a.buf == b.buf && a.start == b.start && a.end == b.end && a.endian == b.endian
}

/// What reading one byte yields: the byte under the position, or failure on
/// an exhausted window.
pub open spec fn spec_read_u8(c: CursorModel) -> Result<(u8, CursorModel), Error> {
    if c.pos + 1 <= c.end {
        Ok((c.buf[c.pos], c.advanced(1)))
    } else {
        Err(Error::UnexpectedEndOfInput)
    }
}

/// What reading an `n`-byte fixed-width unsigned word yields.
pub open spec fn spec_read_word(c: CursorModel, n: int) -> Result<(u64, CursorModel), Error> {
    if 0 <= n && c.pos + n <= c.end {
        Ok((word_value(c.endian, c.buf.subrange(c.pos, c.pos + n)) as u64, c.advanced(n)))
    } else {
        Err(Error::UnexpectedEndOfInput)
    }
}

/// What reading an unsigned LEB128 integer yields.  The encoding must
/// terminate inside the window, span at most ten bytes, and carry a value
/// below 2^64; an empty window is end-of-input, every other failure is a
/// malformed variable-length integer.
pub open spec fn spec_read_uleb128(c: CursorModel) -> Result<(u64, CursorModel), Error> {
    let e = leb_end(c.buf, c.pos, c.end);
    if c.pos == c.end {
        Err(Error::UnexpectedEndOfInput)
    } else if e < 0 || e - c.pos > 10 {
        Err(Error::MalformedLeb128)
    } else if uleb_payload(c.buf.subrange(c.pos, e)) >= 0x1_0000_0000_0000_0000 {
        Err(Error::MalformedLeb128)
    } else {
        Ok((uleb_payload(c.buf.subrange(c.pos, e)) as u64, c.with_pos(e)))
    }
}

/// What reading a signed LEB128 integer yields: as for the unsigned read,
/// with the value sign-extended from bit 6 of the final byte and required to
/// fit an `i64`.
pub open spec fn spec_read_sleb128(c: CursorModel) -> Result<(i64, CursorModel), Error> {
    let e = leb_end(c.buf, c.pos, c.end);
    if c.pos == c.end {
        Err(Error::UnexpectedEndOfInput)
    } else if e < 0 || e - c.pos > 10 {
        Err(Error::MalformedLeb128)
    } else if sleb_value(c.buf.subrange(c.pos, e)) < -0x8000_0000_0000_0000
        || sleb_value(c.buf.subrange(c.pos, e)) > 0x7fff_ffff_ffff_ffff {
        Err(Error::MalformedLeb128)
    } else {
        Ok((sleb_value(c.buf.subrange(c.pos, e)) as i64, c.with_pos(e)))
    }
}

/// What reading `n` raw bytes yields.
pub open spec fn spec_read_bytes(c: CursorModel, n: int) -> Result<(Seq<u8>, CursorModel), Error> {
    if 0 <= n && c.pos + n <= c.end {
        Ok((c.buf.subrange(c.pos, c.pos + n), c.advanced(n)))
    } else {
        Err(Error::UnexpectedEndOfInput)
    }
}

/// The index of the first zero byte at or after `pos`, before `end`; `-1`
/// if none exists.
pub open spec fn first_nul(s: Seq<u8>, pos: int, end: int) -> int
    decreases end - pos,
{
    if pos < 0 || pos >= end || end > s.len() {
        -1
    } else if s[pos] == 0 {
        pos
    } else {
        first_nul(s, pos + 1, end)
    }
}

/// Skipping non-zero bytes does not move the first zero byte.
pub proof fn lemma_first_nul_skip(s: Seq<u8>, pos: int, p: int, end: int)
    requires
        0 <= pos <= p <= end <= s.len(),
        forall|k: int| pos <= k < p ==> s[k] != 0,
    ensures
        first_nul(s, pos, end) == first_nul(s, p, end),
    decreases p - pos,
{
    if pos < p {
        lemma_first_nul_skip(s, pos + 1, p, end);
    }
}

/// What reading a zero-terminated byte string yields: the bytes before the
/// terminator, with the cursor left one past the terminator.
pub open spec fn spec_read_null_terminated(c: CursorModel) -> Result<(Seq<u8>, CursorModel), Error> {
    let j = first_nul(c.buf, c.pos, c.end);
    if j < 0 {
        Err(Error::UnexpectedEndOfInput)
    } else {
        Ok((c.buf.subrange(c.pos, j), c.with_pos(j + 1)))
    }
}

/// An endian-aware, bounds-checked view over an immutable byte buffer.
///
/// A cursor never owns its bytes: it borrows them from the section that
/// holds them, so cursors are cheap to create and to copy, and copies share
/// the buffer while keeping independent read positions.  Every read either
/// consumes exactly the bytes of one value and advances the position by their
/// count, or fails without moving the position at all.
#[derive(Clone, Copy)]
pub struct Cursor<'a> {
    data: &'a Vec<u8>,
    start: usize,
    pos: usize,
    end: usize,
    endian: Endian,
}

impl<'a> View for Cursor<'a> {
    type V = CursorModel;

    closed spec fn view(&self) -> CursorModel {
        CursorModel {
            buf: self.data@,
            start: self.start as int,
            pos: self.pos as int,
            end: self.end as int,
            endian: self.endian,
        }
    }
}

impl<'a> Cursor<'a> {
    /// A cursor over the whole of `data`.
    pub fn new(data: &'a Vec<u8>, endian: Endian) -> (c: Cursor<'a>)
        ensures
            c@.wf(),
            c@ == (CursorModel {
                buf: data@,
                start: 0,
                pos: 0,
                end: data@.len() as int,
                endian,
            }),
    {
        Cursor { data, start: 0, pos: 0, end: data.len(), endian }
    }

    /// A cursor over `data` that begins at `offset` and reaches to the end.
    pub fn new_at(data: &'a Vec<u8>, offset: usize, endian: Endian) -> (c: Cursor<'a>)
        requires
            offset <= data@.len(),
        ensures
            c@.wf(),
            c@ == (CursorModel {
                buf: data@,
                start: offset as int,
                pos: offset as int,
                end: data@.len() as int,
                endian,
            }),
    {
        Cursor { data, start: offset, pos: offset, end: data.len(), endian }
    }

    /// The position relative to where this cursor began.
    pub fn offset(&self) -> (r: usize)
        requires
            self@.wf(),
        ensures
            r == self@.pos - self@.start,
    {
        self.pos - self.start
    }

    /// The absolute position within the underlying buffer.
    pub fn position(&self) -> (r: usize)
        ensures
            r == self@.pos,
    {
        self.pos
    }

    /// Whether no byte remains readable.
    pub fn is_empty(&self) -> (r: bool)
        requires
            self@.wf(),
        ensures
            r == (self@.avail() == 0),
    {
        self.pos == self.end
    }

    /// How many bytes remain readable.
    pub fn remaining_len(&self) -> (r: usize)
        requires
            self@.wf(),
        ensures
            r == self@.avail(),
    {
        self.end - self.pos
    }

    /// The byte order of this cursor's multi-byte reads.
    pub fn endianness(&self) -> (r: Endian)
        ensures
            r == self@.endian,
    {
        self.endian
    }

    /// Moves the position to `p`, an absolute position inside the window.
    pub fn seek(&mut self, p: usize)
        requires
            old(self)@.wf(),
            old(self)@.start <= p <= old(self)@.end,
        ensures
            final(self)@ == old(self)@.with_pos(p as int),
            final(self)@.wf(),
    {
        self.pos = p;
    }

    /// A new cursor over the next `n` bytes, sharing the buffer, scoped to
    /// `[pos, pos + n)` with its own offset starting at zero; this cursor
    /// itself does not move.
    pub fn sub_cursor(&self, n: usize) -> (r: Result<Cursor<'a>, Error>)
        requires
            self@.wf(),
        ensures
            match r {
                Ok(c) => self@.pos + n <= self@.end && c@.wf() && c@ == (CursorModel {
                    buf: self@.buf,
                    start: self@.pos,
                    pos: self@.pos,
                    end: self@.pos + n,
                    endian: self@.endian,
                }),
                Err(e) => e == Error::UnexpectedEndOfInput && self@.pos + n > self@.end,
            },
    {
        if n > self.end - self.pos {
            Err(Error::UnexpectedEndOfInput)
        } else {
            Ok(Cursor {
                data: self.data,
                start: self.pos,
                pos: self.pos,
                end: self.pos + n,
                endian: self.endian,
            })
        }
    }

    /// Reads one byte.
    pub fn read_u8(&mut self) -> (r: Result<u8, Error>)
        requires
            old(self)@.wf(),
        ensures
            final(self)@.wf(),
            same_window(old(self)@, final(self)@),
            match r {
                Ok(b) => spec_read_u8(old(self)@) == Ok::<_, Error>((b, final(self)@)),
                Err(e) => spec_read_u8(old(self)@) == Err::<(u8, CursorModel), _>(e) && final(self)@
                    == old(self)@,
            },
    {
        if self.pos < self.end {
            let b = self.data[self.pos];
            self.pos = self.pos + 1;
            Ok(b)
        } else {
            Err(Error::UnexpectedEndOfInput)
        }
    }

    /// Reads an `n`-byte unsigned word in this cursor's byte order.
    #[verifier::loop_isolation(false)]
    pub fn read_unsigned(&mut self, n: usize) -> (r: Result<u64, Error>)
        requires
            old(self)@.wf(),
            n <= 8,
        ensures
            final(self)@.wf(),
            same_window(old(self)@, final(self)@),
            match r {
                Ok(v) => spec_read_word(old(self)@, n as int) == Ok::<_, Error>((
                    v,
                    final(self)@,
                )),
                Err(e) => spec_read_word(old(self)@, n as int) == Err::<(u64, CursorModel), _>(e)
                    && final(self)@ == old(self)@,
            },
    {
        if n > self.end - self.pos {
            return Err(Error::UnexpectedEndOfInput);
        }
        let ghost c0 = self@;
        let base = self.pos;
        proof {
            lemma_pow256_values();
        }
        match self.endian {
            Endian::Little => {
                let mut acc: u128 = 0;
                let mut factor: u128 = 1;
                let mut i: usize = 0;
                while i < n
                    invariant
                        self@.wf(),
                        same_window(c0, self@),
                        c0.wf(),
                        base == c0.pos,
                        base + n <= c0.end,
                        self@.pos == base + i,
                        i <= n <= 8,
                        c0.endian == Endian::Little,
                        acc == le_word_value(c0.buf.subrange(base as int, base + i)),
                        factor == pow256(i as nat),
                        acc < factor,
                    decreases n - i,
                {
                    let b = self.data[self.pos];
                    proof {
                        let pre = c0.buf.subrange(base as int, base + i);
                        lemma_le_word_value_snoc(pre, b);
                        assert(c0.buf.subrange(base as int, base + i + 1) =~= pre.push(b));
                        lemma_pow256_values();
                        lemma_pow256_increases(i as nat, 8);
                        lemma_pow256_increases((i + 1) as nat, 8);
                        assert(factor * (b as u128) <= factor * 255) by (nonlinear_arith)
                            requires
                                b <= 255,
                                factor >= 0,
                        ;
                    }
                    acc = acc + factor * (b as u128);
                    factor = factor * 256;
                    self.pos = self.pos + 1;
                    i = i + 1;
                }
                proof {
                    lemma_word_value_bound(Endian::Little, c0.buf.subrange(base as int, base + n));
                    lemma_pow256_increases(n as nat, 8);
                }
                Ok(acc as u64)
            },
            Endian::Big => {
                let mut acc: u64 = 0;
                let mut i: usize = 0;
                while i < n
                    invariant
                        self@.wf(),
                        same_window(c0, self@),
                        c0.wf(),
                        base == c0.pos,
                        base + n <= c0.end,
                        self@.pos == base + i,
                        i <= n <= 8,
                        c0.endian == Endian::Big,
                        acc == be_word_value(c0.buf.subrange(base as int, base + i)),
                        acc < pow256(i as nat),
                    decreases n - i,
                {
                    let b = self.data[self.pos];
                    proof {
                        let post = c0.buf.subrange(base as int, base + i + 1);
                        assert(post.take(post.len() - 1) =~= c0.buf.subrange(base as int, base + i));
                        assert(post.last() == b);
                        lemma_pow256_values();
                        lemma_pow256_increases(i as nat, 8);
                        lemma_pow256_increases((i + 1) as nat, 8);
                    }
                    acc = acc * 256 + (b as u64);
                    self.pos = self.pos + 1;
                    i = i + 1;
                }
                proof {
                    lemma_word_value_bound(Endian::Big, c0.buf.subrange(base as int, base + n));
                    lemma_pow256_increases(n as nat, 8);
                }
                Ok(acc)
            },
        }
    }

    /// Reads a two-byte unsigned word.
    pub fn read_u16(&mut self) -> (r: Result<u16, Error>)
        requires
            old(self)@.wf(),
        ensures
            final(self)@.wf(),
            same_window(old(self)@, final(self)@),
            match r {
                Ok(v) => spec_read_word(old(self)@, 2) == Ok::<_, Error>((
                    v as u64,
                    final(self)@,
                )),
                Err(e) => spec_read_word(old(self)@, 2) == Err::<(u64, CursorModel), _>(e) && final(self)@ == old(self)@,
            },
    {
        let ghost c0 = self@;
        match self.read_unsigned(2) {
            Ok(v) => {
                proof {
                    lemma_word_value_bound(c0.endian, c0.buf.subrange(c0.pos, c0.pos + 2));
                    lemma_pow256_values();
                }
                Ok(v as u16)
            },
            Err(e) => Err(e),
        }
    }

    /// Reads a four-byte unsigned word.
    pub fn read_u32(&mut self) -> (r: Result<u32, Error>)
        requires
            old(self)@.wf(),
        ensures
            final(self)@.wf(),
            same_window(old(self)@, final(self)@),
            match r {
                Ok(v) => spec_read_word(old(self)@, 4) == Ok::<_, Error>((
                    v as u64,
                    final(self)@,
                )),
                Err(e) => spec_read_word(old(self)@, 4) == Err::<(u64, CursorModel), _>(e) && final(self)@ == old(self)@,
            },
    {
        let ghost c0 = self@;
        match self.read_unsigned(4) {
            Ok(v) => {
                proof {
                    lemma_word_value_bound(c0.endian, c0.buf.subrange(c0.pos, c0.pos + 4));
                    lemma_pow256_values();
                }
                Ok(v as u32)
            },
            Err(e) => Err(e),
        }
    }

    /// Reads an eight-byte unsigned word.
    pub fn read_u64(&mut self) -> (r: Result<u64, Error>)
        requires
            old(self)@.wf(),
        ensures
            final(self)@.wf(),
            same_window(old(self)@, final(self)@),
            match r {
                Ok(v) => spec_read_word(old(self)@, 8) == Ok::<_, Error>((v, final(self)@)),
                Err(e) => spec_read_word(old(self)@, 8) == Err::<(u64, CursorModel), _>(e) && final(self)@ == old(self)@,
            },
    {
        self.read_unsigned(8)
    }

    /// Reads an unsigned LEB128 integer.
    #[verifier::loop_isolation(false)]
    pub fn read_uleb128(&mut self) -> (r: Result<u64, Error>)
        requires
            old(self)@.wf(),
        ensures
            final(self)@.wf(),
            same_window(old(self)@, final(self)@),
            match r {
                Ok(v) => spec_read_uleb128(old(self)@) == Ok::<_, Error>((v, final(self)@)),
                Err(e) => spec_read_uleb128(old(self)@) == Err::<(u64, CursorModel), _>(e)
                    && final(self)@ == old(self)@,
            },
            r is Ok ==> old(self)@.pos < final(self)@.pos <= old(self)@.end,
    {
        let ghost c0 = self@;
        let base = self.pos;
        let mut raw: u128 = 0;
        let mut factor: u128 = 1;
        let mut count: usize = 0;
        proof {
            lemma_pow128_values();
        }
        loop
            invariant
                self@.wf(),
                same_window(c0, self@),
                c0.wf(),
                base == c0.pos,
                self@.pos == base + count,
                count <= 10,
                base + count <= c0.end,
                forall|k: int| base <= k < base + count ==> c0.buf[k] >= 0x80,
                raw == uleb_payload(c0.buf.subrange(base as int, base + count)),
                factor == pow128(count as nat),
                raw < factor,
            decreases 10 - count,
        {
            if count == 10 {
                proof {
                    lemma_leb_end_skip(c0.buf, base as int, base + 10, c0.end);
                    lemma_leb_end_range(c0.buf, base + 10, c0.end);
                }
                self.pos = base;
                return Err(Error::MalformedLeb128);
            }
            if self.pos == self.end {
                proof {
                    lemma_leb_end_skip(c0.buf, base as int, self@.pos, c0.end);
                }
                self.pos = base;
                if count == 0 {
                    return Err(Error::UnexpectedEndOfInput);
                } else {
                    return Err(Error::MalformedLeb128);
                }
            }
            let b = self.data[self.pos];
            self.pos = self.pos + 1;
            let low = b % 128;
            proof {
                let pre = c0.buf.subrange(base as int, base + count);
                lemma_uleb_payload_snoc(pre, b);
                assert(c0.buf.subrange(base as int, base + count + 1) =~= pre.push(b));
                lemma_pow128_increases(count as nat, 10);
                lemma_pow128_increases((count + 1) as nat, 10);
                assert(factor * (low as u128) <= factor * 127) by (nonlinear_arith)
                    requires
                        low <= 127,
                        factor >= 0,
                ;
                assert((low as nat) % 128 == low as nat);
                assert((b as nat) % 128 == low as nat);
            }
            raw = raw + factor * (low as u128);
            factor = factor * 128;
            count = count + 1;
            if b < 0x80 {
                proof {
                    lemma_leb_end_skip(c0.buf, base as int, self@.pos - 1, c0.end);
                    assert(c0.buf[self@.pos - 1] == b);
                    assert(leb_end(c0.buf, base as int, c0.end) == base + count);
                }
                if raw > 0xffff_ffff_ffff_ffff {
                    self.pos = base;
                    return Err(Error::MalformedLeb128);
                }
                return Ok(raw as u64);
            }
        }
    }

    /// Reads a signed LEB128 integer.
    #[verifier::loop_isolation(false)]
    pub fn read_sleb128(&mut self) -> (r: Result<i64, Error>)
        requires
            old(self)@.wf(),
        ensures
            final(self)@.wf(),
            same_window(old(self)@, final(self)@),
            match r {
                Ok(v) => spec_read_sleb128(old(self)@) == Ok::<_, Error>((v, final(self)@)),
                Err(e) => spec_read_sleb128(old(self)@) == Err::<(i64, CursorModel), _>(e)
                    && final(self)@ == old(self)@,
            },
            r is Ok ==> old(self)@.pos < final(self)@.pos <= old(self)@.end,
    {
        let ghost c0 = self@;
        let base = self.pos;
        let mut raw: u128 = 0;
        let mut factor: u128 = 1;
        let mut count: usize = 0;
        proof {
            lemma_pow128_values();
        }
        loop
            invariant
                self@.wf(),
                same_window(c0, self@),
                c0.wf(),
                base == c0.pos,
                self@.pos == base + count,
                count <= 10,
                base + count <= c0.end,
                forall|k: int| base <= k < base + count ==> c0.buf[k] >= 0x80,
                raw == uleb_payload(c0.buf.subrange(base as int, base + count)),
                factor == pow128(count as nat),
                raw < factor,
            decreases 10 - count,
        {
            if count == 10 {
                proof {
                    lemma_leb_end_skip(c0.buf, base as int, base + 10, c0.end);
                    lemma_leb_end_range(c0.buf, base + 10, c0.end);
                }
                self.pos = base;
                return Err(Error::MalformedLeb128);
            }
            if self.pos == self.end {
                proof {
                    lemma_leb_end_skip(c0.buf, base as int, self@.pos, c0.end);
                }
                self.pos = base;
                if count == 0 {
                    return Err(Error::UnexpectedEndOfInput);
                } else {
                    return Err(Error::MalformedLeb128);
                }
            }
            let b = self.data[self.pos];
            self.pos = self.pos + 1;
            let low = b % 128;
            proof {
                let pre = c0.buf.subrange(base as int, base + count);
                lemma_uleb_payload_snoc(pre, b);
                assert(c0.buf.subrange(base as int, base + count + 1) =~= pre.push(b));
                lemma_pow128_increases(count as nat, 10);
                lemma_pow128_increases((count + 1) as nat, 10);
                assert(factor * (low as u128) <= factor * 127) by (nonlinear_arith)
                    requires
                        low <= 127,
                        factor >= 0,
                ;
                assert((low as nat) % 128 == low as nat);
                assert((b as nat) % 128 == low as nat);
            }
            raw = raw + factor * (low as u128);
            factor = factor * 128;
            count = count + 1;
            if b < 0x80 {
                proof {
                    lemma_leb_end_skip(c0.buf, base as int, self@.pos - 1, c0.end);
                    assert(c0.buf[self@.pos - 1] == b);
                    assert(leb_end(c0.buf, base as int, c0.end) == base + count);
                    let enc = c0.buf.subrange(base as int, base + count);
                    assert(enc.last() == b);
                    assert(enc.len() == count);
                    assert(uleb_payload(enc) == raw);
                    assert(pow128(count as nat) == factor);
                    lemma_pow128_increases(count as nat, 10);
                }
                let sign = (b / 64) % 2 == 1;
                let sraw: i128 = raw as i128;
                let v: i128 = if sign {
                    sraw - (factor as i128)
                } else {
                    sraw
                };
                proof {
                    assert(v == sleb_value(c0.buf.subrange(base as int, base + count)));
                }
                if v < -0x8000_0000_0000_0000i128 || v > 0x7fff_ffff_ffff_ffffi128 {
                    self.pos = base;
                    return Err(Error::MalformedLeb128);
                }
                return Ok(v as i64);
            }
        }
    }

    /// Reads `n` raw bytes into an owned buffer.
    #[verifier::loop_isolation(false)]
    pub fn read_bytes(&mut self, n: usize) -> (r: Result<Vec<u8>, Error>)
        requires
            old(self)@.wf(),
        ensures
            final(self)@.wf(),
            same_window(old(self)@, final(self)@),
            match r {
                Ok(v) => spec_read_bytes(old(self)@, n as int) == Ok::<_, Error>((
                    v@,
                    final(self)@,
                )),
                Err(e) => spec_read_bytes(old(self)@, n as int) == Err::<(Seq<u8>, CursorModel), _>(
                    e,
                ) && final(self)@ == old(self)@,
            },
    {
        if n > self.end - self.pos {
            return Err(Error::UnexpectedEndOfInput);
        }
        let ghost c0 = self@;
        let base = self.pos;
        let mut out: Vec<u8> = Vec::new();
        let mut i: usize = 0;
        while i < n
            invariant
                self@.wf(),
                same_window(c0, self@),
                c0.wf(),
                base == c0.pos,
                base + n <= c0.end,
                self@.pos == base + i,
                i <= n,
                out@ == c0.buf.subrange(base as int, base + i),
            decreases n - i,
        {
            let b = self.data[self.pos];
            proof {
                assert(c0.buf.subrange(base as int, base + i + 1) =~= c0.buf.subrange(
                    base as int,
                    base + i,
                ).push(b));
            }
            out.push(b);
            self.pos = self.pos + 1;
            i = i + 1;
        }
        Ok(out)
    }

    /// Reads bytes up to, and consumes, the next zero byte; the terminator
    /// itself is not part of the result.
    #[verifier::loop_isolation(false)]
    pub fn read_null_terminated(&mut self) -> (r: Result<Vec<u8>, Error>)
        requires
            old(self)@.wf(),
        ensures
            final(self)@.wf(),
            same_window(old(self)@, final(self)@),
            match r {
                Ok(v) => spec_read_null_terminated(old(self)@) == Ok::<_, Error>((
                    v@,
                    final(self)@,
                )),
                Err(e) => spec_read_null_terminated(old(self)@) == Err::<
                    (Seq<u8>, CursorModel),
                    _,
                >(e) && final(self)@ == old(self)@,
            },
    {
        let ghost c0 = self@;
        let base = self.pos;
        let mut out: Vec<u8> = Vec::new();
        loop
            invariant
                self@.wf(),
                same_window(c0, self@),
                c0.wf(),
                base == c0.pos,
                self@.pos == base + out@.len(),
                self@.pos <= c0.end,
                forall|k: int| base <= k < base + out@.len() ==> c0.buf[k] != 0,
                out@ == c0.buf.subrange(base as int, base + out@.len()),
            decreases c0.end - self@.pos,
        {
            if self.pos == self.end {
                proof {
                    lemma_first_nul_skip(c0.buf, base as int, self@.pos, c0.end);
                }
                self.pos = base;
                return Err(Error::UnexpectedEndOfInput);
            }
            let b = self.data[self.pos];
            if b == 0 {
                proof {
                    lemma_first_nul_skip(c0.buf, base as int, self@.pos, c0.end);
                    assert(first_nul(c0.buf, base as int, c0.end) == self@.pos);
                }
                self.pos = self.pos + 1;
                return Ok(out);
            }
            proof {
                assert(c0.buf.subrange(base as int, base + out@.len() + 1) =~= c0.buf.subrange(
                    base as int,
                    base + out@.len(),
                ).push(b));
            }
            out.push(b);
            self.pos = self.pos + 1;
        }
    }
}

} // verus!
