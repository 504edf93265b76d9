use vstd::prelude::*;

verus! {

// DWARF's variable-length integers use 7 payload bits per byte, least
// significant group first; the high bit of each byte says whether another
// byte follows.  This module gives the byte-level encoding its mathematical
// meaning; the executable decoders live on the byte cursor.

/// 128 raised to the power `n`: the number of values of `n` payload groups.
pub open spec fn pow128(n: nat) -> nat
    decreases n,
{
    if n == 0 {
        1
    } else {
        128 * pow128((n - 1) as nat)
    }
}

/// One past the index of the terminating byte (the first byte without the
/// continuation bit) of the encoding that starts at `pos`, searching no
/// further than `end`; `-1` if every byte up to `end` continues.
pub open spec fn leb_end(s: Seq<u8>, pos: int, end: int) -> int
    decreases end - pos,
{
    if pos < 0 || pos >= end || end > s.len() {
        -1
    } else if s[pos] < 0x80 {
        pos + 1
    } else {
        leb_end(s, pos + 1, end)
    }
}

/// The unsigned value carried by the payload bits of `s`: the low seven bits
/// of each byte, least significant group first.
pub open spec fn uleb_payload(s: Seq<u8>) -> nat
    decreases s.len(),
{
    if s.len() == 0 {
        0
    } else {
        (s[0] as nat) % 128 + 128 * uleb_payload(s.skip(1))
    }
}

/// Whether the sign bit (bit 6 of the final byte) of a signed encoding is set.
pub open spec fn leb_sign(s: Seq<u8>) -> bool {
    s.len() > 0 && (s.last() / 64) % 2 == 1
}

/// The signed value carried by `s`: the payload bits, sign-extended from bit
/// 6 of the final byte.
pub open spec fn sleb_value(s: Seq<u8>) -> int {
    uleb_payload(s) - if leb_sign(s) {
        pow128(s.len()) as int
    } else {
        0
    }
}

/// The canonical unsigned LEB128 encoding of `n`.
pub open spec fn uleb_encode(n: nat) -> Seq<u8>
    decreases n,
{
    if n < 128 {
        seq![n as u8]
    } else {
        seq![(n % 128 + 128) as u8] + uleb_encode(n / 128)
    }
}

/// The canonical signed LEB128 encoding of `v`.
pub open spec fn sleb_encode(v: int) -> Seq<u8>
    decreases (if v < 0 { -v } else { v }),
{
    if -64 <= v < 64 {
        seq![(v % 128) as u8]
    } else {
        seq![(v % 128 + 128) as u8] + sleb_encode(v / 128)
    }
}

pub proof fn lemma_pow128_values()
    ensures
        pow128(9) == 0x8000_0000_0000_0000,
        pow128(10) == 0x40_0000_0000_0000_0000,
{
    reveal_with_fuel(pow128, 11);
}

pub proof fn lemma_pow128_increases(m: nat, n: nat)
    requires
        m <= n,
    ensures
        pow128(m) <= pow128(n),
    decreases n,
{
    if m < n {
        lemma_pow128_increases(m, (n - 1) as nat);
    }
}

/// Appending a byte contributes its payload at the next power of 128.
pub proof fn lemma_uleb_payload_snoc(s: Seq<u8>, b: u8)
    ensures
        uleb_payload(s.push(b)) == uleb_payload(s) + pow128(s.len()) * ((b as nat) % 128),
    decreases s.len(),
{
    let t = s.push(b);
    assert(t[0] == if s.len() == 0 {
        b
    } else {
        s[0]
    });
    if s.len() == 0 {
        assert(s =~= Seq::<u8>::empty());
        assert(t.skip(1) =~= Seq::<u8>::empty());
        assert(uleb_payload(Seq::<u8>::empty()) == 0);
        assert(uleb_payload(t) == (t[0] as nat) % 128 + 128 * uleb_payload(t.skip(1)));
        assert(pow128(0) == 1);
        assert(uleb_payload(s) == 0);
        assert(t[0] == b);
        assert(uleb_payload(t) == uleb_payload(s) + pow128(s.len()) * ((b as nat) % 128));
    } else {
        assert(t.skip(1) =~= s.skip(1).push(b));
        assert(uleb_payload(s) == (s[0] as nat) % 128 + 128 * uleb_payload(s.skip(1)));
        lemma_uleb_payload_snoc(s.skip(1), b);
        let p = pow128((s.len() - 1) as nat);
        let low = (b as nat) % 128;
        assert(uleb_payload(t) == (s[0] as nat) % 128 + 128 * (uleb_payload(s.skip(1)) + p * low));
        assert(128 * (uleb_payload(s.skip(1)) + p * low) == 128 * uleb_payload(s.skip(1)) + 128 * (
        p * low));
        assert(128 * (p * low) == (128 * p) * low) by (nonlinear_arith);
        assert(pow128(s.len()) == 128 * p);
        assert(uleb_payload(t) == uleb_payload(s) + pow128(s.len()) * ((b as nat) % 128));
    }
}

/// Skipping continuation bytes does not move the terminator.
pub proof fn lemma_leb_end_skip(s: Seq<u8>, pos: int, p: int, end: int)
    requires
        0 <= pos <= p <= end <= s.len(),
        forall|k: int| pos <= k < p ==> s[k] >= 0x80,
    ensures
        leb_end(s, pos, end) == leb_end(s, p, end),
    decreases p - pos,
{
    if pos < p {
        lemma_leb_end_skip(s, pos + 1, p, end);
    }
}

/// Where the terminator exists, it lies strictly beyond `pos` and at most at
/// `end`.
pub proof fn lemma_leb_end_range(s: Seq<u8>, pos: int, end: int)
    ensures
        leb_end(s, pos, end) == -1 || pos < leb_end(s, pos, end) <= end,
    decreases end - pos,
{
    if 0 <= pos && pos < end && end <= s.len() && s[pos] >= 0x80 {
        lemma_leb_end_range(s, pos + 1, end);
    }
}

/// A well-formed encoding laid down at `pos` — continuation bits on every
/// byte but the last, none on the last — terminates exactly at its own end.
pub proof fn lemma_leb_end_of_encoding(s: Seq<u8>, pos: int, end: int, len: int)
    requires
        0 <= pos,
        1 <= len,
        pos + len <= end <= s.len(),
        forall|k: int| pos <= k < pos + len - 1 ==> s[k] >= 0x80,
        s[pos + len - 1] < 0x80,
    ensures
        leb_end(s, pos, end) == pos + len,
{
    lemma_leb_end_skip(s, pos, pos + len - 1, end);
}

/// The canonical unsigned encoding is well formed and carries its own value.
pub proof fn lemma_uleb_encode_props(n: nat)
    ensures
        uleb_encode(n).len() >= 1,
        uleb_payload(uleb_encode(n)) == n,
        uleb_encode(n).last() < 0x80,
        forall|k: int| 0 <= k < uleb_encode(n).len() - 1 ==> uleb_encode(n)[k] >= 0x80,
    decreases n,
{
    if n < 128 {
        let e = uleb_encode(n);
        assert(e.skip(1) =~= Seq::<u8>::empty());
        assert(uleb_payload(Seq::<u8>::empty()) == 0);
        assert(uleb_payload(e) == (e[0] as nat) % 128 + 128 * uleb_payload(e.skip(1)));
        assert(e[0] == n as u8);
    } else {
        lemma_uleb_encode_props(n / 128);
        let e = uleb_encode(n);
        let rest = uleb_encode(n / 128);
        assert(e[0] == (n % 128 + 128) as u8);
        assert((e[0] as nat) % 128 == n % 128);
        assert(e.skip(1) =~= rest);
        assert(uleb_payload(e) == n % 128 + 128 * uleb_payload(rest));
        assert(n % 128 + 128 * (n / 128) == n);
        assert(e.last() == rest.last());
        assert(forall|k: int| 1 <= k < e.len() - 1 ==> e[k] == rest[k - 1]);
    }
}

/// A value below `pow128(k)` encodes in at most `k` bytes.
pub proof fn lemma_uleb_encode_len(n: nat, k: nat)
    requires
        k >= 1,
        n < pow128(k),
    ensures
        uleb_encode(n).len() <= k,
    decreases k,
{
    if n >= 128 {
        reveal_with_fuel(pow128, 2);
        assert(k >= 2);
        assert(n / 128 < pow128((k - 1) as nat)) by {
            assert(n < 128 * pow128((k - 1) as nat));
            assert(n / 128 < pow128((k - 1) as nat)) by (nonlinear_arith)
                requires
                    n < 128 * pow128((k - 1) as nat),
            ;
        }
        lemma_uleb_encode_len(n / 128, (k - 1) as nat);
        assert(uleb_encode(n).len() == 1 + uleb_encode(n / 128).len());
    }
}

/// The canonical signed encoding is well formed and carries its own value.
pub proof fn lemma_sleb_encode_props(v: int)
    ensures
        sleb_encode(v).len() >= 1,
        sleb_value(sleb_encode(v)) == v,
        sleb_encode(v).last() < 0x80,
        forall|k: int| 0 <= k < sleb_encode(v).len() - 1 ==> sleb_encode(v)[k] >= 0x80,
    decreases (if v < 0 {
        -v
    } else {
        v
    }),
{
    if -64 <= v < 64 {
        let e = sleb_encode(v);
        let b = (v % 128) as u8;
        assert(e[0] == b);
        assert(e.skip(1) =~= Seq::<u8>::empty());
        assert(uleb_payload(Seq::<u8>::empty()) == 0);
        assert(uleb_payload(e) == (e[0] as nat) % 128 + 128 * uleb_payload(e.skip(1)));
        reveal_with_fuel(pow128, 2);
        if v >= 0 {
            assert(b == v);
            assert((b / 64) % 2 == 0);
            assert(!leb_sign(e));
        } else {
            assert(b == v + 128);
            assert(64 <= b < 128);
            assert((b / 64) % 2 == 1);
            assert(leb_sign(e));
            assert(sleb_value(e) == (b as nat) - 128);
        }
    } else {
        lemma_sleb_encode_props(v / 128);
        let e = sleb_encode(v);
        let rest = sleb_encode(v / 128);
        let b = (v % 128 + 128) as u8;
        assert(e[0] == b);
        assert((e[0] as nat) % 128 == v % 128);
        assert(e.skip(1) =~= rest);
        assert(uleb_payload(e) == v % 128 + 128 * uleb_payload(rest));
        assert(e.last() == rest.last());
        assert(leb_sign(e) == leb_sign(rest));
        assert(e.len() == 1 + rest.len());
        assert(pow128(e.len()) == 128 * pow128(rest.len()));
        if leb_sign(rest) {
            assert(sleb_value(rest) == uleb_payload(rest) - pow128(rest.len()));
            assert(sleb_value(e) == v % 128 + 128 * uleb_payload(rest) - 128 * pow128(rest.len()));
            assert(sleb_value(e) == v % 128 + 128 * sleb_value(rest));
        } else {
            assert(sleb_value(e) == v % 128 + 128 * sleb_value(rest));
        }
        assert(v % 128 + 128 * (v / 128) == v);
        assert(forall|k: int| 1 <= k < e.len() - 1 ==> e[k] == rest[k - 1]);
    }
}

/// A value `v` with `2 * v` in `[-pow128(k), pow128(k))` encodes in at most
/// `k` bytes.
pub proof fn lemma_sleb_encode_len(v: int, k: nat)
    requires
        k >= 1,
        -(pow128(k) as int) <= 2 * v < pow128(k),
    ensures
        sleb_encode(v).len() <= k,
    decreases k,
{
    if !(-64 <= v < 64) {
        reveal_with_fuel(pow128, 2);
        assert(k >= 2);
        let p = pow128((k - 1) as nat) as int;
        let q = v / 128;
        let r = v % 128;
        assert(v == 128 * q + r);
        assert(0 <= r < 128);
        assert(pow128(k) == 128 * p);
        assert(2 * q < p);
        assert(p == 128 * pow128((k - 2) as nat));
        assert(p % 2 == 0) by (nonlinear_arith)
            requires
                p == 128 * pow128((k - 2) as nat),
        ;
        assert(256 * q >= -128 * p - 2 * r);
        assert(2 * q >= -p);
        lemma_sleb_encode_len(q, (k - 1) as nat);
        assert(sleb_encode(v).len() == 1 + sleb_encode(q).len());
    }
}

/// Round trip for signed LEB128: wherever the canonical encoding of `v`
/// lies in a buffer, decoding finds its terminator exactly at the
/// encoding's end and reads back exactly `v`.
pub proof fn lemma_sleb128_round_trip(s: Seq<u8>, pos: int, end: int, v: i64)
    requires
        0 <= pos,
        pos + sleb_encode(v as int).len() <= end <= s.len(),
        s.subrange(pos, pos + sleb_encode(v as int).len() as int) == sleb_encode(v as int),
    ensures
        sleb_encode(v as int).len() <= 10,
        leb_end(s, pos, end) == pos + sleb_encode(v as int).len(),
        sleb_value(s.subrange(pos, leb_end(s, pos, end))) == v,
{
    let e = sleb_encode(v as int);
    lemma_sleb_encode_props(v as int);
    lemma_pow128_values();
    lemma_sleb_encode_len(v as int, 10);
    assert(forall|k: int| pos <= k < pos + e.len() - 1 ==> s[k] >= 0x80) by {
        assert(forall|k: int| pos <= k < pos + e.len() - 1 ==> s[k] == e[k - pos]);
    }
    assert(s[pos + e.len() - 1] == e[e.len() - 1]);
    lemma_leb_end_of_encoding(s, pos, end, e.len() as int);
}

/// Round trip for unsigned LEB128: wherever the canonical encoding of `n`
/// lies in a buffer, decoding finds its terminator exactly at the encoding's
/// end and reads back exactly `n`.
pub proof fn lemma_uleb128_round_trip(s: Seq<u8>, pos: int, end: int, n: u64)
    requires
        0 <= pos,
        pos + uleb_encode(n as nat).len() <= end <= s.len(),
        s.subrange(pos, pos + uleb_encode(n as nat).len() as int) == uleb_encode(n as nat),
    ensures
        uleb_encode(n as nat).len() <= 10,
        leb_end(s, pos, end) == pos + uleb_encode(n as nat).len(),
        uleb_payload(s.subrange(pos, leb_end(s, pos, end))) == n,
{
    let e = uleb_encode(n as nat);
    lemma_uleb_encode_props(n as nat);
    lemma_pow128_values();
    lemma_uleb_encode_len(n as nat, 10);
    assert(forall|k: int| pos <= k < pos + e.len() - 1 ==> s[k] >= 0x80) by {
        assert(forall|k: int| pos <= k < pos + e.len() - 1 ==> s[k] == e[k - pos]);
    }
    assert(s[pos + e.len() - 1] == e[e.len() - 1]);
    lemma_leb_end_of_encoding(s, pos, end, e.len() as int);
}

} // verus!
