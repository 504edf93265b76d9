use vstd::prelude::*;

verus! {

/// The byte order applied to every multi-byte fixed-width read.
///
/// It is fixed per cursor at construction; decoding never re-inspects it on a
/// per-field basis beyond the single dispatch in each read.
#[derive(Clone, Copy, Debug, PartialEq, Eq, Structural, Default)]
pub enum Endian {
    /// Least significant byte first.
    #[default]
    Little,
    /// Most significant byte first.
    Big,
}

/// 256 raised to the power `n`: the number of values of an `n`-byte word.
pub open spec fn pow256(n: nat) -> nat
    decreases n,
{
    if n == 0 {
        1
    } else {
        256 * pow256((n - 1) as nat)
    }
}

/// The value of the byte string `s` read as an unsigned little-endian word.
pub open spec fn le_word_value(s: Seq<u8>) -> nat
    decreases s.len(),
{
    if s.len() == 0 {
        0
    } else {
        (s[0] as nat) + 256 * le_word_value(s.skip(1))
    }
}

/// The value of the byte string `s` read as an unsigned big-endian word.
pub open spec fn be_word_value(s: Seq<u8>) -> nat
    decreases s.len(),
{
    if s.len() == 0 {
        0
    } else {
        256 * be_word_value(s.take(s.len() - 1)) + (s.last() as nat)
    }
}

/// The value of the byte string `s` read as an unsigned word in byte order `e`.
pub open spec fn word_value(e: Endian, s: Seq<u8>) -> nat {
    match e {
        Endian::Little => le_word_value(s),
        Endian::Big => be_word_value(s),
    }
}

pub proof fn lemma_pow256_values()
    ensures
        pow256(1) == 0x100,
        pow256(2) == 0x1_0000,
        pow256(3) == 0x100_0000,
        pow256(4) == 0x1_0000_0000,
        pow256(8) == 0x1_0000_0000_0000_0000,
{
    reveal_with_fuel(pow256, 9);
}

pub proof fn lemma_pow256_increases(m: nat, n: nat)
    requires
        m <= n,
    ensures
        pow256(m) <= pow256(n),
    decreases n,
{
    if m < n {
        lemma_pow256_increases(m, (n - 1) as nat);
    }
}

/// Appending a byte to a little-endian word contributes that byte at the
/// next-higher power of 256.
pub proof fn lemma_le_word_value_snoc(s: Seq<u8>, b: u8)
    ensures
        le_word_value(s.push(b)) == le_word_value(s) + pow256(s.len()) * (b as nat),
    decreases s.len(),
{
    let t = s.push(b);
    assert(t[0] == if s.len() == 0 {
        b
    } else {
        s[0]
    });
    if s.len() == 0 {
        assert(s =~= Seq::<u8>::empty());
        assert(t.skip(1) =~= Seq::<u8>::empty());
        assert(le_word_value(Seq::<u8>::empty()) == 0);
        assert(le_word_value(t) == (t[0] as nat) + 256 * le_word_value(t.skip(1)));
        assert(pow256(0) == 1);
        assert(le_word_value(s) == 0);
        assert(le_word_value(t) == b as nat);
        assert(t[0] == b);
        assert(le_word_value(t) == le_word_value(s) + pow256(s.len()) * (b as nat));
    } else {
        assert(t.skip(1) =~= s.skip(1).push(b));
        assert(le_word_value(s) == (s[0] as nat) + 256 * le_word_value(s.skip(1)));
        lemma_le_word_value_snoc(s.skip(1), b);
        let p = pow256((s.len() - 1) as nat);
        assert(le_word_value(t) == (s[0] as nat) + 256 * (le_word_value(s.skip(1)) + p * (
        b as nat)));
        assert(256 * (le_word_value(s.skip(1)) + p * (b as nat)) == 256 * le_word_value(s.skip(1))
            + 256 * (p * (b as nat)));
        assert(256 * (p * (b as nat)) == (256 * p) * (b as nat)) by (nonlinear_arith);
        assert(pow256(s.len()) == 256 * p);
        assert(le_word_value(t) == le_word_value(s) + pow256(s.len()) * (b as nat));
    }
}

/// A word of `n` bytes is below `pow256(n)`.
pub proof fn lemma_word_value_bound(e: Endian, s: Seq<u8>)
    ensures
        word_value(e, s) < pow256(s.len()),
    decreases s.len(),
{
    if s.len() > 0 {
        lemma_word_value_bound(e, s.skip(1));
        lemma_word_value_bound(e, s.take(s.len() - 1));
    }
}

} // verus!
