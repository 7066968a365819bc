use vstd::prelude::*;

verus! {

/// `256` to the power `k`.
pub open spec fn pow256(k: nat) -> nat
    decreases k,
{
    if k == 0 {
        1
    } else {
        256 * pow256((k - 1) as nat)
    }
}

/// Byte `k` (least significant first) of the unsigned integer `x`.
pub open spec fn le_byte(x: nat, k: nat) -> u8 {
    ((x / pow256(k)) % 256) as u8
}

/// `bytes` with the `w` little-endian bytes of `x` written from position `off` on.
pub open spec fn put_le(bytes: Seq<u8>, off: int, x: nat, w: nat) -> Seq<u8> {
    Seq::new(
        bytes.len(),
        |p: int|
            if off <= p < off + w {
                le_byte(x, (p - off) as nat)
            } else {
                bytes[p]
            },
    )
}

/// Bit `i` of a bitmap, least significant bit first within each byte.
pub open spec fn bit_of(bytes: Seq<u8>, i: nat) -> bool {
    (bytes[(i / 8) as int] >> ((i % 8) as u8)) & 1u8 == 1u8
}

/// `bytes` with bit `i` of its bitmap set (`on`) or cleared.
pub open spec fn with_bit(bytes: Seq<u8>, i: nat, on: bool) -> Seq<u8> {
    let b = bytes[(i / 8) as int];
    let m = 1u8 << ((i % 8) as u8);
    bytes.update((i / 8) as int, if on { b | m } else { b & !m })
}

/// `n` zero bytes.
pub open spec fn zeros(n: nat) -> Seq<u8> {
    Seq::new(n, |p: int| 0u8)
}

pub proof fn lemma_pow256_pos(k: nat)
    ensures
        pow256(k) > 0,
    decreases k,
{
    if k > 0 {
        lemma_pow256_pos((k - 1) as nat);
    }
}

pub proof fn lemma_pow256_widths()
    ensures
        pow256(1) == 0x100,
        pow256(2) == 0x1_0000,
        pow256(4) == 0x1_0000_0000,
        pow256(8) == 0x1_0000_0000_0000_0000,
        pow256(16) == 0x1_0000_0000_0000_0000_0000_0000_0000_0000,
{
    reveal_with_fuel(pow256, 17);
}

/// Dividing by `256^(k+1)` is dividing by `256^k` and then by 256.
pub proof fn lemma_div_step(x: nat, k: nat)
    ensures
        x / pow256(k + 1) == (x / pow256(k)) / 256,
{
    lemma_pow256_pos(k);
    vstd::arithmetic::div_mod::lemma_div_denominator(x as int, pow256(k) as int, 256);
    assert(pow256(k + 1) == pow256(k) * 256) by (nonlinear_arith)
        requires
            pow256(k + 1) == 256 * pow256(k),
    ;
}

proof fn lemma_bit_u8(x: u8, on: bool, k: u8, j: u8)
    requires
        k < 8,
        j < 8,
    ensures
        ((if on { x | (1u8 << k) } else { x & !(1u8 << k) }) >> j) & 1u8 == 1u8 <==> if j == k {
            on
        } else {
            (x >> j) & 1u8 == 1u8
        },
{
    if on {
        assert(((x | (1u8 << k)) >> j) & 1u8 == 1u8 <==> (j == k || (x >> j) & 1u8 == 1u8))
            by (bit_vector)
            requires
                k < 8,
                j < 8,
        ;
    } else {
        assert(((x & !(1u8 << k)) >> j) & 1u8 == 1u8 <==> (j != k && (x >> j) & 1u8 == 1u8))
            by (bit_vector)
            requires
                k < 8,
                j < 8,
        ;
    }
}

/// Setting or clearing bit `i` decides bit `i` and leaves every other bit,
/// and every byte outside the bitmap byte of `i`, as it was.
pub proof fn lemma_with_bit(bytes: Seq<u8>, i: nat, on: bool, j: nat)
    requires
        i / 8 < bytes.len(),
        j / 8 < bytes.len(),
    ensures
        bit_of(with_bit(bytes, i, on), j) == if i == j {
            on
        } else {
            bit_of(bytes, j)
        },
        with_bit(bytes, i, on).len() == bytes.len(),
{
    let r = with_bit(bytes, i, on);
    if i / 8 == j / 8 {
        lemma_bit_u8(bytes[(i / 8) as int], on, (i % 8) as u8, (j % 8) as u8);
        assert(i == j <==> i % 8 == j % 8);
    }
}

} // verus!
