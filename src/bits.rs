use vstd::prelude::*;

verus! {

/// Number of bytes that hold `n` bits.
pub open spec fn bytes_for_bits(n: nat) -> nat {
    (n + 7) / 8
}

/// Bit `i` of a bit-packed byte sequence (least significant bit first).
pub open spec fn get_bit(bytes: Seq<u8>, i: int) -> bool {
    (bytes[i / 8] >> ((i % 8) as u8)) & 1u8 == 1u8
}

pub fn ceil_div8(n: usize) -> (r: usize)
    ensures
        r as nat == bytes_for_bits(n as nat),
{
    n / 8 + if n % 8 == 0 { 0 } else { 1 }
}

proof fn lemma_byte_set_bit(b: u8, j: u8, k: u8)
    requires
        j < 8,
        k < 8,
    ensures
        ((b | (1u8 << j)) >> k) & 1u8 == 1u8 <==> (k == j || (b >> k) & 1u8 == 1u8),
{
    assert(((b | (1u8 << j)) >> k) & 1u8 == 1u8 <==> (k == j || (b >> k) & 1u8 == 1u8))
        by (bit_vector)
        requires
            j < 8,
            k < 8,
    ;
}

proof fn lemma_zero_byte_bits(k: u8)
    requires
        k < 8,
    ensures
        (0u8 >> k) & 1u8 != 1u8,
{
    assert((0u8 >> k) & 1u8 != 1u8) by (bit_vector);
}

/// The bits of a packed buffer at positions `len` and above are clear.
pub open spec fn tail_clear(bytes: Seq<u8>, len: nat) -> bool {
    forall|i: int| len <= i < 8 * bytes.len() ==> !get_bit(bytes, i)
}

/// Extends a bit-packed buffer that holds `len` bits by one bit of value `bit`.
pub fn push_bit(buf: &mut Vec<u8>, len: usize, bit: bool)
    requires
        old(buf)@.len() == bytes_for_bits(len as nat),
        tail_clear(old(buf)@, len as nat),
        len < usize::MAX,
    ensures
        final(buf)@.len() == bytes_for_bits(len as nat + 1),
        tail_clear(final(buf)@, len as nat + 1),
        get_bit(final(buf)@, len as int) == bit,
        forall|i: int| 0 <= i < len ==> get_bit(final(buf)@, i) == get_bit(old(buf)@, i),
{
    if len % 8 == 0 {
        buf.push(0u8);
        proof {
            assert forall|i: int| 0 <= i < len implies get_bit(buf@, i) == get_bit(old(buf)@, i) by {
                assert(i / 8 < len / 8);
            }
            assert forall|i: int| len <= i < 8 * buf@.len() implies !get_bit(buf@, i) by {
                assert(i / 8 == len / 8);
                lemma_zero_byte_bits((i % 8) as u8);
            }
        }
    }
    assert(tail_clear(buf@, len as nat));
    if bit {
        let idx: usize = len / 8;
        let j: u8 = (len % 8) as u8;
        let b: u8 = buf[idx];
        let nb: u8 = b | (1u8 << j);
        let ghost before = buf@;
        buf.set(idx, nb);
        proof {
            lemma_byte_set_bit(b, j, j);
            assert forall|i: int| 0 <= i < 8 * buf@.len() && i != len implies get_bit(buf@, i)
                == get_bit(before, i) by {
                if i / 8 == idx as int {
                    lemma_byte_set_bit(b, j, (i % 8) as u8);
                }
            }
            assert forall|i: int| len + 1 <= i < 8 * buf@.len() implies !get_bit(buf@, i) by {
                assert(get_bit(buf@, i) == get_bit(before, i));
            }
        }
    }
}

} // verus!
