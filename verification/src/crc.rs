//! The checksum engine: a 16-bit CRC over the generator polynomial `0x1021`,
//! processed most-significant-bit first with the accumulator seeded at zero.
//! Two strategies compute it — bit-by-bit (the reference) and table-driven
//! (the optimisation) — and both are proved to return `crc_of` of the input.

use vstd::prelude::*;

verus! {

/// One polynomial round: shift the accumulator left one bit and, when the bit
/// shifted out was set, fold in the generator polynomial `0x1021`.
pub open spec fn crc_round(c: u16) -> u16 {
    if c & 0x8000 != 0 {
        (c << 1) ^ 0x1021
    } else {
        c << 1
    }
}

/// Folding one input byte into the running checksum: the byte is xored into
/// the high byte of the accumulator, then eight polynomial rounds run.
pub open spec fn crc_step(c: u16, b: u8) -> u16 {
    crc_round(
        crc_round(
            crc_round(
                crc_round(crc_round(crc_round(crc_round(crc_round(c ^ ((b as u16) << 8)))))),
            ),
        ),
    )
}

/// The checksum of a byte sequence: every byte folded in, in order, starting
/// from an accumulator of zero. The empty sequence checksums to zero.
pub open spec fn crc_of(s: Seq<u8>) -> u16
    decreases s.len(),
{
    if s.len() == 0 {
        0
    } else {
        crc_step(crc_of(s.drop_last()), s.last())
    }
}

/// The checksum of the empty byte sequence is the seed value, zero.
pub proof fn lemma_crc_of_empty()
    ensures
        crc_of(Seq::<u8>::empty()) == 0,
{
}

/// The table-driven per-byte update — shift the accumulator left one byte and
/// xor in the table entry picked by the old high byte xored with the input
/// byte — folds the byte exactly as the eight bit-by-bit rounds do.
pub proof fn lemma_table_step(c: u16, b: u8)
    by (bit_vector)
    ensures
        ((c << 8) ^ crc_step(0, (((c >> 8) ^ (b as u16)) & 0xFF) as u8)) == crc_step(c, b),
{
}

fn crc_round_exec(c: u16) -> (r: u16)
    ensures
        r == crc_round(c),
{
    if c & 0x8000 != 0 {
        (c << 1) ^ 0x1021
    } else {
        c << 1
    }
}

fn crc_step_exec(c: u16, b: u8) -> (r: u16)
    ensures
        r == crc_step(c, b),
{
    let mut crc: u16 = c ^ ((b as u16) << 8);
    crc = crc_round_exec(crc);
    crc = crc_round_exec(crc);
    crc = crc_round_exec(crc);
    crc = crc_round_exec(crc);
    crc = crc_round_exec(crc);
    crc = crc_round_exec(crc);
    crc = crc_round_exec(crc);
    crc = crc_round_exec(crc);
    crc
}

/// Bit-by-bit checksum of a byte slice: the reference strategy.
pub fn crc16(data: &[u8]) -> (r: u16)
    ensures
        r == crc_of(data@),
{
    let mut crc: u16 = 0;
    for i in 0..data.len()
        invariant
            crc == crc_of(data@.take(i as int)),
    {
        crc = crc_step_exec(crc, data[i]);
        proof {
            assert(data@.take(i + 1).drop_last() =~= data@.take(i as int));
            assert(data@.take(i + 1).last() == data@[i as int]);
        }
    }
    proof {
        assert(data@.take(data@.len() as int) =~= data@);
    }
    crc
}

/// The 256-entry lookup table: entry `i` is the checksum state reached by
/// folding the single byte `i` into a zero accumulator.
pub fn generate_crc_table() -> (table: Vec<u16>)
    ensures
        table@.len() == 256,
        forall|i: int| 0 <= i < 256 ==> #[trigger] table@[i] == crc_step(0, i as u8),
{
    let mut table: Vec<u16> = Vec::new();
    for i in 0..256usize
        invariant
            table@.len() == i,
            forall|j: int| 0 <= j < i ==> #[trigger] table@[j] == crc_step(0, j as u8),
    {
        let entry: u16 = crc_step_exec(0, i as u8);
        table.push(entry);
    }
    table
}

/// Table-driven checksum of a byte slice: the optimised strategy. It returns
/// `crc_of` of the input, exactly as the bit-by-bit `crc16` does, so the two
/// strategies agree on every byte sequence.
pub fn crc16_table_driven(data: &[u8]) -> (r: u16)
    ensures
        r == crc_of(data@),
{
    let table: Vec<u16> = generate_crc_table();
    let mut crc: u16 = 0;
    for i in 0..data.len()
        invariant
            crc == crc_of(data@.take(i as int)),
            table@.len() == 256,
            forall|j: int| 0 <= j < 256 ==> #[trigger] table@[j] == crc_step(0, j as u8),
    {
        let byte: u8 = data[i];
        let prev: u16 = crc;
        let tmp: u16 = (crc >> 8) ^ (byte as u16);
        let idx: usize = (tmp & 0xFF) as usize;
        proof {
            assert((tmp & 0xFF) < 256 && ((tmp & 0xFF) as usize) as u8 == (tmp & 0xFF) as u8)
                by (bit_vector);
        }
        crc = (crc << 8) ^ table[idx];
        proof {
            lemma_table_step(prev, byte);
            assert(data@.take(i + 1).drop_last() =~= data@.take(i as int));
            assert(data@.take(i + 1).last() == data@[i as int]);
        }
    }
    proof {
        assert(data@.take(data@.len() as int) =~= data@);
    }
    crc
}

} // verus!
