use vstd::prelude::*;

verus! {

/// One shift round of the CRC-16 register: shift left, and on carry out of
/// bit 15 fold the CCITT polynomial 0x1021 back in.
pub open spec fn crc16_round(crc: u16) -> u16 {
    if crc & 0x8000 != 0 {
        (crc << 1) ^ 0x1021
    } else {
        crc << 1
    }
}

/// `n` shift rounds applied to `crc`.
pub open spec fn crc16_rounds(crc: u16, n: nat) -> u16
    decreases n,
{
    if n == 0 {
        crc
    } else {
        crc16_round(crc16_rounds(crc, (n - 1) as nat))
    }
}

/// Folding one input byte into the CRC-16 register.
pub open spec fn crc16_byte(crc: u16, byte: u8) -> u16 {
    crc16_rounds(crc ^ ((byte as u16) << 8), 8)
}

/// The CRC-16 of a byte sequence: register starts at zero, bytes are
/// processed MSB-first with polynomial 0x1021 (CRC-16/XMODEM).
pub open spec fn crc16_spec(data: Seq<u8>) -> u16
    decreases data.len(),
{
    if data.len() == 0 {
        0
    } else {
        crc16_byte(crc16_spec(data.drop_last()), data.last())
    }
}

/// Computes the CRC-16/XMODEM checksum of `data`.
pub fn crc16(data: &[u8]) -> (crc: u16)
    ensures
        crc == crc16_spec(data@),
{
    let mut crc: u16 = 0;
    let mut i: usize = 0;
    while i < data.len()
        invariant
            i <= data@.len(),
            crc == crc16_spec(data@.take(i as int)),
        decreases data@.len() - i,
    {
        crc = crc ^ ((data[i] as u16) << 8u16);
        let mut round: usize = 0;
        while round < 8
            invariant
                round <= 8,
                crc == crc16_rounds(
                    crc16_spec(data@.take(i as int)) ^ ((data@[i as int] as u16) << 8),
                    round as nat,
                ),
            decreases 8 - round,
        {
            if crc & 0x8000 != 0 {
                crc = (crc << 1u16) ^ 0x1021;
            } else {
                crc = crc << 1u16;
            }
            round = round + 1;
        }
        proof {
            assert(data@.take(i + 1).drop_last() =~= data@.take(i as int));
            assert(data@.take(i + 1).last() == data@[i as int]);
        }
        i = i + 1;
    }
    proof {
        assert(data@.take(data@.len() as int) =~= data@);
    }
    crc
}

} // verus!
