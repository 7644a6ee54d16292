use vstd::prelude::*;

use crate::encoding::{Decoder, Encoder};
use crate::errors::{DecodeError, DecodeReason, DecodeResult, EncodeError, EncodeResult};

verus! {

/// The eight calendar/time fields of the device clock. Each field is
/// stored on the wire as binary-coded decimal: the two decimal digits of
/// the value become the two hex digits of the byte.
#[derive(Debug, Clone, Copy, PartialEq, Eq, Structural)]
pub struct RealTimeClock {
    pub week: u8,
    pub week_day: u8,
    pub year: u8,
    pub month: u8,
    pub day: u8,
    pub hour: u8,
    pub minute: u8,
    pub second: u8,
}

/// The binary-coded-decimal byte of a two-digit value.
pub open spec fn spec_bcd(v: u8) -> u8
    recommends
        v <= 99,
{
    (16 * (v / 10) + v % 10) as u8
}

/// Whether both hex digits of a byte are decimal digits.
pub open spec fn spec_bcd_valid(b: u8) -> bool {
    b / 16 <= 9 && b % 16 <= 9
}

/// The two-digit value of a binary-coded-decimal byte.
pub open spec fn spec_unbcd(b: u8) -> u8
    recommends
        spec_bcd_valid(b),
{
    (10 * (b / 16) + b % 16) as u8
}

/// Encoding then decoding a two-digit value is the identity, and the
/// encoded byte is itself valid.
pub proof fn lemma_bcd_round_trip(v: u8)
    requires
        v <= 99,
    ensures
        spec_bcd_valid(spec_bcd(v)),
        spec_unbcd(spec_bcd(v)) == v,
{
    assert(spec_bcd(v) / 16 == v / 10 && spec_bcd(v) % 16 == v % 10) by (nonlinear_arith)
        requires
            v <= 99,
    ;
}

impl RealTimeClock {
    /// Whether every field fits two decimal digits, which is what the
    /// wire format can carry.
    pub open spec fn valid(&self) -> bool {
        self.week <= 99 && self.week_day <= 99 && self.year <= 99 && self.month <= 99
            && self.day <= 99 && self.hour <= 99 && self.minute <= 99 && self.second <= 99
    }

    /// The eight wire bytes of a valid clock value, in field order.
    pub open spec fn spec_bytes(&self) -> Seq<u8>
        recommends
            self.valid(),
    {
        seq![
            spec_bcd(self.week),
            spec_bcd(self.week_day),
            spec_bcd(self.year),
            spec_bcd(self.month),
            spec_bcd(self.day),
            spec_bcd(self.hour),
            spec_bcd(self.minute),
            spec_bcd(self.second),
        ]
    }

    /// Appends the eight binary-coded-decimal bytes; any field above 99
    /// fails with `Overflow` and leaves the encoder unchanged.
    pub fn encode(&self, encoder: &mut Encoder) -> (r: EncodeResult)
        ensures
            match r {
                Ok(u) => self.valid() && final(encoder)@ == old(encoder)@ + self.spec_bytes(),
                Err(e) => e == EncodeError::Overflow && !self.valid() && *final(encoder) == *old(encoder),
            },
    {
        if self.week > 99 || self.week_day > 99 || self.year > 99 || self.month > 99 || self.day
            > 99 || self.hour > 99 || self.minute > 99 || self.second > 99 {
            return Err(EncodeError::Overflow);
        }
        encoder.write_u8(bcd_byte(self.week));
        encoder.write_u8(bcd_byte(self.week_day));
        encoder.write_u8(bcd_byte(self.year));
        encoder.write_u8(bcd_byte(self.month));
        encoder.write_u8(bcd_byte(self.day));
        encoder.write_u8(bcd_byte(self.hour));
        encoder.write_u8(bcd_byte(self.minute));
        encoder.write_u8(bcd_byte(self.second));
        assert(encoder@ =~= old(encoder)@ + self.spec_bytes());
        Ok(())
    }

    /// Reads the eight binary-coded-decimal bytes in field order.
    pub fn decode(decoder: &mut Decoder) -> (r: DecodeResult<Self>)
        ensures
            ({
                let rem = old(decoder).remaining_bytes();
                match r {
                    Ok(rtc) => spec_parse_rtc(rem) == Ok::<RealTimeClock, DecodeError>(rtc)
                        && rtc.valid() && final(decoder).remaining_bytes() == rem.skip(8),
                    Err(e) => spec_parse_rtc(rem) == Err::<RealTimeClock, DecodeError>(e),
                }
            }),
    {
        let week = read_bcd(decoder)?;
        let week_day = read_bcd(decoder)?;
        let year = read_bcd(decoder)?;
        let month = read_bcd(decoder)?;
        let day = read_bcd(decoder)?;
        let hour = read_bcd(decoder)?;
        let minute = read_bcd(decoder)?;
        let second = read_bcd(decoder)?;
        let rtc = RealTimeClock { week, week_day, year, month, day, hour, minute, second };
        proof {
            let rem = old(decoder).remaining_bytes();
            assert(rem.skip(1).skip(1) =~= rem.skip(2));
            assert(rem.skip(2).skip(1) =~= rem.skip(3));
            assert(rem.skip(3).skip(1) =~= rem.skip(4));
            assert(rem.skip(4).skip(1) =~= rem.skip(5));
            assert(rem.skip(5).skip(1) =~= rem.skip(6));
            assert(rem.skip(6).skip(1) =~= rem.skip(7));
            assert(rem.skip(7).skip(1) =~= rem.skip(8));
        }
        Ok(rtc)
    }

    /// Decoding the encoding of any valid clock value yields the value
    /// back (with all eight bytes consumed and none to spare).
    pub proof fn lemma_round_trip(rtc: RealTimeClock)
        requires
            rtc.valid(),
        ensures
            spec_parse_rtc(rtc.spec_bytes()) == Ok::<RealTimeClock, DecodeError>(rtc),
    {
        lemma_bcd_round_trip(rtc.week);
        lemma_bcd_round_trip(rtc.week_day);
        lemma_bcd_round_trip(rtc.year);
        lemma_bcd_round_trip(rtc.month);
        lemma_bcd_round_trip(rtc.day);
        lemma_bcd_round_trip(rtc.hour);
        lemma_bcd_round_trip(rtc.minute);
        lemma_bcd_round_trip(rtc.second);
    }
}

/// What decoding a clock value reads from the first eight bytes of `b`:
/// each byte must be binary-coded decimal, checked in field order, a
/// missing byte failing before an invalid one at a later position.
pub open spec fn spec_parse_rtc(b: Seq<u8>) -> Result<RealTimeClock, DecodeError> {
    if b.len() < 1 {
        Err(DecodeError::MissingData)
    } else if !spec_bcd_valid(b[0]) {
        Err(DecodeError::InvalidData(DecodeReason::InvalidTimeData))
    } else if b.len() < 2 {
        Err(DecodeError::MissingData)
    } else if !spec_bcd_valid(b[1]) {
        Err(DecodeError::InvalidData(DecodeReason::InvalidTimeData))
    } else if b.len() < 3 {
        Err(DecodeError::MissingData)
    } else if !spec_bcd_valid(b[2]) {
        Err(DecodeError::InvalidData(DecodeReason::InvalidTimeData))
    } else if b.len() < 4 {
        Err(DecodeError::MissingData)
    } else if !spec_bcd_valid(b[3]) {
        Err(DecodeError::InvalidData(DecodeReason::InvalidTimeData))
    } else if b.len() < 5 {
        Err(DecodeError::MissingData)
    } else if !spec_bcd_valid(b[4]) {
        Err(DecodeError::InvalidData(DecodeReason::InvalidTimeData))
    } else if b.len() < 6 {
        Err(DecodeError::MissingData)
    } else if !spec_bcd_valid(b[5]) {
        Err(DecodeError::InvalidData(DecodeReason::InvalidTimeData))
    } else if b.len() < 7 {
        Err(DecodeError::MissingData)
    } else if !spec_bcd_valid(b[6]) {
        Err(DecodeError::InvalidData(DecodeReason::InvalidTimeData))
    } else if b.len() < 8 {
        Err(DecodeError::MissingData)
    } else if !spec_bcd_valid(b[7]) {
        Err(DecodeError::InvalidData(DecodeReason::InvalidTimeData))
    } else {
        Ok(
            RealTimeClock {
                week: spec_unbcd(b[0]),
                week_day: spec_unbcd(b[1]),
                year: spec_unbcd(b[2]),
                month: spec_unbcd(b[3]),
                day: spec_unbcd(b[4]),
                hour: spec_unbcd(b[5]),
                minute: spec_unbcd(b[6]),
                second: spec_unbcd(b[7]),
            },
        )
    }
}

/// The binary-coded-decimal byte of a two-digit value.
fn bcd_byte(v: u8) -> (r: u8)
    requires
        v <= 99,
    ensures
        r == spec_bcd(v),
{
    16 * (v / 10) + v % 10
}

/// Reads one byte and checks that both its hex digits are decimal.
fn read_bcd(decoder: &mut Decoder) -> (r: DecodeResult<u8>)
    ensures
        ({
            let rem = old(decoder).remaining_bytes();
            match r {
                Ok(v) => rem.len() >= 1 && spec_bcd_valid(rem[0]) && v == spec_unbcd(rem[0]) && v
                    <= 99 && final(decoder).remaining_bytes() == rem.skip(1),
                Err(e) => (rem.len() == 0 && e == DecodeError::MissingData) || (rem.len() >= 1
                    && !spec_bcd_valid(rem[0]) && e == DecodeError::InvalidData(
                    DecodeReason::InvalidTimeData,
                )),
            }
        }),
{
    let byte = decoder.read_u8()?;
    let high = byte / 16;
    let low = byte % 16;
    if high > 9 || low > 9 {
        return Err(DecodeError::InvalidData(DecodeReason::InvalidTimeData));
    }
    Ok(10 * high + low)
}

} // verus!
