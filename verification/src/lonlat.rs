//! The fixed-width degrees-minutes coordinate codec. A coordinate is held as
//! a signed count of thousandths of an arcminute, the finest unit the wire
//! format can carry: `ddmm.mm` text contributes hundredths of a minute, and
//! the `!Wab!` additional-precision token one more digit below that.

use vstd::prelude::*;
use crate::lex::{is_digit, digit_val};

verus! {

/// Latitude as signed thousandths of an arcminute; positive is north.
/// One thousandth of an arcminute is 1/60000 of a degree.
#[derive(Debug, Clone, Copy, PartialEq, Eq, Structural)]
pub struct Latitude {
    pub raw: i32,
}

/// Longitude as signed thousandths of an arcminute; positive is east.
#[derive(Debug, Clone, Copy, PartialEq, Eq, Structural)]
pub struct Longitude {
    pub raw: i32,
}

/// 90 degrees, plus the largest additional-precision correction.
pub open spec fn lat_wf(v: int) -> bool {
    -5400009 <= v <= 5400009
}

/// 180 degrees, plus the largest additional-precision correction.
pub open spec fn lon_wf(v: int) -> bool {
    -10800009 <= v <= 10800009
}

pub open spec fn abs_of(v: int) -> int {
    if v >= 0 {
        v
    } else {
        -v
    }
}

/// The magnitude of `ddmm.mm` text in thousandths of a minute, degrees first.
pub open spec fn lat_mag(s: Seq<u8>) -> nat
    recommends
        s.len() == 8,
{
    (digit_val(s[0]) * 10 + digit_val(s[1])) * 60000 + ((digit_val(s[2]) * 10 + digit_val(s[3]))
        * 100 + digit_val(s[5]) * 10 + digit_val(s[6])) * 10
}

pub open spec fn lat_shape(s: Seq<u8>) -> bool {
    s.len() == 8 && is_digit(s[0]) && is_digit(s[1]) && is_digit(s[2]) && is_digit(s[3]) && s[4]
        == 46 && is_digit(s[5]) && is_digit(s[6]) && (s[7] == 78 || s[7] == 83)
}

/// `ddmm.mmN` or `ddmm.mmS`, at most 90 degrees; south is negative.
pub open spec fn spec_parse_lat(s: Seq<u8>) -> Option<int> {
    if lat_shape(s) && lat_mag(s) <= 5400000 {
        Some(
            if s[7] == 83 {
                -(lat_mag(s) as int)
            } else {
                lat_mag(s) as int
            },
        )
    } else {
        None
    }
}

/// The magnitude of `dddmm.mm` text in thousandths of a minute.
pub open spec fn lon_mag(s: Seq<u8>) -> nat
    recommends
        s.len() == 9,
{
    (digit_val(s[0]) * 100 + digit_val(s[1]) * 10 + digit_val(s[2])) * 60000 + ((digit_val(s[3])
        * 10 + digit_val(s[4])) * 100 + digit_val(s[6]) * 10 + digit_val(s[7])) * 10
}

pub open spec fn lon_shape(s: Seq<u8>) -> bool {
    s.len() == 9 && is_digit(s[0]) && is_digit(s[1]) && is_digit(s[2]) && is_digit(s[3]) && is_digit(
        s[4],
    ) && s[5] == 46 && is_digit(s[6]) && is_digit(s[7]) && (s[8] == 69 || s[8] == 87)
}

/// `dddmm.mmE` or `dddmm.mmW`, at most 180 degrees; west is negative.
pub open spec fn spec_parse_lon(s: Seq<u8>) -> Option<int> {
    if lon_shape(s) && lon_mag(s) <= 10800000 {
        Some(
            if s[8] == 87 {
                -(lon_mag(s) as int)
            } else {
                lon_mag(s) as int
            },
        )
    } else {
        None
    }
}

/// The value rounded half-up to the hundredths of a minute that the text
/// carries.
pub open spec fn round10(v: int) -> int {
    if v >= 0 {
        10 * ((v + 5) / 10)
    } else {
        -(10 * (((-v) + 5) / 10))
    }
}

/// Whole hundredths of a minute in the magnitude of `v`, the thousandth
/// digit rounded half-up.
pub open spec fn coord_hundredths(v: int) -> int {
    (abs_of(v) + 5) / 10
}

/// Whole degrees in the magnitude of `v`.
pub open spec fn coord_deg(v: int) -> int {
    coord_hundredths(v) / 6000
}

/// Hundredths of a minute below the whole degrees of `v`.
pub open spec fn coord_min100(v: int) -> int {
    coord_hundredths(v) % 6000
}

pub open spec fn two_digits_i(n: int) -> Seq<u8>
    recommends
        0 <= n <= 99,
{
    seq![(48 + n / 10) as u8, (48 + n % 10) as u8]
}

pub open spec fn three_digits_i(n: int) -> Seq<u8>
    recommends
        0 <= n <= 999,
{
    seq![(48 + n / 100) as u8, (48 + (n / 10) % 10) as u8, (48 + n % 10) as u8]
}

/// Encoded latitude text: degrees, minutes to two decimals (the thousandth
/// rounded half-up), and the hemisphere letter.
pub open spec fn spec_encode_lat(v: int) -> Seq<u8>
    recommends
        lat_wf(v),
{
    two_digits_i(coord_deg(v)) + two_digits_i(coord_min100(v) / 100) + seq![46u8] + two_digits_i(
        coord_min100(v) % 100,
    ) + seq![
        (if v >= 0 {
            78u8
        } else {
            83u8
        }),
    ]
}

/// Encoded longitude text: three degree digits, minutes to two decimals, and
/// the hemisphere letter.
pub open spec fn spec_encode_lon(v: int) -> Seq<u8>
    recommends
        lon_wf(v),
{
    three_digits_i(coord_deg(v)) + two_digits_i(coord_min100(v) / 100) + seq![46u8] + two_digits_i(
        coord_min100(v) % 100,
    ) + seq![
        (if v >= 0 {
            69u8
        } else {
            87u8
        }),
    ]
}

impl Latitude {
    /// Parses `ddmm.mmN`/`ddmm.mmS` latitude text.
    pub fn parse(s: &[u8]) -> (r: Option<Latitude>)
        ensures
            match r {
                Some(la) => spec_parse_lat(s@) == Some(la.raw as int) && -5400000 <= la.raw
                    <= 5400000,
                None => spec_parse_lat(s@) is None,
            },
    {
        if s.len() != 8 {
            return None;
        }
        let d0 = s[0];
        let d1 = s[1];
        let d2 = s[2];
        let d3 = s[3];
        let d5 = s[5];
        let d6 = s[6];
        let hem = s[7];
        if !(48 <= d0 && d0 <= 57 && 48 <= d1 && d1 <= 57 && 48 <= d2 && d2 <= 57 && 48 <= d3 && d3
            <= 57 && 48 <= d5 && d5 <= 57 && 48 <= d6 && d6 <= 57) {
            return None;
        }
        if s[4] != 46 || !(hem == 78 || hem == 83) {
            return None;
        }
        let m: u32 = (((d0 - 48) as u32) * 10 + ((d1 - 48) as u32)) * 60000 + ((((d2 - 48) as u32)
            * 10 + ((d3 - 48) as u32)) * 100 + ((d5 - 48) as u32) * 10 + ((d6 - 48) as u32)) * 10;
        if m > 5400000 {
            return None;
        }
        if hem == 83 {
            Some(Latitude { raw: -(m as i32) })
        } else {
            Some(Latitude { raw: m as i32 })
        }
    }

    /// Renders the latitude back to `ddmm.mmN`/`ddmm.mmS` text, the
    /// thousandth-of-a-minute digit rounded half-up.
    pub fn encode(&self) -> (r: Vec<u8>)
        requires
            lat_wf(self.raw as int),
        ensures
            r@ == spec_encode_lat(self.raw as int),
    {
        let v = self.raw;
        let mag: u32 = if v >= 0 {
            v as u32
        } else {
            (-v) as u32
        };
        let t: u32 = (mag + 5) / 10;
        let deg: u32 = t / 6000;
        let min100: u32 = t % 6000;
        let mm: u32 = min100 / 100;
        let ff: u32 = min100 % 100;
        let mut out: Vec<u8> = Vec::new();
        out.push(48 + (deg / 10) as u8);
        out.push(48 + (deg % 10) as u8);
        out.push(48 + (mm / 10) as u8);
        out.push(48 + (mm % 10) as u8);
        out.push(46);
        out.push(48 + (ff / 10) as u8);
        out.push(48 + (ff % 10) as u8);
        out.push(
            if v >= 0 {
                78
            } else {
                83
            },
        );
        proof {
            assert(out@ =~= spec_encode_lat(self.raw as int));
        }
        out
    }

    /// Applies the additional-precision digit, a correction of
    /// `extra` thousandths of a minute added to the signed value.
    pub fn with_precision(self, extra: u8) -> (r: Latitude)
        requires
            -5400000 <= self.raw <= 5400000,
            extra <= 9,
        ensures
            r.raw == self.raw + extra,
            lat_wf(r.raw as int),
    {
        Latitude { raw: self.raw + extra as i32 }
    }
}

impl Longitude {
    /// Parses `dddmm.mmE`/`dddmm.mmW` longitude text.
    pub fn parse(s: &[u8]) -> (r: Option<Longitude>)
        ensures
            match r {
                Some(lo) => spec_parse_lon(s@) == Some(lo.raw as int) && -10800000 <= lo.raw
                    <= 10800000,
                None => spec_parse_lon(s@) is None,
            },
    {
        if s.len() != 9 {
            return None;
        }
        let d0 = s[0];
        let d1 = s[1];
        let d2 = s[2];
        let d3 = s[3];
        let d4 = s[4];
        let d6 = s[6];
        let d7 = s[7];
        let hem = s[8];
        if !(48 <= d0 && d0 <= 57 && 48 <= d1 && d1 <= 57 && 48 <= d2 && d2 <= 57 && 48 <= d3 && d3
            <= 57 && 48 <= d4 && d4 <= 57 && 48 <= d6 && d6 <= 57 && 48 <= d7 && d7 <= 57) {
            return None;
        }
        if s[5] != 46 || !(hem == 69 || hem == 87) {
            return None;
        }
        let m: u32 = (((d0 - 48) as u32) * 100 + ((d1 - 48) as u32) * 10 + ((d2 - 48) as u32))
            * 60000 + ((((d3 - 48) as u32) * 10 + ((d4 - 48) as u32)) * 100 + ((d6 - 48) as u32)
            * 10 + ((d7 - 48) as u32)) * 10;
        if m > 10800000 {
            return None;
        }
        if hem == 87 {
            Some(Longitude { raw: -(m as i32) })
        } else {
            Some(Longitude { raw: m as i32 })
        }
    }

    /// Renders the longitude back to `dddmm.mmE`/`dddmm.mmW` text, the
    /// thousandth-of-a-minute digit rounded half-up.
    pub fn encode(&self) -> (r: Vec<u8>)
        requires
            lon_wf(self.raw as int),
        ensures
            r@ == spec_encode_lon(self.raw as int),
    {
        let v = self.raw;
        let mag: u32 = if v >= 0 {
            v as u32
        } else {
            (-v) as u32
        };
        let t: u32 = (mag + 5) / 10;
        let deg: u32 = t / 6000;
        let min100: u32 = t % 6000;
        let mm: u32 = min100 / 100;
        let ff: u32 = min100 % 100;
        let mut out: Vec<u8> = Vec::new();
        out.push(48 + (deg / 100) as u8);
        out.push(48 + ((deg / 10) % 10) as u8);
        out.push(48 + (deg % 10) as u8);
        out.push(48 + (mm / 10) as u8);
        out.push(48 + (mm % 10) as u8);
        out.push(46);
        out.push(48 + (ff / 10) as u8);
        out.push(48 + (ff % 10) as u8);
        out.push(
            if v >= 0 {
                69
            } else {
                87
            },
        );
        proof {
            assert(out@ =~= spec_encode_lon(self.raw as int));
        }
        out
    }

    /// Applies the additional-precision digit, a correction of
    /// `extra` thousandths of a minute added to the signed value.
    pub fn with_precision(self, extra: u8) -> (r: Longitude)
        requires
            -10800000 <= self.raw <= 10800000,
            extra <= 9,
        ensures
            r.raw == self.raw + extra,
            lon_wf(r.raw as int),
    {
        Longitude { raw: self.raw + extra as i32 }
    }
}

/// Parsing an encoded latitude gives the value back rounded to the hundredth
/// of a minute the text carries: exact whenever the value holds no
/// additional-precision remainder, and within 5 thousandths (half the text's
/// resolution) always. The bound on `v` leaves out the few values within a
/// hundredth of a minute of the pole, where rounding would leave the range.
pub proof fn lemma_lat_round_trip(v: int)
    requires
        -5400004 <= v <= 5400004,
    ensures
        spec_parse_lat(spec_encode_lat(v)) == Some(round10(v)),
        abs_of(round10(v) - v) <= 5,
        v % 10 == 0 ==> round10(v) == v,
{
    let s = spec_encode_lat(v);
    let t = coord_hundredths(v);
    let deg = coord_deg(v);
    let min100 = coord_min100(v);
    assert(t <= 540000);
    assert(deg <= 90);
    assert(min100 <= 5999);
    assert(s.len() == 8);
    assert(s[0] == (48 + deg / 10) as u8);
    assert(s[1] == (48 + deg % 10) as u8);
    assert(s[2] == (48 + (min100 / 100) / 10) as u8);
    assert(s[3] == (48 + (min100 / 100) % 10) as u8);
    assert(s[4] == 46u8);
    assert(s[5] == (48 + (min100 % 100) / 10) as u8);
    assert(s[6] == (48 + (min100 % 100) % 10) as u8);
    assert(lat_shape(s));
    assert(lat_mag(s) == deg * 60000 + min100 * 10);
    assert(deg * 6000 + min100 == t);
    assert(lat_mag(s) == t * 10);
    assert(t * 10 == round10(abs_of(v)));
    if v >= 0 {
        assert(s[7] == 78u8);
        assert(spec_parse_lat(s) == Some(round10(v)));
    } else {
        assert(s[7] == 83u8);
        assert(spec_parse_lat(s) == Some(-(t * 10)));
        assert(round10(v) == -(10 * (((-v) + 5) / 10)));
    }
}

/// The longitude codec round-trips the same way, away from the antimeridian.
pub proof fn lemma_lon_round_trip(v: int)
    requires
        -10800004 <= v <= 10800004,
    ensures
        spec_parse_lon(spec_encode_lon(v)) == Some(round10(v)),
        abs_of(round10(v) - v) <= 5,
        v % 10 == 0 ==> round10(v) == v,
{
    let s = spec_encode_lon(v);
    let t = coord_hundredths(v);
    let deg = coord_deg(v);
    let min100 = coord_min100(v);
    assert(t <= 1080000);
    assert(deg <= 180);
    assert(min100 <= 5999);
    assert(s.len() == 9);
    assert(s[0] == (48 + deg / 100) as u8);
    assert(s[1] == (48 + (deg / 10) % 10) as u8);
    assert(s[2] == (48 + deg % 10) as u8);
    assert(s[3] == (48 + (min100 / 100) / 10) as u8);
    assert(s[4] == (48 + (min100 / 100) % 10) as u8);
    assert(s[5] == 46u8);
    assert(s[6] == (48 + (min100 % 100) / 10) as u8);
    assert(s[7] == (48 + (min100 % 100) % 10) as u8);
    assert(lon_shape(s));
    assert(digit_val(s[0]) * 100 + digit_val(s[1]) * 10 + digit_val(s[2]) == deg);
    assert(lon_mag(s) == deg * 60000 + min100 * 10);
    assert(deg * 6000 + min100 == t);
    assert(lon_mag(s) == t * 10);
    assert(t * 10 == round10(abs_of(v)));
    if v >= 0 {
        assert(s[8] == 69u8);
        assert(spec_parse_lon(s) == Some(round10(v)));
    } else {
        assert(s[8] == 87u8);
        assert(spec_parse_lon(s) == Some(-(t * 10)));
        assert(round10(v) == -(10 * (((-v) + 5) / 10)));
    }
}

} // verus!
