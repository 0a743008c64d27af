//! The two six-digit timestamp shapes: `HHMMSSh` time-of-day and `DDHHMMz`
//! (or `DDHHMM/`) day-and-time. Values are taken as written, without calendar
//! range checks beyond digit parsing.

use vstd::prelude::*;
use crate::lex::{is_digit, digit_val, all_digits};

verus! {

/// A report timestamp: either time-of-day (hour, minute, second) or
/// day-and-time (day, hour, minute).
#[derive(Debug, Clone, Copy, PartialEq, Eq, Structural)]
pub enum Timestamp {
    HHMMSS(u8, u8, u8),
    DDHHMM(u8, u8, u8),
}

impl Default for Timestamp {
    /// Midnight, in time-of-day form.
    fn default() -> (r: Self)
        ensures
            r == Timestamp::HHMMSS(0u8, 0u8, 0u8),
    {
        Timestamp::HHMMSS(0, 0, 0)
    }
}

/// Every field of a parsed timestamp is two digits.
pub open spec fn timestamp_wf(t: Timestamp) -> bool {
    match t {
        Timestamp::HHMMSS(a, b, c) => a <= 99 && b <= 99 && c <= 99,
        Timestamp::DDHHMM(a, b, c) => a <= 99 && b <= 99 && c <= 99,
    }
}

/// The two-digit number at positions `i`, `i + 1`.
pub open spec fn two_digit_val(s: Seq<u8>, i: int) -> u8
    recommends
        0 <= i,
        i + 2 <= s.len(),
{
    (digit_val(s[i]) * 10 + digit_val(s[i + 1])) as u8
}

/// Six digits and a type letter: `h` for time-of-day, `z` or `/` for
/// day-and-time; anything else fails.
pub open spec fn spec_parse_timestamp(s: Seq<u8>) -> Option<Timestamp> {
    if s.len() == 7 && all_digits(s.take(6)) {
        if s[6] == 104 {
            Some(Timestamp::HHMMSS(two_digit_val(s, 0), two_digit_val(s, 2), two_digit_val(s, 4)))
        } else if s[6] == 122 || s[6] == 47 {
            Some(Timestamp::DDHHMM(two_digit_val(s, 0), two_digit_val(s, 2), two_digit_val(s, 4)))
        } else {
            None
        }
    } else {
        None
    }
}

/// A two-digit zero-padded rendering.
pub open spec fn two_digits(n: u8) -> Seq<u8>
    recommends
        n <= 99,
{
    seq![(48 + n / 10) as u8, (48 + n % 10) as u8]
}

/// Time-of-day re-encodes with `h`; day-and-time always re-encodes with `z`.
pub open spec fn spec_encode_timestamp(t: Timestamp) -> Seq<u8> {
    match t {
        Timestamp::HHMMSS(a, b, c) => two_digits(a) + two_digits(b) + two_digits(c) + seq![104u8],
        Timestamp::DDHHMM(a, b, c) => two_digits(a) + two_digits(b) + two_digits(c) + seq![122u8],
    }
}

impl Timestamp {
    /// Parses the seven-character timestamp text.
    pub fn parse(s: &[u8]) -> (r: Option<Timestamp>)
        ensures
            r == spec_parse_timestamp(s@),
            r is Some ==> timestamp_wf(r->Some_0),
    {
        if s.len() != 7 {
            return None;
        }
        let mut k: usize = 0;
        while k < 6
            invariant
                0 <= k <= 6,
                s@.len() == 7,
                forall|j: int| 0 <= j < k ==> is_digit(#[trigger] s@[j]),
            decreases 6 - k,
        {
            let b = s[k];
            if !(48 <= b && b <= 57) {
                assert(s@.take(6)[k as int] == s@[k as int]);
                assert(!all_digits(s@.take(6)));
                return None;
            }
            k = k + 1;
        }
        proof {
            assert forall|j: int| 0 <= j < 6 implies is_digit(#[trigger] s@.take(6)[j]) by {
                assert(s@.take(6)[j] == s@[j]);
            }
        }
        let a: u8 = (s[0] - 48) * 10 + (s[1] - 48);
        let b: u8 = (s[2] - 48) * 10 + (s[3] - 48);
        let c: u8 = (s[4] - 48) * 10 + (s[5] - 48);
        if s[6] == 104 {
            Some(Timestamp::HHMMSS(a, b, c))
        } else if s[6] == 122 || s[6] == 47 {
            Some(Timestamp::DDHHMM(a, b, c))
        } else {
            None
        }
    }

    /// Renders the timestamp back to its seven-character text.
    pub fn encode(&self) -> (r: Vec<u8>)
        requires
            timestamp_wf(*self),
        ensures
            r@ == spec_encode_timestamp(*self),
    {
        let mut out: Vec<u8> = Vec::new();
        let (a, b, c, letter): (u8, u8, u8, u8) = match self {
            Timestamp::HHMMSS(a, b, c) => (*a, *b, *c, 104),
            Timestamp::DDHHMM(a, b, c) => (*a, *b, *c, 122),
        };
        out.push(48 + a / 10);
        out.push(48 + a % 10);
        out.push(48 + b / 10);
        out.push(48 + b % 10);
        out.push(48 + c / 10);
        out.push(48 + c % 10);
        out.push(letter);
        proof {
            assert(out@ =~= spec_encode_timestamp(*self));
        }
        out
    }
}

/// Parsing an encoded timestamp gives the timestamp back unchanged: the codec
/// round-trips exactly, time-of-day through `h` and day-and-time through `z`.
pub proof fn lemma_timestamp_round_trip(t: Timestamp)
    requires
        timestamp_wf(t),
    ensures
        spec_parse_timestamp(spec_encode_timestamp(t)) == Some(t),
{
    let s = spec_encode_timestamp(t);
    assert(s.len() == 7);
    match t {
        Timestamp::HHMMSS(a, b, c) => {
            assert(s[0] == 48 + a / 10 && s[1] == 48 + a % 10);
            assert(s[2] == 48 + b / 10 && s[3] == 48 + b % 10);
            assert(s[4] == 48 + c / 10 && s[5] == 48 + c % 10);
            assert(s[6] == 104);
            assert(all_digits(s.take(6))) by {
                assert forall|j: int| 0 <= j < 6 implies is_digit(#[trigger] s.take(6)[j]) by {
                    assert(s.take(6)[j] == s[j]);
                }
            }
            assert(two_digit_val(s, 0) == a);
            assert(two_digit_val(s, 2) == b);
            assert(two_digit_val(s, 4) == c);
        },
        Timestamp::DDHHMM(a, b, c) => {
            assert(s[0] == 48 + a / 10 && s[1] == 48 + a % 10);
            assert(s[2] == 48 + b / 10 && s[3] == 48 + b % 10);
            assert(s[4] == 48 + c / 10 && s[5] == 48 + c % 10);
            assert(s[6] == 122);
            assert(all_digits(s.take(6))) by {
                assert forall|j: int| 0 <= j < 6 implies is_digit(#[trigger] s.take(6)[j]) by {
                    assert(s.take(6)[j] == s[j]);
                }
            }
            assert(two_digit_val(s, 0) == a);
            assert(two_digit_val(s, 2) == b);
            assert(two_digit_val(s, 4) == c);
        },
    }
}

} // verus!
