//! The comment classifier for position reports. The comment text splits into
//! whitespace tokens; each token is tried against a fixed priority order of
//! rules and the first match wins. A field, once set, is never overwritten: a
//! second token of the same shape, and any token that matches no rule or
//! fails a numeric sub-parse, lands verbatim in `unparsed`.

use vstd::prelude::*;
use crate::decimal::{Decimal, spec_parse_decimal, parse_decimal};
use crate::lex::{
    is_digit, find_byte, find_byte_at, lemma_find_byte, spec_parse_uint, parse_uint,
    spec_parse_i16, parse_i16, spec_parse_hex, parse_hex, svu_split, svu_value, svu_unit,
    split_value_unit, spec_tokens, tokenize, vecs_view, join_tokens, join_spaces, push_tok,
    slice_to_vec_u8,
};

verus! {

/// The `!Wab!` sub-minute correction digits for latitude and longitude.
#[derive(Debug, PartialEq, Eq, Clone, Copy, Structural)]
pub struct AdditionalPrecision {
    pub lat: u8,
    pub lon: u8,
}

/// A bit-packed station identity. The legacy ten-character form has a
/// one-byte detail field and no reserved bits; the extended twelve-character
/// form has a two-byte detail field whose low four bits are kept in
/// `reserved`.
#[derive(Debug, PartialEq, Eq, Clone, Copy)]
pub struct ID {
    pub address_type: u8,
    pub aircraft_type: u8,
    pub is_stealth: bool,
    pub is_notrack: bool,
    pub address: u32,
    pub reserved: Option<u8>,
}

/// The typed fields a position comment can carry. Every field is optional;
/// `unparsed` holds the tokens that matched nothing, space-joined in order.
#[derive(Debug, PartialEq, Clone)]
pub struct PositionComment {
    pub course: Option<u16>,
    pub speed: Option<u16>,
    pub altitude: Option<u32>,
    pub additional_precision: Option<AdditionalPrecision>,
    pub id: Option<ID>,
    pub climb_rate: Option<i16>,
    pub turn_rate: Option<Decimal>,
    pub signal_quality: Option<Decimal>,
    pub error: Option<u8>,
    pub frequency_offset: Option<Decimal>,
    pub gps_quality: Option<Vec<u8>>,
    pub flight_level: Option<Decimal>,
    pub signal_power: Option<Decimal>,
    pub software_version: Option<Decimal>,
    pub hardware_version: Option<u8>,
    pub original_address: Option<u32>,
    pub unparsed: Option<Vec<u8>>,
}

/// The mathematical shadow of `PositionComment`, byte strings as sequences.
#[verifier::ext_equal]
pub struct PositionCommentView {
    pub course: Option<u16>,
    pub speed: Option<u16>,
    pub altitude: Option<u32>,
    pub additional_precision: Option<AdditionalPrecision>,
    pub id: Option<ID>,
    pub climb_rate: Option<i16>,
    pub turn_rate: Option<Decimal>,
    pub signal_quality: Option<Decimal>,
    pub error: Option<u8>,
    pub frequency_offset: Option<Decimal>,
    pub gps_quality: Option<Seq<u8>>,
    pub flight_level: Option<Decimal>,
    pub signal_power: Option<Decimal>,
    pub software_version: Option<Decimal>,
    pub hardware_version: Option<u8>,
    pub original_address: Option<u32>,
    pub unparsed: Option<Seq<u8>>,
}

pub open spec fn opt_bytes(o: Option<Vec<u8>>) -> Option<Seq<u8>> {
    match o {
        Some(v) => Some(v@),
        None => None,
    }
}

impl View for PositionComment {
    type V = PositionCommentView;

    open spec fn view(&self) -> PositionCommentView {
        PositionCommentView {
            course: self.course,
            speed: self.speed,
            altitude: self.altitude,
            additional_precision: self.additional_precision,
            id: self.id,
            climb_rate: self.climb_rate,
            turn_rate: self.turn_rate,
            signal_quality: self.signal_quality,
            error: self.error,
            frequency_offset: self.frequency_offset,
            gps_quality: opt_bytes(self.gps_quality),
            flight_level: self.flight_level,
            signal_power: self.signal_power,
            software_version: self.software_version,
            hardware_version: self.hardware_version,
            original_address: self.original_address,
            unparsed: opt_bytes(self.unparsed),
        }
    }
}

impl Default for PositionComment {
    /// The empty field set.
    fn default() -> (r: Self)
        ensures
            r@ == pc_init().pc,
            r.unparsed is None,
    {
        PositionComment {
            course: None,
            speed: None,
            altitude: None,
            additional_precision: None,
            id: None,
            climb_rate: None,
            turn_rate: None,
            signal_quality: None,
            error: None,
            frequency_offset: None,
            gps_quality: None,
            flight_level: None,
            signal_power: None,
            software_version: None,
            hardware_version: None,
            original_address: None,
            unparsed: None,
        }
    }
}

// ---------------------------------------------------------------------------
// Rule shapes and extractors
// ---------------------------------------------------------------------------

/// First slash of a course/speed/altitude token.
pub open spec fn csa_p1(t: Seq<u8>) -> int {
    find_byte(t, 47, 0)
}

/// Second slash of a course/speed/altitude token.
pub open spec fn csa_p2(t: Seq<u8>) -> int {
    if csa_p1(t) < t.len() {
        find_byte(t, 47, csa_p1(t) + 1)
    } else {
        t.len() as int
    }
}

pub open spec fn csa_course(t: Seq<u8>) -> Option<u32> {
    spec_parse_uint(t.subrange(0, csa_p1(t)), 65535)
}

pub open spec fn csa_speed(t: Seq<u8>) -> Option<u32> {
    spec_parse_uint(t.subrange(csa_p1(t) + 1, csa_p2(t)), 65535)
}

pub open spec fn csa_alt(t: Seq<u8>) -> Option<u32> {
    spec_parse_uint(t.subrange(csa_p2(t) + 3, t.len() as int), 0xFFFF_FFFFu32)
}

/// `ccc/sss/A=aaaaaa`: both slashes present, course at most 360, speed and
/// altitude numeric, the altitude after a literal `A=`.
pub open spec fn csa_ok(t: Seq<u8>) -> bool {
    csa_p1(t) < t.len() && csa_p2(t) < t.len() && csa_course(t) is Some && csa_course(t)->Some_0
        <= 360 && csa_speed(t) is Some && t.len() - csa_p2(t) >= 3 && t[csa_p2(t) + 1] == 65 && t[
        csa_p2(t) + 2
    ] == 61 && csa_alt(t) is Some
}

/// The detail bits of the legacy layout: stealth, no-track, four aircraft
/// type bits, two address type bits.
pub open spec fn legacy_id(d: u32, a: u32) -> ID {
    ID {
        address_type: (d & 3) as u8,
        aircraft_type: ((d >> 2) & 15) as u8,
        is_notrack: (d >> 6) & 1 == 1,
        is_stealth: (d >> 7) & 1 == 1,
        address: a,
        reserved: None,
    }
}

/// The detail bits of the extended layout: stealth, no-track, four aircraft
/// type bits, six address type bits, four reserved bits.
pub open spec fn extended_id(d: u32, a: u32) -> ID {
    ID {
        address_type: ((d >> 4) & 63) as u8,
        aircraft_type: ((d >> 10) & 15) as u8,
        is_notrack: (d >> 14) & 1 == 1,
        is_stealth: (d >> 15) & 1 == 1,
        address: a,
        reserved: Some((d & 15) as u8),
    }
}

/// `id` then hex digits: two plus six in the legacy form, four plus six in
/// the extended form.
pub open spec fn id_shape(t: Seq<u8>) -> bool {
    (t.len() == 10 || t.len() == 12) && t[0] == 105 && t[1] == 100
}

pub open spec fn spec_id_of(t: Seq<u8>) -> Option<ID> {
    if t.len() == 10 {
        if spec_parse_hex(t.subrange(2, 4)) is Some && spec_parse_hex(t.subrange(4, 10)) is Some {
            Some(
                legacy_id(
                    spec_parse_hex(t.subrange(2, 4))->Some_0,
                    spec_parse_hex(t.subrange(4, 10))->Some_0,
                ),
            )
        } else {
            None
        }
    } else if t.len() == 12 {
        if spec_parse_hex(t.subrange(2, 6)) is Some && spec_parse_hex(t.subrange(6, 12)) is Some {
            Some(
                extended_id(
                    spec_parse_hex(t.subrange(2, 6))->Some_0,
                    spec_parse_hex(t.subrange(6, 12))->Some_0,
                ),
            )
        } else {
            None
        }
    } else {
        None
    }
}

pub open spec fn is_unit_fpm(u: Seq<u8>) -> bool {
    u.len() == 3 && u[0] == 102 && u[1] == 112 && u[2] == 109
}

pub open spec fn is_unit_rot(u: Seq<u8>) -> bool {
    u.len() == 3 && u[0] == 114 && u[1] == 111 && u[2] == 116
}

pub open spec fn is_unit_db(u: Seq<u8>) -> bool {
    u.len() == 2 && u[0] == 100 && u[1] == 66
}

pub open spec fn is_unit_khz(u: Seq<u8>) -> bool {
    u.len() == 3 && u[0] == 107 && u[1] == 72 && u[2] == 122
}

pub open spec fn is_unit_e(u: Seq<u8>) -> bool {
    u.len() == 1 && u[0] == 101
}

pub open spec fn is_unit_dbm(u: Seq<u8>) -> bool {
    u.len() == 3 && u[0] == 100 && u[1] == 66 && u[2] == 109
}

/// The text after the `gps` prefix.
pub open spec fn gps_rest(t: Seq<u8>) -> Seq<u8> {
    t.skip(3)
}

pub open spec fn gps_xp(t: Seq<u8>) -> int {
    find_byte(gps_rest(t), 120, 0)
}

/// `gpsAxB`: two small numbers either side of a literal `x`.
pub open spec fn gps_ok(t: Seq<u8>) -> bool {
    gps_xp(t) < gps_rest(t).len() && spec_parse_uint(gps_rest(t).take(gps_xp(t)), 255) is Some
        && spec_parse_uint(gps_rest(t).skip(gps_xp(t) + 1), 255) is Some
}

pub open spec fn hw_of(t: Seq<u8>) -> Option<u8> {
    match spec_parse_hex(t.subrange(1, 3)) {
        Some(v) => Some(v as u8),
        None => None,
    }
}

// ---------------------------------------------------------------------------
// The fold over the token stream
// ---------------------------------------------------------------------------

/// The classifier state: the typed fields gathered so far and the tokens
/// pushed to `unparsed`, still unjoined.
#[verifier::ext_equal]
pub struct PcState {
    pub pc: PositionCommentView,
    pub un: Seq<Seq<u8>>,
}

pub open spec fn pc_init() -> PcState {
    PcState {
        pc: PositionCommentView {
            course: None,
            speed: None,
            altitude: None,
            additional_precision: None,
            id: None,
            climb_rate: None,
            turn_rate: None,
            signal_quality: None,
            error: None,
            frequency_offset: None,
            gps_quality: None,
            flight_level: None,
            signal_power: None,
            software_version: None,
            hardware_version: None,
            original_address: None,
            unparsed: None,
        },
        un: Seq::empty(),
    }
}

pub open spec fn pc_push(st: PcState, t: Seq<u8>) -> PcState {
    PcState { pc: st.pc, un: st.un.push(t) }
}

/// The suffix-unit rules, tried when a token splits into value and unit.
pub open spec fn pc_unit_step(st: PcState, t: Seq<u8>) -> PcState {
    if is_unit_fpm(svu_unit(t)) && st.pc.climb_rate is None {
        match spec_parse_i16(svu_value(t)) {
            Some(v) => PcState {
                pc: PositionCommentView { climb_rate: Some(v), ..st.pc },
                un: st.un,
            },
            None => pc_push(st, t),
        }
    } else if is_unit_rot(svu_unit(t)) && st.pc.turn_rate is None {
        match spec_parse_decimal(svu_value(t)) {
            Some(d) => PcState { pc: PositionCommentView { turn_rate: Some(d), ..st.pc }, un: st.un },
            None => pc_push(st, t),
        }
    } else if is_unit_db(svu_unit(t)) && st.pc.signal_quality is None {
        match spec_parse_decimal(svu_value(t)) {
            Some(d) => PcState {
                pc: PositionCommentView { signal_quality: Some(d), ..st.pc },
                un: st.un,
            },
            None => pc_push(st, t),
        }
    } else if is_unit_khz(svu_unit(t)) && st.pc.frequency_offset is None {
        match spec_parse_decimal(svu_value(t)) {
            Some(d) => PcState {
                pc: PositionCommentView { frequency_offset: Some(d), ..st.pc },
                un: st.un,
            },
            None => pc_push(st, t),
        }
    } else if is_unit_e(svu_unit(t)) && st.pc.error is None {
        match spec_parse_uint(svu_value(t), 255) {
            Some(v) => PcState {
                pc: PositionCommentView { error: Some(v as u8), ..st.pc },
                un: st.un,
            },
            None => pc_push(st, t),
        }
    } else if is_unit_dbm(svu_unit(t)) && st.pc.signal_power is None {
        match spec_parse_decimal(svu_value(t)) {
            Some(d) => PcState {
                pc: PositionCommentView { signal_power: Some(d), ..st.pc },
                un: st.un,
            },
            None => pc_push(st, t),
        }
    } else {
        pc_push(st, t)
    }
}

/// One classification step: the rules in priority order, first match wins,
/// and a failed sub-parse or no match pushes the token to `unparsed`.
pub open spec fn pc_step(st: PcState, i: int, t: Seq<u8>) -> PcState {
    if i == 0 && t.len() == 16 && st.pc.course is None {
        if csa_ok(t) {
            PcState {
                pc: PositionCommentView {
                    course: Some((csa_course(t)->Some_0) as u16),
                    speed: Some((csa_speed(t)->Some_0) as u16),
                    altitude: Some(csa_alt(t)->Some_0),
                    ..st.pc
                },
                un: st.un,
            }
        } else {
            pc_push(st, t)
        }
    } else if i == 0 && t.len() == 9 && t[0] == 47 && t[1] == 65 && t[2] == 61
        && st.pc.altitude is None {
        match spec_parse_uint(t.skip(3), 0xFFFF_FFFFu32) {
            Some(a) => PcState { pc: PositionCommentView { altitude: Some(a), ..st.pc }, un: st.un },
            None => pc_push(st, t),
        }
    } else if i == 1 && t.len() == 5 && t[0] == 33 && t[1] == 87 && t[4] == 33
        && st.pc.additional_precision is None {
        if is_digit(t[2]) && is_digit(t[3]) {
            PcState {
                pc: PositionCommentView {
                    additional_precision: Some(
                        AdditionalPrecision { lat: (t[2] - 48) as u8, lon: (t[3] - 48) as u8 },
                    ),
                    ..st.pc
                },
                un: st.un,
            }
        } else {
            pc_push(st, t)
        }
    } else if id_shape(t) && st.pc.id is None {
        match spec_id_of(t) {
            Some(id) => PcState { pc: PositionCommentView { id: Some(id), ..st.pc }, un: st.un },
            None => pc_push(st, t),
        }
    } else if svu_split(t) is Some {
        pc_unit_step(st, t)
    } else if t.len() >= 6 && t[0] == 103 && t[1] == 112 && t[2] == 115
        && st.pc.gps_quality is None {
        if gps_ok(t) {
            PcState {
                pc: PositionCommentView { gps_quality: Some(gps_rest(t)), ..st.pc },
                un: st.un,
            }
        } else {
            pc_push(st, t)
        }
    } else if t.len() >= 3 && t[0] == 70 && t[1] == 76 && st.pc.flight_level is None {
        match spec_parse_decimal(t.skip(2)) {
            Some(d) => PcState {
                pc: PositionCommentView { flight_level: Some(d), ..st.pc },
                un: st.un,
            },
            None => pc_push(st, t),
        }
    } else if t.len() >= 2 && t[0] == 115 && st.pc.software_version is None {
        match spec_parse_decimal(t.skip(1)) {
            Some(d) => PcState {
                pc: PositionCommentView { software_version: Some(d), ..st.pc },
                un: st.un,
            },
            None => pc_push(st, t),
        }
    } else if t.len() == 3 && t[0] == 104 && st.pc.hardware_version is None {
        match hw_of(t) {
            Some(v) => PcState {
                pc: PositionCommentView { hardware_version: Some(v), ..st.pc },
                un: st.un,
            },
            None => pc_push(st, t),
        }
    } else if t.len() == 7 && t[0] == 114 && st.pc.original_address is None {
        match spec_parse_hex(t.subrange(1, 7)) {
            Some(v) => PcState {
                pc: PositionCommentView { original_address: Some(v), ..st.pc },
                un: st.un,
            },
            None => pc_push(st, t),
        }
    } else {
        pc_push(st, t)
    }
}

/// The state after the first `n` tokens.
pub open spec fn pc_fold(toks: Seq<Seq<u8>>, n: int) -> PcState
    decreases n,
{
    if n <= 0 {
        pc_init()
    } else {
        pc_step(pc_fold(toks, n - 1), n - 1, toks[n - 1])
    }
}

/// Additional-precision digits come from single digit characters, so each is
/// at most nine.
pub proof fn lemma_pc_fold_ap(toks: Seq<Seq<u8>>, n: int)
    ensures
        match pc_fold(toks, n).pc.additional_precision {
            Some(ap) => ap.lat <= 9 && ap.lon <= 9,
            None => true,
        },
    decreases n,
{
    if n > 0 {
        lemma_pc_fold_ap(toks, n - 1);
    }
}

/// The fold never writes the `unparsed` field; it is set once at the end.
pub proof fn lemma_pc_fold_unparsed(toks: Seq<Seq<u8>>, n: int)
    ensures
        pc_fold(toks, n).pc.unparsed is None,
    decreases n,
{
    if n > 0 {
        lemma_pc_fold_unparsed(toks, n - 1);
    }
}

/// Joins the leftover tokens into the `unparsed` field; absent when empty.
pub open spec fn pc_finalize(st: PcState) -> PositionCommentView {
    PositionCommentView {
        unparsed: if st.un.len() == 0 {
            None
        } else {
            Some(join_tokens(st.un))
        },
        ..st.pc
    }
}

/// What parsing a position comment returns.
pub open spec fn spec_position_comment(s: Seq<u8>) -> PositionCommentView {
    pc_finalize(pc_fold(spec_tokens(s), spec_tokens(s).len() as int))
}

// ---------------------------------------------------------------------------
// Executable classifier
// ---------------------------------------------------------------------------

/// Course, speed and altitude of a sixteen-character first token.
fn parse_csa(t: &[u8]) -> (r: Option<(u16, u16, u32)>)
    ensures
        match r {
            Some(v) => csa_ok(t@) && v.0 as u32 == csa_course(t@)->Some_0 && v.1 as u32
                == csa_speed(t@)->Some_0 && v.2 == csa_alt(t@)->Some_0,
            None => !csa_ok(t@),
        },
{
    let p1 = find_byte_at(t, 47, 0);
    proof {
        lemma_find_byte(t@, 47, 0);
    }
    if p1 >= t.len() {
        return None;
    }
    let p2 = find_byte_at(t, 47, p1 + 1);
    proof {
        lemma_find_byte(t@, 47, p1 + 1);
    }
    if p2 >= t.len() {
        return None;
    }
    let course = match parse_uint(&t[0..p1], 65535) {
        Some(c) => c,
        None => {
            return None;
        },
    };
    if course > 360 {
        return None;
    }
    let speed = match parse_uint(&t[p1 + 1..p2], 65535) {
        Some(v) => v,
        None => {
            return None;
        },
    };
    if t.len() - p2 < 3 {
        return None;
    }
    if t[p2 + 1] != 65 || t[p2 + 2] != 61 {
        return None;
    }
    let alt = match parse_uint(&t[p2 + 3..t.len()], 0xFFFF_FFFF) {
        Some(a) => a,
        None => {
            return None;
        },
    };
    Some((course as u16, speed as u16, alt))
}

/// Decodes a station identity token of either layout.
fn parse_id(t: &[u8]) -> (r: Option<ID>)
    requires
        id_shape(t@),
    ensures
        r == spec_id_of(t@),
{
    if t.len() == 10 {
        match (parse_hex(&t[2..4]), parse_hex(&t[4..10])) {
            (Some(d), Some(a)) => Some(
                ID {
                    address_type: (d & 3) as u8,
                    aircraft_type: ((d >> 2) & 15) as u8,
                    is_notrack: (d >> 6) & 1 == 1,
                    is_stealth: (d >> 7) & 1 == 1,
                    address: a,
                    reserved: None,
                },
            ),
            _ => None,
        }
    } else {
        match (parse_hex(&t[2..6]), parse_hex(&t[6..12])) {
            (Some(d), Some(a)) => Some(
                ID {
                    address_type: ((d >> 4) & 63) as u8,
                    aircraft_type: ((d >> 10) & 15) as u8,
                    is_notrack: (d >> 14) & 1 == 1,
                    is_stealth: (d >> 15) & 1 == 1,
                    address: a,
                    reserved: Some((d & 15) as u8),
                },
            ),
            _ => None,
        }
    }
}

/// Applies one token to the classifier state.
fn pc_apply(pc: &mut PositionComment, un: &mut Vec<Vec<u8>>, i: usize, t: &[u8])
    ensures
        (PcState { pc: final(pc)@, un: vecs_view(final(un)@) }) == pc_step(
            (PcState { pc: old(pc)@, un: vecs_view(old(un)@) }),
            i as int,
            t@,
        ),
{
    let ghost st0 = PcState { pc: pc@, un: vecs_view(un@) };
    if i == 0 && t.len() == 16 && pc.course.is_none() {
        match parse_csa(t) {
            Some((c, sp, al)) => {
                pc.course = Some(c);
                pc.speed = Some(sp);
                pc.altitude = Some(al);
            },
            None => {
                push_tok(un, t);
            },
        }
        proof {
            assert((PcState { pc: pc@, un: vecs_view(un@) }) =~~= pc_step(st0, i as int, t@));
        }
    } else if i == 0 && t.len() == 9 && t[0] == 47 && t[1] == 65 && t[2] == 61
        && pc.altitude.is_none() {
        match parse_uint(&t[3..t.len()], 0xFFFF_FFFF) {
            Some(a) => {
                pc.altitude = Some(a);
            },
            None => {
                push_tok(un, t);
            },
        }
        proof {
            assert(t@.subrange(3, t@.len() as int) =~= t@.skip(3));
            assert((PcState { pc: pc@, un: vecs_view(un@) }) =~~= pc_step(st0, i as int, t@));
        }
    } else if i == 1 && t.len() == 5 && t[0] == 33 && t[1] == 87 && t[4] == 33
        && pc.additional_precision.is_none() {
        let a = t[2];
        let b = t[3];
        if 48 <= a && a <= 57 && 48 <= b && b <= 57 {
            pc.additional_precision = Some(AdditionalPrecision { lat: a - 48, lon: b - 48 });
        } else {
            push_tok(un, t);
        }
        proof {
            assert((PcState { pc: pc@, un: vecs_view(un@) }) =~~= pc_step(st0, i as int, t@));
        }
    } else if (t.len() == 10 || t.len() == 12) && t[0] == 105 && t[1] == 100 && pc.id.is_none() {
        match parse_id(t) {
            Some(id) => {
                pc.id = Some(id);
            },
            None => {
                push_tok(un, t);
            },
        }
        proof {
            assert((PcState { pc: pc@, un: vecs_view(un@) }) =~~= pc_step(st0, i as int, t@));
        }
    } else if let Some(p) = split_value_unit(t) {
        let value = &t[0..p];
        let unit = &t[p..t.len()];
        proof {
            assert(value@ =~= svu_value(t@));
            assert(unit@ =~= svu_unit(t@));
        }
        if unit.len() == 3 && unit[0] == 102 && unit[1] == 112 && unit[2] == 109
            && pc.climb_rate.is_none() {
            match parse_i16(value) {
                Some(v) => {
                    pc.climb_rate = Some(v);
                },
                None => {
                    push_tok(un, t);
                },
            }
        } else if unit.len() == 3 && unit[0] == 114 && unit[1] == 111 && unit[2] == 116
            && pc.turn_rate.is_none() {
            match parse_decimal(value) {
                Some(d) => {
                    pc.turn_rate = Some(d);
                },
                None => {
                    push_tok(un, t);
                },
            }
        } else if unit.len() == 2 && unit[0] == 100 && unit[1] == 66 && pc.signal_quality.is_none() {
            match parse_decimal(value) {
                Some(d) => {
                    pc.signal_quality = Some(d);
                },
                None => {
                    push_tok(un, t);
                },
            }
        } else if unit.len() == 3 && unit[0] == 107 && unit[1] == 72 && unit[2] == 122
            && pc.frequency_offset.is_none() {
            match parse_decimal(value) {
                Some(d) => {
                    pc.frequency_offset = Some(d);
                },
                None => {
                    push_tok(un, t);
                },
            }
        } else if unit.len() == 1 && unit[0] == 101 && pc.error.is_none() {
            match parse_uint(value, 255) {
                Some(v) => {
                    pc.error = Some(v as u8);
                },
                None => {
                    push_tok(un, t);
                },
            }
        } else if unit.len() == 3 && unit[0] == 100 && unit[1] == 66 && unit[2] == 109
            && pc.signal_power.is_none() {
            match parse_decimal(value) {
                Some(d) => {
                    pc.signal_power = Some(d);
                },
                None => {
                    push_tok(un, t);
                },
            }
        } else {
            push_tok(un, t);
        }
        proof {
            assert((PcState { pc: pc@, un: vecs_view(un@) }) =~~= pc_step(st0, i as int, t@));
        }
    } else if t.len() >= 6 && t[0] == 103 && t[1] == 112 && t[2] == 115 && pc.gps_quality.is_none()
        {
        let rest = &t[3..t.len()];
        proof {
            assert(rest@ =~= gps_rest(t@));
        }
        let xp = find_byte_at(rest, 120, 0);
        proof {
            lemma_find_byte(rest@, 120, 0);
        }
        if xp < rest.len() {
            let a = parse_uint(&rest[0..xp], 255);
            let b = parse_uint(&rest[xp + 1..rest.len()], 255);
            proof {
                assert(rest@.subrange(0, xp as int) =~= gps_rest(t@).take(gps_xp(t@)));
                assert(rest@.subrange(xp + 1, rest@.len() as int) =~= gps_rest(t@).skip(
                    gps_xp(t@) + 1,
                ));
            }
            if a.is_some() && b.is_some() {
                pc.gps_quality = Some(slice_to_vec_u8(rest));
            } else {
                push_tok(un, t);
            }
        } else {
            push_tok(un, t);
        }
        proof {
            assert((PcState { pc: pc@, un: vecs_view(un@) }) =~~= pc_step(st0, i as int, t@));
        }
    } else if t.len() >= 3 && t[0] == 70 && t[1] == 76 && pc.flight_level.is_none() {
        match parse_decimal(&t[2..t.len()]) {
            Some(d) => {
                pc.flight_level = Some(d);
            },
            None => {
                push_tok(un, t);
            },
        }
        proof {
            assert(t@.subrange(2, t@.len() as int) =~= t@.skip(2));
            assert((PcState { pc: pc@, un: vecs_view(un@) }) =~~= pc_step(st0, i as int, t@));
        }
    } else if t.len() >= 2 && t[0] == 115 && pc.software_version.is_none() {
        match parse_decimal(&t[1..t.len()]) {
            Some(d) => {
                pc.software_version = Some(d);
            },
            None => {
                push_tok(un, t);
            },
        }
        proof {
            assert(t@.subrange(1, t@.len() as int) =~= t@.skip(1));
            assert((PcState { pc: pc@, un: vecs_view(un@) }) =~~= pc_step(st0, i as int, t@));
        }
    } else if t.len() == 3 && t[0] == 104 && pc.hardware_version.is_none() {
        match parse_hex(&t[1..3]) {
            Some(v) => {
                pc.hardware_version = Some(v as u8);
            },
            None => {
                push_tok(un, t);
            },
        }
        proof {
            assert((PcState { pc: pc@, un: vecs_view(un@) }) =~~= pc_step(st0, i as int, t@));
        }
    } else if t.len() == 7 && t[0] == 114 && pc.original_address.is_none() {
        match parse_hex(&t[1..7]) {
            Some(v) => {
                pc.original_address = Some(v);
            },
            None => {
                push_tok(un, t);
            },
        }
        proof {
            assert((PcState { pc: pc@, un: vecs_view(un@) }) =~~= pc_step(st0, i as int, t@));
        }
    } else {
        push_tok(un, t);
        proof {
            assert((PcState { pc: pc@, un: vecs_view(un@) }) =~~= pc_step(st0, i as int, t@));
        }
    }
}

impl PositionComment {
    /// Classifies every whitespace token of a position comment. This never
    /// fails: what matches no rule is preserved verbatim in `unparsed`.
    pub fn from_str(s: &[u8]) -> (r: PositionComment)
        ensures
            r@ == spec_position_comment(s@),
    {
        let toks = tokenize(s);
        let mut pc = PositionComment::default();
        let mut un: Vec<Vec<u8>> = Vec::new();
        let ghost ts = spec_tokens(s@);
        proof {
            assert(vecs_view(un@) =~= Seq::<Seq<u8>>::empty());
            assert((PcState { pc: pc@, un: vecs_view(un@) }) =~~= pc_fold(ts, 0));
        }
        let mut i: usize = 0;
        while i < toks.len()
            invariant
                0 <= i <= toks@.len(),
                vecs_view(toks@) == ts,
                ts == spec_tokens(s@),
                (PcState { pc: pc@, un: vecs_view(un@) }) == pc_fold(ts, i as int),
            decreases toks.len() - i,
        {
            assert(toks@[i as int]@ == ts[i as int]);
            pc_apply(&mut pc, &mut un, i, toks[i].as_slice());
            i = i + 1;
        }
        if un.len() > 0 {
            pc.unparsed = Some(join_spaces(&un));
        }
        proof {
            lemma_pc_fold_unparsed(ts, ts.len() as int);
            assert(pc@ =~~= pc_finalize(pc_fold(ts, ts.len() as int)));
        }
        pc
    }
}

} // verus!
