//! The comment classifier for status reports: the same token-by-token,
//! priority-ordered, first-match-wins discipline as the position comment,
//! over the receiver-health rule set.

use vstd::prelude::*;
use crate::decimal::{Decimal, spec_parse_decimal, parse_decimal};
use crate::lex::{
    find_byte, find_byte_at, lemma_find_byte, spec_parse_uint, parse_uint, spec_parse_i16,
    parse_i16, svu_split, svu_value, svu_unit, split_value_unit, spec_tokens, tokenize, vecs_view,
    join_tokens, join_spaces, push_tok, slice_to_vec_u8, spec_extract_values, extract_values,
};

verus! {

/// The typed fields a status comment can carry. Every field is optional;
/// `unparsed` holds the tokens that matched nothing, space-joined in order.
#[derive(Debug, PartialEq, Clone)]
pub struct StatusComment {
    pub version: Option<Vec<u8>>,
    pub platform: Option<Vec<u8>>,
    pub cpu_load: Option<Decimal>,
    pub ram_free: Option<Decimal>,
    pub ram_total: Option<Decimal>,
    pub ntp_offset: Option<Decimal>,
    pub ntp_correction: Option<Decimal>,
    pub voltage: Option<Decimal>,
    pub amperage: Option<Decimal>,
    pub cpu_temperature: Option<Decimal>,
    pub visible_senders: Option<u16>,
    pub latency: Option<Decimal>,
    pub senders: Option<u16>,
    pub rf_correction_manual: Option<i16>,
    pub rf_correction_automatic: Option<Decimal>,
    pub noise: Option<Decimal>,
    pub senders_signal_quality: Option<Decimal>,
    pub senders_messages: Option<u32>,
    pub good_senders_signal_quality: Option<Decimal>,
    pub good_senders: Option<u16>,
    pub good_and_bad_senders: Option<u16>,
    pub unparsed: Option<Vec<u8>>,
}

/// The mathematical shadow of `StatusComment`, byte strings as sequences.
#[verifier::ext_equal]
pub struct StatusCommentView {
    pub version: Option<Seq<u8>>,
    pub platform: Option<Seq<u8>>,
    pub cpu_load: Option<Decimal>,
    pub ram_free: Option<Decimal>,
    pub ram_total: Option<Decimal>,
    pub ntp_offset: Option<Decimal>,
    pub ntp_correction: Option<Decimal>,
    pub voltage: Option<Decimal>,
    pub amperage: Option<Decimal>,
    pub cpu_temperature: Option<Decimal>,
    pub visible_senders: Option<u16>,
    pub latency: Option<Decimal>,
    pub senders: Option<u16>,
    pub rf_correction_manual: Option<i16>,
    pub rf_correction_automatic: Option<Decimal>,
    pub noise: Option<Decimal>,
    pub senders_signal_quality: Option<Decimal>,
    pub senders_messages: Option<u32>,
    pub good_senders_signal_quality: Option<Decimal>,
    pub good_senders: Option<u16>,
    pub good_and_bad_senders: Option<u16>,
    pub unparsed: Option<Seq<u8>>,
}

pub open spec fn sc_opt_bytes(o: Option<Vec<u8>>) -> Option<Seq<u8>> {
    match o {
        Some(v) => Some(v@),
        None => None,
    }
}

impl View for StatusComment {
    type V = StatusCommentView;

    open spec fn view(&self) -> StatusCommentView {
        StatusCommentView {
            version: sc_opt_bytes(self.version),
            platform: sc_opt_bytes(self.platform),
            cpu_load: self.cpu_load,
            ram_free: self.ram_free,
            ram_total: self.ram_total,
            ntp_offset: self.ntp_offset,
            ntp_correction: self.ntp_correction,
            voltage: self.voltage,
            amperage: self.amperage,
            cpu_temperature: self.cpu_temperature,
            visible_senders: self.visible_senders,
            latency: self.latency,
            senders: self.senders,
            rf_correction_manual: self.rf_correction_manual,
            rf_correction_automatic: self.rf_correction_automatic,
            noise: self.noise,
            senders_signal_quality: self.senders_signal_quality,
            senders_messages: self.senders_messages,
            good_senders_signal_quality: self.good_senders_signal_quality,
            good_senders: self.good_senders,
            good_and_bad_senders: self.good_and_bad_senders,
            unparsed: sc_opt_bytes(self.unparsed),
        }
    }
}

impl Default for StatusComment {
    /// The empty field set.
    fn default() -> (r: Self)
        ensures
            r@ == sc_init().sc,
            r.unparsed is None,
    {
        StatusComment {
            version: None,
            platform: None,
            cpu_load: None,
            ram_free: None,
            ram_total: None,
            ntp_offset: None,
            ntp_correction: None,
            voltage: None,
            amperage: None,
            cpu_temperature: None,
            visible_senders: None,
            latency: None,
            senders: None,
            rf_correction_manual: None,
            rf_correction_automatic: None,
            noise: None,
            senders_signal_quality: None,
            senders_messages: None,
            good_senders_signal_quality: None,
            good_senders: None,
            good_and_bad_senders: None,
            unparsed: None,
        }
    }
}

// ---------------------------------------------------------------------------
// Rule shapes and extractors
// ---------------------------------------------------------------------------

pub open spec fn v3_d1(t: Seq<u8>) -> int {
    find_byte(t, 46, 0)
}

pub open spec fn v3_d2(t: Seq<u8>) -> int {
    if v3_d1(t) < t.len() {
        find_byte(t, 46, v3_d1(t) + 1)
    } else {
        t.len() as int
    }
}

/// The third dot of a version token.
pub open spec fn v3_d3(t: Seq<u8>) -> int {
    if v3_d2(t) < t.len() {
        find_byte(t, 46, v3_d2(t) + 1)
    } else {
        t.len() as int
    }
}

/// Exactly three dots: the third exists and none follows it.
pub open spec fn exactly_three_dots(t: Seq<u8>) -> bool {
    v3_d3(t) < t.len() && find_byte(t, 46, v3_d3(t) + 1) == t.len()
}

/// First slash of a compound field.
pub open spec fn slash_of(t: Seq<u8>) -> int {
    find_byte(t, 47, 0)
}

pub open spec fn ram_free_of(t: Seq<u8>) -> Option<Decimal> {
    spec_parse_decimal(t.subrange(4, slash_of(t)))
}

pub open spec fn ram_total_of(t: Seq<u8>) -> Option<Decimal> {
    spec_parse_decimal(t.subrange(slash_of(t) + 1, t.len() - 2))
}

/// `RAM:x.x/y.yMB`: both numbers parse.
pub open spec fn ram_ok(t: Seq<u8>) -> bool {
    ram_free_of(t) is Some && ram_total_of(t) is Some
}

pub open spec fn ntp_offset_of(t: Seq<u8>) -> Option<Decimal> {
    spec_parse_decimal(t.subrange(4, slash_of(t) - 2))
}

pub open spec fn ntp_corr_of(t: Seq<u8>) -> Option<Decimal> {
    spec_parse_decimal(t.subrange(slash_of(t) + 1, t.len() - 3))
}

/// `NTP:x.xms/y.yppm`: the slash inside the stripped body, room for the
/// two-character offset unit, and both numbers parse.
pub open spec fn ntp_ok(t: Seq<u8>) -> bool {
    slash_of(t) < t.len() - 3 && slash_of(t) >= 6 && ntp_offset_of(t) is Some && ntp_corr_of(
        t,
    ) is Some
}

/// The nine-byte `Acfts[1h]` suffix.
pub open spec fn acfts_suffix(t: Seq<u8>) -> bool {
    t.len() >= 9 && t[t.len() - 9] == 65 && t[t.len() - 8] == 99 && t[t.len() - 7] == 102 && t[
        t.len() - 6
    ] == 116 && t[t.len() - 5] == 115 && t[t.len() - 4] == 91 && t[t.len() - 3] == 49 && t[
        t.len() - 2
    ] == 104 && t[t.len() - 1] == 93
}

pub open spec fn acfts_vis_of(t: Seq<u8>) -> Option<u32> {
    spec_parse_uint(t.subrange(0, slash_of(t)), 65535)
}

pub open spec fn acfts_tot_of(t: Seq<u8>) -> Option<u32> {
    spec_parse_uint(t.subrange(slash_of(t) + 1, t.len() - 9), 65535)
}

/// `x/yAcfts[1h]`: both counts parse.
pub open spec fn acfts_ok(t: Seq<u8>) -> bool {
    acfts_vis_of(t) is Some && acfts_tot_of(t) is Some
}

pub open spec fn rf_vals(t: Seq<u8>) -> Seq<Seq<u8>> {
    spec_extract_values(t)
}

pub open spec fn rf_m(t: Seq<u8>) -> Option<i16> {
    spec_parse_i16(rf_vals(t)[0])
}

pub open spec fn rf_a(t: Seq<u8>) -> Option<Decimal> {
    spec_parse_decimal(rf_vals(t)[1])
}

pub open spec fn rf_n(t: Seq<u8>) -> Option<Decimal> {
    spec_parse_decimal(rf_vals(t)[2])
}

pub open spec fn rf_q(t: Seq<u8>) -> Option<Decimal> {
    spec_parse_decimal(rf_vals(t)[3])
}

pub open spec fn rf_msg(t: Seq<u8>) -> Option<u32> {
    spec_parse_uint(rf_vals(t)[5], 0xFFFF_FFFFu32)
}

pub open spec fn rf_gq(t: Seq<u8>) -> Option<Decimal> {
    spec_parse_decimal(rf_vals(t)[6])
}

pub open spec fn rf_gs(t: Seq<u8>) -> Option<u32> {
    spec_parse_uint(rf_vals(t)[8], 65535)
}

pub open spec fn rf_gb(t: Seq<u8>) -> Option<u32> {
    spec_parse_uint(rf_vals(t)[9], 65535)
}

pub open spec fn is_unit_c(u: Seq<u8>) -> bool {
    u.len() == 1 && u[0] == 67
}

pub open spec fn is_unit_v(u: Seq<u8>) -> bool {
    u.len() == 1 && u[0] == 86
}

pub open spec fn is_unit_a(u: Seq<u8>) -> bool {
    u.len() == 1 && u[0] == 65
}

// ---------------------------------------------------------------------------
// The fold over the token stream
// ---------------------------------------------------------------------------

/// The classifier state: the typed fields gathered so far and the tokens
/// pushed to `unparsed`, still unjoined.
#[verifier::ext_equal]
pub struct ScState {
    pub sc: StatusCommentView,
    pub un: Seq<Seq<u8>>,
}

pub open spec fn sc_init() -> ScState {
    ScState {
        sc: StatusCommentView {
            version: None,
            platform: None,
            cpu_load: None,
            ram_free: None,
            ram_total: None,
            ntp_offset: None,
            ntp_correction: None,
            voltage: None,
            amperage: None,
            cpu_temperature: None,
            visible_senders: None,
            latency: None,
            senders: None,
            rf_correction_manual: None,
            rf_correction_automatic: None,
            noise: None,
            senders_signal_quality: None,
            senders_messages: None,
            good_senders_signal_quality: None,
            good_senders: None,
            good_and_bad_senders: None,
            unparsed: None,
        },
        un: Seq::empty(),
    }
}

pub open spec fn sc_push(st: ScState, t: Seq<u8>) -> ScState {
    ScState { sc: st.sc, un: st.un.push(t) }
}

/// The radio-frequency compound rule: the count of extracted numeric runs
/// selects the three-, six- or ten-value form.
pub open spec fn sc_rf_step(st: ScState, t: Seq<u8>) -> ScState {
    if rf_vals(t).len() == 3 {
        if rf_m(t) is Some && rf_a(t) is Some && rf_n(t) is Some {
            ScState {
                sc: StatusCommentView {
                    rf_correction_manual: Some(rf_m(t)->Some_0),
                    rf_correction_automatic: Some(rf_a(t)->Some_0),
                    noise: Some(rf_n(t)->Some_0),
                    ..st.sc
                },
                un: st.un,
            }
        } else {
            sc_push(st, t)
        }
    } else if rf_vals(t).len() == 6 {
        if rf_m(t) is Some && rf_a(t) is Some && rf_n(t) is Some && rf_q(t) is Some && rf_msg(
            t,
        ) is Some {
            ScState {
                sc: StatusCommentView {
                    rf_correction_manual: Some(rf_m(t)->Some_0),
                    rf_correction_automatic: Some(rf_a(t)->Some_0),
                    noise: Some(rf_n(t)->Some_0),
                    senders_signal_quality: Some(rf_q(t)->Some_0),
                    senders_messages: Some(rf_msg(t)->Some_0),
                    ..st.sc
                },
                un: st.un,
            }
        } else {
            sc_push(st, t)
        }
    } else if rf_vals(t).len() == 10 {
        if rf_m(t) is Some && rf_a(t) is Some && rf_n(t) is Some && rf_q(t) is Some && rf_msg(
            t,
        ) is Some && rf_gq(t) is Some && rf_gs(t) is Some && rf_gb(t) is Some {
            ScState {
                sc: StatusCommentView {
                    rf_correction_manual: Some(rf_m(t)->Some_0),
                    rf_correction_automatic: Some(rf_a(t)->Some_0),
                    noise: Some(rf_n(t)->Some_0),
                    senders_signal_quality: Some(rf_q(t)->Some_0),
                    senders_messages: Some(rf_msg(t)->Some_0),
                    good_senders_signal_quality: Some(rf_gq(t)->Some_0),
                    good_senders: Some((rf_gs(t)->Some_0) as u16),
                    good_and_bad_senders: Some((rf_gb(t)->Some_0) as u16),
                    ..st.sc
                },
                un: st.un,
            }
        } else {
            sc_push(st, t)
        }
    } else {
        sc_push(st, t)
    }
}

/// The suffix-unit rules for status tokens.
pub open spec fn sc_unit_step(st: ScState, t: Seq<u8>) -> ScState {
    if is_unit_c(svu_unit(t)) && st.sc.cpu_temperature is None {
        match spec_parse_decimal(svu_value(t)) {
            Some(d) => ScState {
                sc: StatusCommentView { cpu_temperature: Some(d), ..st.sc },
                un: st.un,
            },
            None => sc_push(st, t),
        }
    } else if is_unit_v(svu_unit(t)) && st.sc.voltage is None {
        match spec_parse_decimal(svu_value(t)) {
            Some(d) => ScState { sc: StatusCommentView { voltage: Some(d), ..st.sc }, un: st.un },
            None => sc_push(st, t),
        }
    } else if is_unit_a(svu_unit(t)) && st.sc.amperage is None {
        match spec_parse_decimal(svu_value(t)) {
            Some(d) => ScState { sc: StatusCommentView { amperage: Some(d), ..st.sc }, un: st.un },
            None => sc_push(st, t),
        }
    } else {
        sc_push(st, t)
    }
}

/// One classification step for a status token.
pub open spec fn sc_step(st: ScState, t: Seq<u8>) -> ScState {
    if t.len() >= 1 && t[0] == 118 && exactly_three_dots(t) && st.sc.version is None {
        ScState {
            sc: StatusCommentView {
                version: Some(t.subrange(1, v3_d3(t))),
                platform: Some(t.skip(v3_d3(t) + 1)),
                ..st.sc
            },
            un: st.un,
        }
    } else if t.len() > 4 && t[0] == 67 && t[1] == 80 && t[2] == 85 && t[3] == 58
        && st.sc.cpu_load is None {
        match spec_parse_decimal(t.skip(4)) {
            Some(d) => ScState { sc: StatusCommentView { cpu_load: Some(d), ..st.sc }, un: st.un },
            None => sc_push(st, t),
        }
    } else if t.len() > 6 && t[0] == 82 && t[1] == 65 && t[2] == 77 && t[3] == 58 && t[t.len() - 2]
        == 77 && t[t.len() - 1] == 66 && slash_of(t) < t.len() && st.sc.ram_free is None {
        if ram_ok(t) {
            ScState {
                sc: StatusCommentView {
                    ram_free: Some(ram_free_of(t)->Some_0),
                    ram_total: Some(ram_total_of(t)->Some_0),
                    ..st.sc
                },
                un: st.un,
            }
        } else {
            sc_push(st, t)
        }
    } else if t.len() > 6 && t[0] == 78 && t[1] == 84 && t[2] == 80 && t[3] == 58 && slash_of(t)
        < t.len() && st.sc.ntp_offset is None {
        if ntp_ok(t) {
            ScState {
                sc: StatusCommentView {
                    ntp_offset: Some(ntp_offset_of(t)->Some_0),
                    ntp_correction: Some(ntp_corr_of(t)->Some_0),
                    ..st.sc
                },
                un: st.un,
            }
        } else {
            sc_push(st, t)
        }
    } else if t.len() >= 11 && acfts_suffix(t) && slash_of(t) < t.len()
        && st.sc.visible_senders is None {
        if acfts_ok(t) {
            ScState {
                sc: StatusCommentView {
                    visible_senders: Some((acfts_vis_of(t)->Some_0) as u16),
                    senders: Some((acfts_tot_of(t)->Some_0) as u16),
                    ..st.sc
                },
                un: st.un,
            }
        } else {
            sc_push(st, t)
        }
    } else if t.len() > 5 && t[0] == 76 && t[1] == 97 && t[2] == 116 && t[3] == 58 && t[t.len()
        - 1] == 115 && st.sc.latency is None {
        match spec_parse_decimal(t.subrange(4, t.len() - 1)) {
            Some(d) => ScState { sc: StatusCommentView { latency: Some(d), ..st.sc }, un: st.un },
            None => sc_push(st, t),
        }
    } else if t.len() >= 11 && t[0] == 82 && t[1] == 70 && t[2] == 58
        && st.sc.rf_correction_manual is None {
        sc_rf_step(st, t)
    } else if svu_split(t) is Some {
        sc_unit_step(st, t)
    } else {
        sc_push(st, t)
    }
}

/// The state after the first `n` tokens.
pub open spec fn sc_fold(toks: Seq<Seq<u8>>, n: int) -> ScState
    decreases n,
{
    if n <= 0 {
        sc_init()
    } else {
        sc_step(sc_fold(toks, n - 1), toks[n - 1])
    }
}

/// The fold never writes the `unparsed` field; it is set once at the end.
pub proof fn lemma_sc_fold_unparsed(toks: Seq<Seq<u8>>, n: int)
    ensures
        sc_fold(toks, n).sc.unparsed is None,
    decreases n,
{
    if n > 0 {
        lemma_sc_fold_unparsed(toks, n - 1);
    }
}

/// Joins the leftover tokens into the `unparsed` field; absent when empty.
pub open spec fn sc_finalize(st: ScState) -> StatusCommentView {
    StatusCommentView {
        unparsed: if st.un.len() == 0 {
            None
        } else {
            Some(join_tokens(st.un))
        },
        ..st.sc
    }
}

/// What parsing a status comment returns.
pub open spec fn spec_status_comment(s: Seq<u8>) -> StatusCommentView {
    sc_finalize(sc_fold(spec_tokens(s), spec_tokens(s).len() as int))
}

// ---------------------------------------------------------------------------
// Executable classifier
// ---------------------------------------------------------------------------

/// The position of the third dot of a token with exactly three dots.
fn third_dot(t: &[u8]) -> (r: Option<usize>)
    ensures
        match r {
            Some(d) => exactly_three_dots(t@) && d as int == v3_d3(t@) && d < t@.len() && t@[
                d as int
            ] == 46,
            None => !exactly_three_dots(t@),
        },
{
    let d1 = find_byte_at(t, 46, 0);
    proof {
        lemma_find_byte(t@, 46, 0);
    }
    if d1 >= t.len() {
        return None;
    }
    let d2 = find_byte_at(t, 46, d1 + 1);
    proof {
        lemma_find_byte(t@, 46, d1 + 1);
    }
    if d2 >= t.len() {
        return None;
    }
    let d3 = find_byte_at(t, 46, d2 + 1);
    proof {
        lemma_find_byte(t@, 46, d2 + 1);
    }
    if d3 >= t.len() {
        return None;
    }
    let d4 = find_byte_at(t, 46, d3 + 1);
    if d4 == t.len() {
        Some(d3)
    } else {
        None
    }
}

/// Applies one token to the classifier state.
fn sc_apply(sc: &mut StatusComment, un: &mut Vec<Vec<u8>>, t: &[u8])
    ensures
        (ScState { sc: final(sc)@, un: vecs_view(final(un)@) }) == sc_step(
            (ScState { sc: old(sc)@, un: vecs_view(old(un)@) }),
            t@,
        ),
{
    let ghost st0 = ScState { sc: sc@, un: vecs_view(un@) };
    let d3 = if t.len() >= 1 && t[0] == 118 && sc.version.is_none() {
        third_dot(t)
    } else {
        None
    };
    if t.len() >= 1 && t[0] == 118 && sc.version.is_none() && d3.is_some() {
        let d = d3.unwrap();
        sc.version = Some(slice_to_vec_u8(&t[1..d]));
        sc.platform = Some(slice_to_vec_u8(&t[d + 1..t.len()]));
        proof {
            assert(t@.subrange(d + 1, t@.len() as int) =~= t@.skip(d + 1));
            assert((ScState { sc: sc@, un: vecs_view(un@) }) =~~= sc_step(st0, t@));
        }
        return ;
    }
    if t.len() >= 1 && t[0] == 118 && sc.version.is_none() && !d3.is_some() {
        // three-dot shape absent: fall through to the later rules
        assert(!(t@.len() >= 1 && t@[0] == 118 && exactly_three_dots(t@) && st0.sc.version is None));
    }
    if t.len() > 4 && t[0] == 67 && t[1] == 80 && t[2] == 85 && t[3] == 58 && sc.cpu_load.is_none()
        {
        match parse_decimal(&t[4..t.len()]) {
            Some(d) => {
                sc.cpu_load = Some(d);
            },
            None => {
                push_tok(un, t);
            },
        }
        proof {
            assert(t@.subrange(4, t@.len() as int) =~= t@.skip(4));
            assert((ScState { sc: sc@, un: vecs_view(un@) }) =~~= sc_step(st0, t@));
        }
    } else if t.len() > 6 && t[0] == 82 && t[1] == 65 && t[2] == 77 && t[3] == 58 && t[t.len() - 2]
        == 77 && t[t.len() - 1] == 66 && contains_slash(t) && sc.ram_free.is_none() {
        let sp = find_byte_at(t, 47, 0);
        proof {
            lemma_find_byte(t@, 47, 0);
            assert(t@[sp as int] == 47);
        }
        let free = parse_decimal(&t[4..sp]);
        let total = parse_decimal(&t[sp + 1..t.len() - 2]);
        if free.is_some() && total.is_some() {
            sc.ram_free = Some(free.unwrap());
            sc.ram_total = Some(total.unwrap());
        } else {
            push_tok(un, t);
        }
        proof {
            assert((ScState { sc: sc@, un: vecs_view(un@) }) =~~= sc_step(st0, t@));
        }
    } else if t.len() > 6 && t[0] == 78 && t[1] == 84 && t[2] == 80 && t[3] == 58 && contains_slash(
        t,
    ) && sc.ntp_offset.is_none() {
        let sp = find_byte_at(t, 47, 0);
        proof {
            lemma_find_byte(t@, 47, 0);
            assert(t@[sp as int] == 47);
        }
        if sp < t.len() - 3 && sp >= 6 {
            let offset = parse_decimal(&t[4..sp - 2]);
            let corr = parse_decimal(&t[sp + 1..t.len() - 3]);
            if offset.is_some() && corr.is_some() {
                sc.ntp_offset = Some(offset.unwrap());
                sc.ntp_correction = Some(corr.unwrap());
            } else {
                push_tok(un, t);
            }
        } else {
            push_tok(un, t);
        }
        proof {
            assert((ScState { sc: sc@, un: vecs_view(un@) }) =~~= sc_step(st0, t@));
        }
    } else if t.len() >= 11 && has_acfts_suffix(t) && contains_slash(t)
        && sc.visible_senders.is_none() {
        let sp = find_byte_at(t, 47, 0);
        proof {
            lemma_find_byte(t@, 47, 0);
            assert(t@[sp as int] == 47);
        }
        let vis = parse_uint(&t[0..sp], 65535);
        let tot = parse_uint(&t[sp + 1..t.len() - 9], 65535);
        if vis.is_some() && tot.is_some() {
            sc.visible_senders = Some(vis.unwrap() as u16);
            sc.senders = Some(tot.unwrap() as u16);
        } else {
            push_tok(un, t);
        }
        proof {
            assert((ScState { sc: sc@, un: vecs_view(un@) }) =~~= sc_step(st0, t@));
        }
    } else if t.len() > 5 && t[0] == 76 && t[1] == 97 && t[2] == 116 && t[3] == 58 && t[t.len()
        - 1] == 115 && sc.latency.is_none() {
        match parse_decimal(&t[4..t.len() - 1]) {
            Some(d) => {
                sc.latency = Some(d);
            },
            None => {
                push_tok(un, t);
            },
        }
        proof {
            assert((ScState { sc: sc@, un: vecs_view(un@) }) =~~= sc_step(st0, t@));
        }
    } else if t.len() >= 11 && t[0] == 82 && t[1] == 70 && t[2] == 58
        && sc.rf_correction_manual.is_none() {
        let vals = extract_values(t);
        if vals.len() == 3 {
            let m = parse_i16(vals[0].as_slice());
            let a = parse_decimal(vals[1].as_slice());
            let n = parse_decimal(vals[2].as_slice());
            if m.is_some() && a.is_some() && n.is_some() {
                sc.rf_correction_manual = Some(m.unwrap());
                sc.rf_correction_automatic = Some(a.unwrap());
                sc.noise = Some(n.unwrap());
            } else {
                push_tok(un, t);
            }
        } else if vals.len() == 6 {
            let m = parse_i16(vals[0].as_slice());
            let a = parse_decimal(vals[1].as_slice());
            let n = parse_decimal(vals[2].as_slice());
            let q = parse_decimal(vals[3].as_slice());
            let msg = parse_uint(vals[5].as_slice(), 0xFFFF_FFFF);
            if m.is_some() && a.is_some() && n.is_some() && q.is_some() && msg.is_some() {
                sc.rf_correction_manual = Some(m.unwrap());
                sc.rf_correction_automatic = Some(a.unwrap());
                sc.noise = Some(n.unwrap());
                sc.senders_signal_quality = Some(q.unwrap());
                sc.senders_messages = Some(msg.unwrap());
            } else {
                push_tok(un, t);
            }
        } else if vals.len() == 10 {
            let m = parse_i16(vals[0].as_slice());
            let a = parse_decimal(vals[1].as_slice());
            let n = parse_decimal(vals[2].as_slice());
            let q = parse_decimal(vals[3].as_slice());
            let msg = parse_uint(vals[5].as_slice(), 0xFFFF_FFFF);
            let gq = parse_decimal(vals[6].as_slice());
            let gs = parse_uint(vals[8].as_slice(), 65535);
            let gb = parse_uint(vals[9].as_slice(), 65535);
            if m.is_some() && a.is_some() && n.is_some() && q.is_some() && msg.is_some()
                && gq.is_some() && gs.is_some() && gb.is_some() {
                sc.rf_correction_manual = Some(m.unwrap());
                sc.rf_correction_automatic = Some(a.unwrap());
                sc.noise = Some(n.unwrap());
                sc.senders_signal_quality = Some(q.unwrap());
                sc.senders_messages = Some(msg.unwrap());
                sc.good_senders_signal_quality = Some(gq.unwrap());
                sc.good_senders = Some(gs.unwrap() as u16);
                sc.good_and_bad_senders = Some(gb.unwrap() as u16);
            } else {
                push_tok(un, t);
            }
        } else {
            push_tok(un, t);
        }
        proof {
            assert((ScState { sc: sc@, un: vecs_view(un@) }) =~~= sc_step(st0, t@));
        }
    } else if let Some(p) = split_value_unit(t) {
        let value = &t[0..p];
        let unit = &t[p..t.len()];
        proof {
            assert(value@ =~= svu_value(t@));
            assert(unit@ =~= svu_unit(t@));
        }
        if unit.len() == 1 && unit[0] == 67 && sc.cpu_temperature.is_none() {
            match parse_decimal(value) {
                Some(d) => {
                    sc.cpu_temperature = Some(d);
                },
                None => {
                    push_tok(un, t);
                },
            }
        } else if unit.len() == 1 && unit[0] == 86 && sc.voltage.is_none() {
            match parse_decimal(value) {
                Some(d) => {
                    sc.voltage = Some(d);
                },
                None => {
                    push_tok(un, t);
                },
            }
        } else if unit.len() == 1 && unit[0] == 65 && sc.amperage.is_none() {
            match parse_decimal(value) {
                Some(d) => {
                    sc.amperage = Some(d);
                },
                None => {
                    push_tok(un, t);
                },
            }
        } else {
            push_tok(un, t);
        }
        proof {
            assert((ScState { sc: sc@, un: vecs_view(un@) }) =~~= sc_step(st0, t@));
        }
    } else {
        push_tok(un, t);
        proof {
            assert((ScState { sc: sc@, un: vecs_view(un@) }) =~~= sc_step(st0, t@));
        }
    }
}

/// Whether the token holds a slash anywhere.
fn contains_slash(t: &[u8]) -> (r: bool)
    ensures
        r == (slash_of(t@) < t@.len()),
{
    let sp = find_byte_at(t, 47, 0);
    proof {
        lemma_find_byte(t@, 47, 0);
    }
    sp < t.len()
}

/// Whether the token ends in `Acfts[1h]`.
fn has_acfts_suffix(t: &[u8]) -> (r: bool)
    ensures
        r == acfts_suffix(t@),
{
    t.len() >= 9 && t[t.len() - 9] == 65 && t[t.len() - 8] == 99 && t[t.len() - 7] == 102
        && t[t.len() - 6] == 116 && t[t.len() - 5] == 115 && t[t.len() - 4] == 91
        && t[t.len() - 3] == 49 && t[t.len() - 2] == 104 && t[t.len() - 1] == 93
}

impl StatusComment {
    /// Classifies every whitespace token of a status comment. This never
    /// fails: what matches no rule is preserved verbatim in `unparsed`.
    pub fn from_str(s: &[u8]) -> (r: StatusComment)
        ensures
            r@ == spec_status_comment(s@),
    {
        let toks = tokenize(s);
        let mut sc = StatusComment::default();
        let mut un: Vec<Vec<u8>> = Vec::new();
        let ghost ts = spec_tokens(s@);
        proof {
            assert(vecs_view(un@) =~= Seq::<Seq<u8>>::empty());
            assert((ScState { sc: sc@, un: vecs_view(un@) }) =~~= sc_fold(ts, 0));
        }
        let mut i: usize = 0;
        while i < toks.len()
            invariant
                0 <= i <= toks@.len(),
                vecs_view(toks@) == ts,
                ts == spec_tokens(s@),
                (ScState { sc: sc@, un: vecs_view(un@) }) == sc_fold(ts, i as int),
            decreases toks.len() - i,
        {
            assert(toks@[i as int]@ == ts[i as int]);
            sc_apply(&mut sc, &mut un, toks[i].as_slice());
            i = i + 1;
        }
        if un.len() > 0 {
            sc.unparsed = Some(join_spaces(&un));
        }
        proof {
            lemma_sc_fold_unparsed(ts, ts.len() as int);
            assert(sc@ =~~= sc_finalize(sc_fold(ts, ts.len() as int)));
        }
        sc
    }
}

} // verus!
