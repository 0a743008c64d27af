//! The classifier-wide guarantees: fields are never overwritten once set, a
//! duplicate of an already-captured shape degrades to `unparsed`, and tokens
//! land in `unparsed` verbatim and in order.

use vstd::prelude::*;
use crate::decimal::spec_parse_decimal;
use crate::lex::{
    is_digit, svu_split, svu_unit, svu_value, svu_p, spec_parse_uint, spec_parse_i16,
    spec_parse_hex,
};
use crate::position_comment::{
    PcState, pc_init, pc_fold, pc_step, pc_push, id_shape, spec_id_of, csa_ok, gps_ok, hw_of,
    is_unit_fpm, is_unit_rot, is_unit_db, is_unit_khz, is_unit_e, is_unit_dbm,
};
use crate::status_comment::{
    ScState, sc_fold, sc_step, sc_push, exactly_three_dots, acfts_suffix, slash_of, is_unit_c,
    is_unit_v, is_unit_a, ram_ok, ntp_ok, acfts_ok, rf_vals, rf_m, rf_a, rf_n, rf_q, rf_msg,
    rf_gq, rf_gs, rf_gb,
};

verus! {

/// A token that fits none of the position rule shapes at its slot.
pub open spec fn pc_no_rule(i: int, t: Seq<u8>) -> bool {
    !(i == 0 && t.len() == 16) && !(i == 0 && t.len() == 9 && t[0] == 47 && t[1] == 65 && t[2]
        == 61) && !(i == 1 && t.len() == 5 && t[0] == 33 && t[1] == 87 && t[4] == 33) && !id_shape(
        t,
    ) && svu_split(t) is None && !(t.len() >= 6 && t[0] == 103 && t[1] == 112 && t[2] == 115) && !(
    t.len() >= 3 && t[0] == 70 && t[1] == 76) && !(t.len() >= 2 && t[0] == 115) && !(t.len() == 3
        && t[0] == 104) && !(t.len() == 7 && t[0] == 114)
}

/// Graceful degradation, step form: a token that matches no rule is pushed
/// verbatim to `unparsed`, whatever the state; nothing is ever rejected.
#[verifier::rlimit(60)]
pub proof fn lemma_pc_step_no_rule(st: PcState, i: int, t: Seq<u8>)
    requires
        pc_no_rule(i, t),
    ensures
        pc_step(st, i, t) == pc_push(st, t),
{
}

/// Graceful degradation, stream form: a token that matches no rule appears
/// verbatim in the final unparsed token list, at the position the earlier
/// tokens left it.
#[verifier::rlimit(60)]
pub proof fn lemma_pc_no_rule_to_unparsed(toks: Seq<Seq<u8>>, j: int)
    requires
        0 <= j < toks.len(),
        pc_no_rule(j, toks[j]),
    ensures
        0 <= pc_fold(toks, j).un.len() < pc_fold(toks, toks.len() as int).un.len(),
        pc_fold(toks, toks.len() as int).un[pc_fold(toks, j).un.len() as int] == toks[j],
{
    let n = toks.len() as int;
    lemma_pc_step_no_rule(pc_fold(toks, j), j, toks[j]);
    assert(pc_fold(toks, j + 1) == pc_step(pc_fold(toks, j), j, toks[j]));
    lemma_pc_un_stable(toks, j + 1, n);
}

/// Duplicate shapes, step form: past the two positional slots, a token whose
/// shape belongs to an already-set field goes verbatim to `unparsed` and the
/// state is otherwise unchanged. A misplaced `!Wab!` token is listed too: off
/// its slot it matches nothing.
#[verifier::rlimit(100)]
pub proof fn lemma_pc_step_duplicate(st: PcState, i: int, t: Seq<u8>)
    requires
        i >= 2,
    ensures
        id_shape(t) && st.pc.id is Some ==> pc_step(st, i, t) == pc_push(st, t),
        svu_split(t) is Some && is_unit_fpm(svu_unit(t)) && st.pc.climb_rate is Some ==> pc_step(
            st,
            i,
            t,
        ) == pc_push(st, t),
        svu_split(t) is Some && is_unit_rot(svu_unit(t)) && st.pc.turn_rate is Some ==> pc_step(
            st,
            i,
            t,
        ) == pc_push(st, t),
        svu_split(t) is Some && is_unit_db(svu_unit(t)) && st.pc.signal_quality is Some
            ==> pc_step(st, i, t) == pc_push(st, t),
        svu_split(t) is Some && is_unit_khz(svu_unit(t)) && st.pc.frequency_offset is Some
            ==> pc_step(st, i, t) == pc_push(st, t),
        svu_split(t) is Some && is_unit_e(svu_unit(t)) && st.pc.error is Some ==> pc_step(st, i, t)
            == pc_push(st, t),
        svu_split(t) is Some && is_unit_dbm(svu_unit(t)) && st.pc.signal_power is Some ==> pc_step(
            st,
            i,
            t,
        ) == pc_push(st, t),
        t.len() >= 6 && t[0] == 103 && t[1] == 112 && t[2] == 115 && st.pc.gps_quality is Some
            ==> pc_step(st, i, t) == pc_push(st, t),
        t.len() >= 3 && t[0] == 70 && t[1] == 76 && st.pc.flight_level is Some ==> pc_step(st, i, t)
            == pc_push(st, t),
        t.len() >= 2 && t[0] == 115 && st.pc.software_version is Some ==> pc_step(st, i, t)
            == pc_push(st, t),
        t.len() == 3 && t[0] == 104 && st.pc.hardware_version is Some ==> pc_step(st, i, t)
            == pc_push(st, t),
        t.len() == 7 && t[0] == 114 && st.pc.original_address is Some ==> pc_step(st, i, t)
            == pc_push(st, t),
        t.len() == 5 && t[0] == 33 && t[1] == 87 && t[4] == 33 ==> pc_step(st, i, t) == pc_push(
            st,
            t,
        ),
{
}

/// The idempotent guard, stream form: when a token past the positional slots
/// repeats the shape of a field that earlier tokens already set, the field
/// keeps its earlier value to the end and the duplicate token appears
/// verbatim in the unparsed list.
#[verifier::rlimit(100)]
pub proof fn lemma_pc_idempotent_guard(toks: Seq<Seq<u8>>, j: int)
    requires
        2 <= j < toks.len(),
    ensures
        id_shape(toks[j]) && pc_fold(toks, j).pc.id is Some ==> pc_fold(
            toks,
            toks.len() as int,
        ).pc.id == pc_fold(toks, j).pc.id && pc_fold(toks, toks.len() as int).un[pc_fold(
            toks,
            j,
        ).un.len() as int] == toks[j],
        svu_split(toks[j]) is Some && is_unit_fpm(svu_unit(toks[j])) && pc_fold(
            toks,
            j,
        ).pc.climb_rate is Some ==> pc_fold(toks, toks.len() as int).pc.climb_rate == pc_fold(
            toks,
            j,
        ).pc.climb_rate && pc_fold(toks, toks.len() as int).un[pc_fold(toks, j).un.len() as int]
            == toks[j],
        svu_split(toks[j]) is Some && is_unit_rot(svu_unit(toks[j])) && pc_fold(
            toks,
            j,
        ).pc.turn_rate is Some ==> pc_fold(toks, toks.len() as int).pc.turn_rate == pc_fold(
            toks,
            j,
        ).pc.turn_rate && pc_fold(toks, toks.len() as int).un[pc_fold(toks, j).un.len() as int]
            == toks[j],
        svu_split(toks[j]) is Some && is_unit_db(svu_unit(toks[j])) && pc_fold(
            toks,
            j,
        ).pc.signal_quality is Some ==> pc_fold(toks, toks.len() as int).pc.signal_quality
            == pc_fold(toks, j).pc.signal_quality && pc_fold(toks, toks.len() as int).un[pc_fold(
            toks,
            j,
        ).un.len() as int] == toks[j],
        svu_split(toks[j]) is Some && is_unit_khz(svu_unit(toks[j])) && pc_fold(
            toks,
            j,
        ).pc.frequency_offset is Some ==> pc_fold(toks, toks.len() as int).pc.frequency_offset
            == pc_fold(toks, j).pc.frequency_offset && pc_fold(toks, toks.len() as int).un[pc_fold(
            toks,
            j,
        ).un.len() as int] == toks[j],
        svu_split(toks[j]) is Some && is_unit_e(svu_unit(toks[j])) && pc_fold(
            toks,
            j,
        ).pc.error is Some ==> pc_fold(toks, toks.len() as int).pc.error == pc_fold(
            toks,
            j,
        ).pc.error && pc_fold(toks, toks.len() as int).un[pc_fold(toks, j).un.len() as int]
            == toks[j],
        svu_split(toks[j]) is Some && is_unit_dbm(svu_unit(toks[j])) && pc_fold(
            toks,
            j,
        ).pc.signal_power is Some ==> pc_fold(toks, toks.len() as int).pc.signal_power == pc_fold(
            toks,
            j,
        ).pc.signal_power && pc_fold(toks, toks.len() as int).un[pc_fold(toks, j).un.len() as int]
            == toks[j],
        toks[j].len() >= 6 && toks[j][0] == 103 && toks[j][1] == 112 && toks[j][2] == 115
            && pc_fold(toks, j).pc.gps_quality is Some ==> pc_fold(
            toks,
            toks.len() as int,
        ).pc.gps_quality == pc_fold(toks, j).pc.gps_quality && pc_fold(
            toks,
            toks.len() as int,
        ).un[pc_fold(toks, j).un.len() as int] == toks[j],
        toks[j].len() >= 3 && toks[j][0] == 70 && toks[j][1] == 76 && pc_fold(
            toks,
            j,
        ).pc.flight_level is Some ==> pc_fold(toks, toks.len() as int).pc.flight_level == pc_fold(
            toks,
            j,
        ).pc.flight_level && pc_fold(toks, toks.len() as int).un[pc_fold(toks, j).un.len() as int]
            == toks[j],
        toks[j].len() >= 2 && toks[j][0] == 115 && pc_fold(toks, j).pc.software_version is Some
            ==> pc_fold(toks, toks.len() as int).pc.software_version == pc_fold(
            toks,
            j,
        ).pc.software_version && pc_fold(toks, toks.len() as int).un[pc_fold(
            toks,
            j,
        ).un.len() as int] == toks[j],
        toks[j].len() == 3 && toks[j][0] == 104 && pc_fold(toks, j).pc.hardware_version is Some
            ==> pc_fold(toks, toks.len() as int).pc.hardware_version == pc_fold(
            toks,
            j,
        ).pc.hardware_version && pc_fold(toks, toks.len() as int).un[pc_fold(
            toks,
            j,
        ).un.len() as int] == toks[j],
        toks[j].len() == 7 && toks[j][0] == 114 && pc_fold(toks, j).pc.original_address is Some
            ==> pc_fold(toks, toks.len() as int).pc.original_address == pc_fold(
            toks,
            j,
        ).pc.original_address && pc_fold(toks, toks.len() as int).un[pc_fold(
            toks,
            j,
        ).un.len() as int] == toks[j],
{
    let n = toks.len() as int;
    lemma_pc_step_duplicate(pc_fold(toks, j), j, toks[j]);
    lemma_pc_fold_stable(toks, j, n);
    assert(pc_fold(toks, j + 1) == pc_step(pc_fold(toks, j), j, toks[j]));
    lemma_pc_un_stable(toks, j + 1, n);
}

/// First-match-wins, step form: past the two positional slots, one step
/// never changes a field that is already set.
#[verifier::rlimit(60)]
pub proof fn lemma_pc_step_stable(st: PcState, i: int, t: Seq<u8>)
    requires
        i >= 1,
    ensures
        st.pc.course is Some ==> pc_step(st, i, t).pc.course == st.pc.course,
        st.pc.speed is Some ==> pc_step(st, i, t).pc.speed == st.pc.speed,
        st.pc.altitude is Some ==> pc_step(st, i, t).pc.altitude == st.pc.altitude,
        st.pc.additional_precision is Some ==> pc_step(st, i, t).pc.additional_precision
            == st.pc.additional_precision,
        st.pc.id is Some ==> pc_step(st, i, t).pc.id == st.pc.id,
        st.pc.climb_rate is Some ==> pc_step(st, i, t).pc.climb_rate == st.pc.climb_rate,
        st.pc.turn_rate is Some ==> pc_step(st, i, t).pc.turn_rate == st.pc.turn_rate,
        st.pc.signal_quality is Some ==> pc_step(st, i, t).pc.signal_quality
            == st.pc.signal_quality,
        st.pc.error is Some ==> pc_step(st, i, t).pc.error == st.pc.error,
        st.pc.frequency_offset is Some ==> pc_step(st, i, t).pc.frequency_offset
            == st.pc.frequency_offset,
        st.pc.gps_quality is Some ==> pc_step(st, i, t).pc.gps_quality == st.pc.gps_quality,
        st.pc.flight_level is Some ==> pc_step(st, i, t).pc.flight_level == st.pc.flight_level,
        st.pc.signal_power is Some ==> pc_step(st, i, t).pc.signal_power == st.pc.signal_power,
        st.pc.software_version is Some ==> pc_step(st, i, t).pc.software_version
            == st.pc.software_version,
        st.pc.hardware_version is Some ==> pc_step(st, i, t).pc.hardware_version
            == st.pc.hardware_version,
        st.pc.original_address is Some ==> pc_step(st, i, t).pc.original_address
            == st.pc.original_address,
{
}

/// First-match-wins, fold form: every typed field of the position classifier,
/// once set after `m` tokens, is unchanged by all later tokens.
#[verifier::rlimit(60)]
pub proof fn lemma_pc_fold_stable(toks: Seq<Seq<u8>>, m: int, n: int)
    requires
        0 <= m <= n,
    ensures
        pc_fold(toks, m).pc.course is Some ==> pc_fold(toks, n).pc.course == pc_fold(
            toks,
            m,
        ).pc.course,
        pc_fold(toks, m).pc.speed is Some ==> pc_fold(toks, n).pc.speed == pc_fold(
            toks,
            m,
        ).pc.speed,
        pc_fold(toks, m).pc.altitude is Some ==> pc_fold(toks, n).pc.altitude == pc_fold(
            toks,
            m,
        ).pc.altitude,
        pc_fold(toks, m).pc.additional_precision is Some ==> pc_fold(
            toks,
            n,
        ).pc.additional_precision == pc_fold(toks, m).pc.additional_precision,
        pc_fold(toks, m).pc.id is Some ==> pc_fold(toks, n).pc.id == pc_fold(toks, m).pc.id,
        pc_fold(toks, m).pc.climb_rate is Some ==> pc_fold(toks, n).pc.climb_rate == pc_fold(
            toks,
            m,
        ).pc.climb_rate,
        pc_fold(toks, m).pc.turn_rate is Some ==> pc_fold(toks, n).pc.turn_rate == pc_fold(
            toks,
            m,
        ).pc.turn_rate,
        pc_fold(toks, m).pc.signal_quality is Some ==> pc_fold(toks, n).pc.signal_quality
            == pc_fold(toks, m).pc.signal_quality,
        pc_fold(toks, m).pc.error is Some ==> pc_fold(toks, n).pc.error == pc_fold(
            toks,
            m,
        ).pc.error,
        pc_fold(toks, m).pc.frequency_offset is Some ==> pc_fold(toks, n).pc.frequency_offset
            == pc_fold(toks, m).pc.frequency_offset,
        pc_fold(toks, m).pc.gps_quality is Some ==> pc_fold(toks, n).pc.gps_quality == pc_fold(
            toks,
            m,
        ).pc.gps_quality,
        pc_fold(toks, m).pc.flight_level is Some ==> pc_fold(toks, n).pc.flight_level == pc_fold(
            toks,
            m,
        ).pc.flight_level,
        pc_fold(toks, m).pc.signal_power is Some ==> pc_fold(toks, n).pc.signal_power == pc_fold(
            toks,
            m,
        ).pc.signal_power,
        pc_fold(toks, m).pc.software_version is Some ==> pc_fold(toks, n).pc.software_version
            == pc_fold(toks, m).pc.software_version,
        pc_fold(toks, m).pc.hardware_version is Some ==> pc_fold(toks, n).pc.hardware_version
            == pc_fold(toks, m).pc.hardware_version,
        pc_fold(toks, m).pc.original_address is Some ==> pc_fold(toks, n).pc.original_address
            == pc_fold(toks, m).pc.original_address,
    decreases n,
{
    if n > m {
        lemma_pc_fold_stable(toks, m, n - 1);
        if n - 1 >= 1 {
            lemma_pc_step_stable(pc_fold(toks, n - 1), n - 1, toks[n - 1]);
        } else {
            assert(pc_fold(toks, 0) == pc_init());
        }
    }
}

/// Tokens pushed to `unparsed` stay there, verbatim and in order.
pub proof fn lemma_pc_un_stable(toks: Seq<Seq<u8>>, m: int, n: int)
    requires
        0 <= m <= n,
    ensures
        pc_fold(toks, m).un.len() <= pc_fold(toks, n).un.len(),
        forall|k: int|
            0 <= k < pc_fold(toks, m).un.len() ==> pc_fold(toks, n).un[k] == pc_fold(
                toks,
                m,
            ).un[k],
    decreases n,
{
    if n > m {
        lemma_pc_un_stable(toks, m, n - 1);
    }
}

// ---------------------------------------------------------------------------
// The status classifier
// ---------------------------------------------------------------------------

/// Fields that are only ever set together with their group's guard field.
/// Every state the status fold reaches satisfies this.
pub open spec fn sc_groups_inv(st: ScState) -> bool {
    (st.sc.platform is Some ==> st.sc.version is Some) && (st.sc.ram_total is Some
        ==> st.sc.ram_free is Some) && (st.sc.ntp_correction is Some
        ==> st.sc.ntp_offset is Some) && (st.sc.senders is Some
        ==> st.sc.visible_senders is Some) && (st.sc.rf_correction_automatic is Some
        ==> st.sc.rf_correction_manual is Some) && (st.sc.noise is Some
        ==> st.sc.rf_correction_manual is Some) && (st.sc.senders_signal_quality is Some
        ==> st.sc.rf_correction_manual is Some) && (st.sc.senders_messages is Some
        ==> st.sc.rf_correction_manual is Some) && (st.sc.good_senders_signal_quality is Some
        ==> st.sc.rf_correction_manual is Some) && (st.sc.good_senders is Some
        ==> st.sc.rf_correction_manual is Some) && (st.sc.good_and_bad_senders is Some
        ==> st.sc.rf_correction_manual is Some)
}

#[verifier::rlimit(60)]
pub proof fn lemma_sc_fold_inv(toks: Seq<Seq<u8>>, n: int)
    ensures
        sc_groups_inv(sc_fold(toks, n)),
    decreases n,
{
    if n > 0 {
        lemma_sc_fold_inv(toks, n - 1);
    }
}

/// First-match-wins, step form: a reachable state never loses a set field.
#[verifier::rlimit(100)]
pub proof fn lemma_sc_step_stable(st: ScState, t: Seq<u8>)
    requires
        sc_groups_inv(st),
    ensures
        st.sc.version is Some ==> sc_step(st, t).sc.version == st.sc.version,
        st.sc.platform is Some ==> sc_step(st, t).sc.platform == st.sc.platform,
        st.sc.cpu_load is Some ==> sc_step(st, t).sc.cpu_load == st.sc.cpu_load,
        st.sc.ram_free is Some ==> sc_step(st, t).sc.ram_free == st.sc.ram_free,
        st.sc.ram_total is Some ==> sc_step(st, t).sc.ram_total == st.sc.ram_total,
        st.sc.ntp_offset is Some ==> sc_step(st, t).sc.ntp_offset == st.sc.ntp_offset,
        st.sc.ntp_correction is Some ==> sc_step(st, t).sc.ntp_correction == st.sc.ntp_correction,
        st.sc.voltage is Some ==> sc_step(st, t).sc.voltage == st.sc.voltage,
        st.sc.amperage is Some ==> sc_step(st, t).sc.amperage == st.sc.amperage,
        st.sc.cpu_temperature is Some ==> sc_step(st, t).sc.cpu_temperature
            == st.sc.cpu_temperature,
        st.sc.visible_senders is Some ==> sc_step(st, t).sc.visible_senders
            == st.sc.visible_senders,
        st.sc.latency is Some ==> sc_step(st, t).sc.latency == st.sc.latency,
        st.sc.senders is Some ==> sc_step(st, t).sc.senders == st.sc.senders,
        st.sc.rf_correction_manual is Some ==> sc_step(st, t).sc.rf_correction_manual
            == st.sc.rf_correction_manual,
        st.sc.rf_correction_automatic is Some ==> sc_step(st, t).sc.rf_correction_automatic
            == st.sc.rf_correction_automatic,
        st.sc.noise is Some ==> sc_step(st, t).sc.noise == st.sc.noise,
        st.sc.senders_signal_quality is Some ==> sc_step(st, t).sc.senders_signal_quality
            == st.sc.senders_signal_quality,
        st.sc.senders_messages is Some ==> sc_step(st, t).sc.senders_messages
            == st.sc.senders_messages,
        st.sc.good_senders_signal_quality is Some ==> sc_step(st, t).sc.good_senders_signal_quality
            == st.sc.good_senders_signal_quality,
        st.sc.good_senders is Some ==> sc_step(st, t).sc.good_senders == st.sc.good_senders,
        st.sc.good_and_bad_senders is Some ==> sc_step(st, t).sc.good_and_bad_senders
            == st.sc.good_and_bad_senders,
{
}

/// First-match-wins, fold form, for the status classifier.
#[verifier::rlimit(60)]
pub proof fn lemma_sc_fold_stable(toks: Seq<Seq<u8>>, m: int, n: int)
    requires
        0 <= m <= n,
    ensures
        sc_fold(toks, m).sc.version is Some ==> sc_fold(toks, n).sc.version == sc_fold(
            toks,
            m,
        ).sc.version,
        sc_fold(toks, m).sc.platform is Some ==> sc_fold(toks, n).sc.platform == sc_fold(
            toks,
            m,
        ).sc.platform,
        sc_fold(toks, m).sc.cpu_load is Some ==> sc_fold(toks, n).sc.cpu_load == sc_fold(
            toks,
            m,
        ).sc.cpu_load,
        sc_fold(toks, m).sc.ram_free is Some ==> sc_fold(toks, n).sc.ram_free == sc_fold(
            toks,
            m,
        ).sc.ram_free,
        sc_fold(toks, m).sc.ram_total is Some ==> sc_fold(toks, n).sc.ram_total == sc_fold(
            toks,
            m,
        ).sc.ram_total,
        sc_fold(toks, m).sc.ntp_offset is Some ==> sc_fold(toks, n).sc.ntp_offset == sc_fold(
            toks,
            m,
        ).sc.ntp_offset,
        sc_fold(toks, m).sc.ntp_correction is Some ==> sc_fold(toks, n).sc.ntp_correction
            == sc_fold(toks, m).sc.ntp_correction,
        sc_fold(toks, m).sc.voltage is Some ==> sc_fold(toks, n).sc.voltage == sc_fold(
            toks,
            m,
        ).sc.voltage,
        sc_fold(toks, m).sc.amperage is Some ==> sc_fold(toks, n).sc.amperage == sc_fold(
            toks,
            m,
        ).sc.amperage,
        sc_fold(toks, m).sc.cpu_temperature is Some ==> sc_fold(toks, n).sc.cpu_temperature
            == sc_fold(toks, m).sc.cpu_temperature,
        sc_fold(toks, m).sc.visible_senders is Some ==> sc_fold(toks, n).sc.visible_senders
            == sc_fold(toks, m).sc.visible_senders,
        sc_fold(toks, m).sc.latency is Some ==> sc_fold(toks, n).sc.latency == sc_fold(
            toks,
            m,
        ).sc.latency,
        sc_fold(toks, m).sc.senders is Some ==> sc_fold(toks, n).sc.senders == sc_fold(
            toks,
            m,
        ).sc.senders,
        sc_fold(toks, m).sc.rf_correction_manual is Some ==> sc_fold(
            toks,
            n,
        ).sc.rf_correction_manual == sc_fold(toks, m).sc.rf_correction_manual,
        sc_fold(toks, m).sc.rf_correction_automatic is Some ==> sc_fold(
            toks,
            n,
        ).sc.rf_correction_automatic == sc_fold(toks, m).sc.rf_correction_automatic,
        sc_fold(toks, m).sc.noise is Some ==> sc_fold(toks, n).sc.noise == sc_fold(
            toks,
            m,
        ).sc.noise,
        sc_fold(toks, m).sc.senders_signal_quality is Some ==> sc_fold(
            toks,
            n,
        ).sc.senders_signal_quality == sc_fold(toks, m).sc.senders_signal_quality,
        sc_fold(toks, m).sc.senders_messages is Some ==> sc_fold(toks, n).sc.senders_messages
            == sc_fold(toks, m).sc.senders_messages,
        sc_fold(toks, m).sc.good_senders_signal_quality is Some ==> sc_fold(
            toks,
            n,
        ).sc.good_senders_signal_quality == sc_fold(toks, m).sc.good_senders_signal_quality,
        sc_fold(toks, m).sc.good_senders is Some ==> sc_fold(toks, n).sc.good_senders == sc_fold(
            toks,
            m,
        ).sc.good_senders,
        sc_fold(toks, m).sc.good_and_bad_senders is Some ==> sc_fold(
            toks,
            n,
        ).sc.good_and_bad_senders == sc_fold(toks, m).sc.good_and_bad_senders,
    decreases n,
{
    if n > m {
        lemma_sc_fold_stable(toks, m, n - 1);
        lemma_sc_fold_inv(toks, n - 1);
        lemma_sc_step_stable(sc_fold(toks, n - 1), toks[n - 1]);
    }
}

/// Tokens pushed to `unparsed` stay there, verbatim and in order.
pub proof fn lemma_sc_un_stable(toks: Seq<Seq<u8>>, m: int, n: int)
    requires
        0 <= m <= n,
    ensures
        sc_fold(toks, m).un.len() <= sc_fold(toks, n).un.len(),
        forall|k: int|
            0 <= k < sc_fold(toks, m).un.len() ==> sc_fold(toks, n).un[k] == sc_fold(
                toks,
                m,
            ).un[k],
    decreases n,
{
    if n > m {
        lemma_sc_un_stable(toks, m, n - 1);
    }
}

/// Fields of one rule group are set together.
#[verifier::rlimit(60)]
pub proof fn lemma_sc_fold_pairs(toks: Seq<Seq<u8>>, n: int)
    ensures
        sc_fold(toks, n).sc.version is Some <==> sc_fold(toks, n).sc.platform is Some,
        sc_fold(toks, n).sc.ram_free is Some <==> sc_fold(toks, n).sc.ram_total is Some,
        sc_fold(toks, n).sc.ntp_offset is Some <==> sc_fold(toks, n).sc.ntp_correction is Some,
        sc_fold(toks, n).sc.visible_senders is Some <==> sc_fold(toks, n).sc.senders is Some,
    decreases n,
{
    if n > 0 {
        lemma_sc_fold_pairs(toks, n - 1);
    }
}

/// Duplicate shapes, step form, for the status classifier. A token whose
/// shape could also fit the sender-counts or radio-frequency compound rules
/// is excluded where those rules could still capture it.
#[verifier::rlimit(100)]
pub proof fn lemma_sc_step_duplicate(st: ScState, t: Seq<u8>)
    ensures
        t.len() >= 1 && t[0] == 118 && exactly_three_dots(t) && st.sc.version is Some && !(t.len()
            >= 11 && acfts_suffix(t) && slash_of(t) < t.len()) ==> sc_step(st, t) == sc_push(st, t),
        t.len() > 4 && t[0] == 67 && t[1] == 80 && t[2] == 85 && t[3] == 58
            && st.sc.cpu_load is Some && !(t.len() >= 11 && acfts_suffix(t) && slash_of(t)
            < t.len()) ==> sc_step(st, t) == sc_push(st, t),
        t.len() > 6 && t[0] == 82 && t[1] == 65 && t[2] == 77 && t[3] == 58 && t[t.len() - 2] == 77
            && t[t.len() - 1] == 66 && slash_of(t) < t.len() && st.sc.ram_free is Some ==> sc_step(
            st,
            t,
        ) == sc_push(st, t),
        t.len() > 6 && t[0] == 78 && t[1] == 84 && t[2] == 80 && t[3] == 58 && slash_of(t)
            < t.len() && st.sc.ntp_offset is Some && !(t.len() >= 11 && acfts_suffix(t))
            ==> sc_step(st, t) == sc_push(st, t),
        t.len() >= 11 && acfts_suffix(t) && slash_of(t) < t.len() && st.sc.visible_senders is Some
            && !(t[0] == 82 && t[1] == 70 && t[2] == 58) && !(t[0] == 118 && exactly_three_dots(t))
            && !(t[0] == 67 && t[1] == 80 && t[2] == 85 && t[3] == 58) && !(t[0] == 78 && t[1]
            == 84 && t[2] == 80 && t[3] == 58) ==> sc_step(st, t) == sc_push(st, t),
        t.len() > 5 && t[0] == 76 && t[1] == 97 && t[2] == 116 && t[3] == 58 && t[t.len() - 1]
            == 115 && st.sc.latency is Some ==> sc_step(st, t) == sc_push(st, t),
        t.len() >= 11 && t[0] == 82 && t[1] == 70 && t[2] == 58
            && st.sc.rf_correction_manual is Some && !(acfts_suffix(t) && slash_of(t) < t.len())
            ==> sc_step(st, t) == sc_push(st, t),
        svu_split(t) is Some && is_unit_c(svu_unit(t)) && st.sc.cpu_temperature is Some
            ==> sc_step(st, t) == sc_push(st, t),
        svu_split(t) is Some && is_unit_v(svu_unit(t)) && st.sc.voltage is Some ==> sc_step(st, t)
            == sc_push(st, t),
        svu_split(t) is Some && is_unit_a(svu_unit(t)) && st.sc.amperage is Some ==> sc_step(st, t)
            == sc_push(st, t),
{
    if svu_split(t) is Some {
        let p = svu_p(t);
        assert(t.subrange(p, t.len() as int)[t.len() - 1 - p] == t[t.len() - 1]);
    }
}

/// A token that fits none of the status rule shapes.
pub open spec fn sc_no_rule(t: Seq<u8>) -> bool {
    !(t.len() >= 1 && t[0] == 118 && exactly_three_dots(t)) && !(t.len() > 4 && t[0] == 67 && t[1]
        == 80 && t[2] == 85 && t[3] == 58) && !(t.len() > 6 && t[0] == 82 && t[1] == 65 && t[2]
        == 77 && t[3] == 58 && t[t.len() - 2] == 77 && t[t.len() - 1] == 66 && slash_of(t)
        < t.len()) && !(t.len() > 6 && t[0] == 78 && t[1] == 84 && t[2] == 80 && t[3] == 58
        && slash_of(t) < t.len()) && !(t.len() >= 11 && acfts_suffix(t) && slash_of(t) < t.len())
        && !(t.len() > 5 && t[0] == 76 && t[1] == 97 && t[2] == 116 && t[3] == 58 && t[t.len() - 1]
        == 115) && !(t.len() >= 11 && t[0] == 82 && t[1] == 70 && t[2] == 58) && svu_split(
        t,
    ) is None
}

/// Graceful degradation, step form, for the status classifier.
#[verifier::rlimit(60)]
pub proof fn lemma_sc_step_no_rule(st: ScState, t: Seq<u8>)
    requires
        sc_no_rule(t),
    ensures
        sc_step(st, t) == sc_push(st, t),
{
}

/// Graceful degradation, stream form, for the status classifier.
#[verifier::rlimit(60)]
pub proof fn lemma_sc_no_rule_to_unparsed(toks: Seq<Seq<u8>>, j: int)
    requires
        0 <= j < toks.len(),
        sc_no_rule(toks[j]),
    ensures
        0 <= sc_fold(toks, j).un.len() < sc_fold(toks, toks.len() as int).un.len(),
        sc_fold(toks, toks.len() as int).un[sc_fold(toks, j).un.len() as int] == toks[j],
{
    let n = toks.len() as int;
    lemma_sc_step_no_rule(sc_fold(toks, j), toks[j]);
    assert(sc_fold(toks, j + 1) == sc_step(sc_fold(toks, j), toks[j]));
    lemma_sc_un_stable(toks, j + 1, n);
}

/// The idempotent guard, stream form, for the status classifier: a duplicate
/// of an already-captured shape leaves the field at its earlier value and
/// appears verbatim in the unparsed list. Stated for the version, unit and
/// radio-frequency shapes; the others follow from the step lemma the same
/// way.
#[verifier::rlimit(100)]
pub proof fn lemma_sc_idempotent_guard(toks: Seq<Seq<u8>>, j: int)
    requires
        0 <= j < toks.len(),
    ensures
        toks[j].len() >= 1 && toks[j][0] == 118 && exactly_three_dots(toks[j]) && sc_fold(
            toks,
            j,
        ).sc.version is Some && !(toks[j].len() >= 11 && acfts_suffix(toks[j]) && slash_of(toks[j])
            < toks[j].len()) ==> sc_fold(toks, toks.len() as int).sc.version == sc_fold(
            toks,
            j,
        ).sc.version && sc_fold(toks, toks.len() as int).un[sc_fold(toks, j).un.len() as int]
            == toks[j],
        svu_split(toks[j]) is Some && is_unit_c(svu_unit(toks[j])) && sc_fold(
            toks,
            j,
        ).sc.cpu_temperature is Some ==> sc_fold(toks, toks.len() as int).sc.cpu_temperature
            == sc_fold(toks, j).sc.cpu_temperature && sc_fold(toks, toks.len() as int).un[sc_fold(
            toks,
            j,
        ).un.len() as int] == toks[j],
        svu_split(toks[j]) is Some && is_unit_v(svu_unit(toks[j])) && sc_fold(
            toks,
            j,
        ).sc.voltage is Some ==> sc_fold(toks, toks.len() as int).sc.voltage == sc_fold(
            toks,
            j,
        ).sc.voltage && sc_fold(toks, toks.len() as int).un[sc_fold(toks, j).un.len() as int]
            == toks[j],
        svu_split(toks[j]) is Some && is_unit_a(svu_unit(toks[j])) && sc_fold(
            toks,
            j,
        ).sc.amperage is Some ==> sc_fold(toks, toks.len() as int).sc.amperage == sc_fold(
            toks,
            j,
        ).sc.amperage && sc_fold(toks, toks.len() as int).un[sc_fold(toks, j).un.len() as int]
            == toks[j],
        toks[j].len() > 4 && toks[j][0] == 67 && toks[j][1] == 80 && toks[j][2] == 85 && toks[j][3]
            == 58 && sc_fold(toks, j).sc.cpu_load is Some && !(toks[j].len() >= 11 && acfts_suffix(
            toks[j],
        ) && slash_of(toks[j]) < toks[j].len()) ==> sc_fold(toks, toks.len() as int).sc.cpu_load
            == sc_fold(toks, j).sc.cpu_load && sc_fold(toks, toks.len() as int).un[sc_fold(
            toks,
            j,
        ).un.len() as int] == toks[j],
        toks[j].len() > 6 && toks[j][0] == 82 && toks[j][1] == 65 && toks[j][2] == 77 && toks[j][3]
            == 58 && toks[j][toks[j].len() - 2] == 77 && toks[j][toks[j].len() - 1] == 66
            && slash_of(toks[j]) < toks[j].len() && sc_fold(toks, j).sc.ram_free is Some
            ==> sc_fold(toks, toks.len() as int).sc.ram_free == sc_fold(toks, j).sc.ram_free
            && sc_fold(toks, toks.len() as int).sc.ram_total == sc_fold(toks, j).sc.ram_total
            && sc_fold(toks, toks.len() as int).un[sc_fold(toks, j).un.len() as int] == toks[j],
        toks[j].len() > 6 && toks[j][0] == 78 && toks[j][1] == 84 && toks[j][2] == 80 && toks[j][3]
            == 58 && slash_of(toks[j]) < toks[j].len() && sc_fold(toks, j).sc.ntp_offset is Some
            && !(toks[j].len() >= 11 && acfts_suffix(toks[j])) ==> sc_fold(
            toks,
            toks.len() as int,
        ).sc.ntp_offset == sc_fold(toks, j).sc.ntp_offset && sc_fold(
            toks,
            toks.len() as int,
        ).sc.ntp_correction == sc_fold(toks, j).sc.ntp_correction && sc_fold(
            toks,
            toks.len() as int,
        ).un[sc_fold(toks, j).un.len() as int] == toks[j],
        toks[j].len() >= 11 && acfts_suffix(toks[j]) && slash_of(toks[j]) < toks[j].len()
            && sc_fold(toks, j).sc.visible_senders is Some && !(toks[j][0] == 82 && toks[j][1]
            == 70 && toks[j][2] == 58) && !(toks[j][0] == 118 && exactly_three_dots(toks[j])) && !(
        toks[j][0] == 67 && toks[j][1] == 80 && toks[j][2] == 85 && toks[j][3] == 58) && !(
        toks[j][0] == 78 && toks[j][1] == 84 && toks[j][2] == 80 && toks[j][3] == 58) ==> sc_fold(
            toks,
            toks.len() as int,
        ).sc.visible_senders == sc_fold(toks, j).sc.visible_senders && sc_fold(
            toks,
            toks.len() as int,
        ).sc.senders == sc_fold(toks, j).sc.senders && sc_fold(toks, toks.len() as int).un[
        sc_fold(toks, j).un.len() as int] == toks[j],
        toks[j].len() > 5 && toks[j][0] == 76 && toks[j][1] == 97 && toks[j][2] == 116 && toks[j][3]
            == 58 && toks[j][toks[j].len() - 1] == 115 && sc_fold(toks, j).sc.latency is Some
            ==> sc_fold(toks, toks.len() as int).sc.latency == sc_fold(toks, j).sc.latency
            && sc_fold(toks, toks.len() as int).un[sc_fold(toks, j).un.len() as int] == toks[j],
        toks[j].len() >= 11 && toks[j][0] == 82 && toks[j][1] == 70 && toks[j][2] == 58 && !(
        acfts_suffix(toks[j]) && slash_of(toks[j]) < toks[j].len()) && sc_fold(
            toks,
            j,
        ).sc.rf_correction_manual is Some ==> sc_fold(
            toks,
            toks.len() as int,
        ).sc.rf_correction_manual == sc_fold(toks, j).sc.rf_correction_manual && sc_fold(
            toks,
            toks.len() as int,
        ).un[sc_fold(toks, j).un.len() as int] == toks[j],
{
    let n = toks.len() as int;
    lemma_sc_fold_pairs(toks, j);
    lemma_sc_step_duplicate(sc_fold(toks, j), toks[j]);
    lemma_sc_fold_stable(toks, j, n);
    assert(sc_fold(toks, j + 1) == sc_step(sc_fold(toks, j), toks[j]));
    lemma_sc_un_stable(toks, j + 1, n);
}

// ---------------------------------------------------------------------------
// Order independence
// ---------------------------------------------------------------------------

/// The state-free shapes of the position rules past the positional slots.
pub open spec fn pc_shape_id(t: Seq<u8>) -> bool {
    id_shape(t)
}

pub open spec fn pc_shape_unit(t: Seq<u8>) -> bool {
    svu_split(t) is Some
}

pub open spec fn pc_shape_gps(t: Seq<u8>) -> bool {
    t.len() >= 6 && t[0] == 103 && t[1] == 112 && t[2] == 115
}

pub open spec fn pc_shape_fl(t: Seq<u8>) -> bool {
    t.len() >= 3 && t[0] == 70 && t[1] == 76
}

pub open spec fn pc_shape_sw(t: Seq<u8>) -> bool {
    t.len() >= 2 && t[0] == 115
}

pub open spec fn pc_shape_hw(t: Seq<u8>) -> bool {
    t.len() == 3 && t[0] == 104
}

pub open spec fn pc_shape_orig(t: Seq<u8>) -> bool {
    t.len() == 7 && t[0] == 114
}

/// Two position tokens compete for the same rule. Unit tokens compete as a
/// family: a shared value/unit split shape is what order could make visible.
pub open spec fn pc_same_rule(a: Seq<u8>, b: Seq<u8>) -> bool {
    (pc_shape_id(a) && pc_shape_id(b)) || (pc_shape_unit(a) && pc_shape_unit(b)) || (pc_shape_gps(
        a,
    ) && pc_shape_gps(b)) || (pc_shape_fl(a) && pc_shape_fl(b)) || (pc_shape_sw(a) && pc_shape_sw(
        b,
    )) || (pc_shape_hw(a) && pc_shape_hw(b)) || (pc_shape_orig(a) && pc_shape_orig(b))
}

/// The typed fields after a step depend only on the typed fields before it.
#[verifier::rlimit(60)]
pub proof fn lemma_pc_step_fields_only(st1: PcState, st2: PcState, i: int, t: Seq<u8>)
    requires
        st1.pc == st2.pc,
    ensures
        pc_step(st1, i, t).pc == pc_step(st2, i, t).pc,
{
}

/// Past the positional slots, a step leaves the positional fields alone and
/// touches a field only when the token matches its rule's shape.
#[verifier::rlimit(100)]
pub proof fn lemma_pc_untouched(st: PcState, i: int, t: Seq<u8>)
    requires
        i >= 2,
    ensures
        pc_step(st, i, t).pc.course == st.pc.course,
        pc_step(st, i, t).pc.speed == st.pc.speed,
        pc_step(st, i, t).pc.altitude == st.pc.altitude,
        pc_step(st, i, t).pc.additional_precision == st.pc.additional_precision,
        !pc_shape_id(t) ==> pc_step(st, i, t).pc.id == st.pc.id,
        !pc_shape_unit(t) ==> pc_step(st, i, t).pc.climb_rate == st.pc.climb_rate,
        !pc_shape_unit(t) ==> pc_step(st, i, t).pc.turn_rate == st.pc.turn_rate,
        !pc_shape_unit(t) ==> pc_step(st, i, t).pc.signal_quality == st.pc.signal_quality,
        !pc_shape_unit(t) ==> pc_step(st, i, t).pc.error == st.pc.error,
        !pc_shape_unit(t) ==> pc_step(st, i, t).pc.frequency_offset == st.pc.frequency_offset,
        !pc_shape_unit(t) ==> pc_step(st, i, t).pc.signal_power == st.pc.signal_power,
        !pc_shape_gps(t) ==> pc_step(st, i, t).pc.gps_quality == st.pc.gps_quality,
        !pc_shape_fl(t) ==> pc_step(st, i, t).pc.flight_level == st.pc.flight_level,
        !pc_shape_sw(t) ==> pc_step(st, i, t).pc.software_version == st.pc.software_version,
        !pc_shape_hw(t) ==> pc_step(st, i, t).pc.hardware_version == st.pc.hardware_version,
        !pc_shape_orig(t) ==> pc_step(st, i, t).pc.original_address == st.pc.original_address,
{
}

/// Two states that agree on every field of every rule the token's shapes
/// reach classify the token identically on those fields.
#[verifier::rlimit(100)]
pub proof fn lemma_pc_det(st1: PcState, st2: PcState, i: int, t: Seq<u8>)
    requires
        i >= 2,
        pc_shape_id(t) ==> st1.pc.id == st2.pc.id,
        pc_shape_unit(t) ==> st1.pc.climb_rate == st2.pc.climb_rate && st1.pc.turn_rate == st2.pc.turn_rate && st1.pc.signal_quality == st2.pc.signal_quality && st1.pc.error == st2.pc.error && st1.pc.frequency_offset == st2.pc.frequency_offset && st1.pc.signal_power == st2.pc.signal_power,
        pc_shape_gps(t) ==> st1.pc.gps_quality == st2.pc.gps_quality,
        pc_shape_fl(t) ==> st1.pc.flight_level == st2.pc.flight_level,
        pc_shape_sw(t) ==> st1.pc.software_version == st2.pc.software_version,
        pc_shape_hw(t) ==> st1.pc.hardware_version == st2.pc.hardware_version,
        pc_shape_orig(t) ==> st1.pc.original_address == st2.pc.original_address,
    ensures
        pc_shape_id(t) ==> pc_step(st1, i, t).pc.id == pc_step(st2, i, t).pc.id,
        pc_shape_unit(t) ==> pc_step(st1, i, t).pc.climb_rate == pc_step(st2, i, t).pc.climb_rate,
        pc_shape_unit(t) ==> pc_step(st1, i, t).pc.turn_rate == pc_step(st2, i, t).pc.turn_rate,
        pc_shape_unit(t) ==> pc_step(st1, i, t).pc.signal_quality == pc_step(st2, i, t).pc.signal_quality,
        pc_shape_unit(t) ==> pc_step(st1, i, t).pc.error == pc_step(st2, i, t).pc.error,
        pc_shape_unit(t) ==> pc_step(st1, i, t).pc.frequency_offset == pc_step(st2, i, t).pc.frequency_offset,
        pc_shape_unit(t) ==> pc_step(st1, i, t).pc.signal_power == pc_step(st2, i, t).pc.signal_power,
        pc_shape_gps(t) ==> pc_step(st1, i, t).pc.gps_quality == pc_step(st2, i, t).pc.gps_quality,
        pc_shape_fl(t) ==> pc_step(st1, i, t).pc.flight_level == pc_step(st2, i, t).pc.flight_level,
        pc_shape_sw(t) ==> pc_step(st1, i, t).pc.software_version == pc_step(st2, i, t).pc.software_version,
        pc_shape_hw(t) ==> pc_step(st1, i, t).pc.hardware_version == pc_step(st2, i, t).pc.hardware_version,
        pc_shape_orig(t) ==> pc_step(st1, i, t).pc.original_address == pc_step(st2, i, t).pc.original_address,
{
}

/// A step's effect does not depend on the slot index past the positional
/// slots.
#[verifier::rlimit(100)]
pub proof fn lemma_pc_index_irrelevant(st: PcState, i: int, j: int, t: Seq<u8>)
    requires
        i >= 2,
        j >= 2,
    ensures
        pc_step(st, i, t) == pc_step(st, j, t),
{
}

/// One step never writes the `unparsed` field of the record.
#[verifier::rlimit(100)]
proof fn lemma_pc_step_unparsed_keep(st: PcState, i: int, t: Seq<u8>)
    ensures
        pc_step(st, i, t).pc.unparsed == st.pc.unparsed,
{
}

/// The fold never writes the `unparsed` field of the record.
proof fn lemma_pc_unparsed_none2(st: PcState, i: int, j: int, a: Seq<u8>, b: Seq<u8>)
    ensures
        pc_step(pc_step(st, i, a), j, b).pc.unparsed == st.pc.unparsed,
        pc_step(pc_step(st, i, b), j, a).pc.unparsed == st.pc.unparsed,
{
    lemma_pc_step_unparsed_keep(st, i, a);
    lemma_pc_step_unparsed_keep(pc_step(st, i, a), j, b);
    lemma_pc_step_unparsed_keep(st, i, b);
    lemma_pc_step_unparsed_keep(pc_step(st, i, b), j, a);
}

/// Order independence, step form: past the positional slots, two tokens that
/// do not compete for the same rule classify to the same typed fields in
/// either order.
pub proof fn lemma_pc_swap(st: PcState, i: int, j: int, a: Seq<u8>, b: Seq<u8>)
    requires
        i >= 2,
        j >= 2,
        !pc_same_rule(a, b),
    ensures
        pc_step(pc_step(st, i, a), j, b).pc == pc_step(pc_step(st, i, b), j, a).pc,
{
    let sa = pc_step(st, i, a);
    let sb = pc_step(st, i, b);
    let l = pc_step(sa, j, b).pc;
    let r = pc_step(sb, j, a).pc;
    lemma_pc_untouched(st, i, a);
    lemma_pc_untouched(st, i, b);
    lemma_pc_untouched(sa, j, b);
    lemma_pc_untouched(sb, j, a);
    lemma_pc_det(st, sb, j, a);
    lemma_pc_det(st, sa, j, b);
    lemma_pc_index_irrelevant(st, i, j, a);
    lemma_pc_index_irrelevant(st, i, j, b);
    assert(l.course == r.course);
    assert(l.speed == r.speed);
    assert(l.altitude == r.altitude);
    assert(l.additional_precision == r.additional_precision);
    assert(l.id == r.id);
    assert(l.climb_rate == r.climb_rate);
    assert(l.turn_rate == r.turn_rate);
    assert(l.signal_quality == r.signal_quality);
    assert(l.error == r.error);
    assert(l.frequency_offset == r.frequency_offset);
    assert(l.signal_power == r.signal_power);
    assert(l.gps_quality == r.gps_quality);
    assert(l.flight_level == r.flight_level);
    assert(l.software_version == r.software_version);
    assert(l.hardware_version == r.hardware_version);
    assert(l.original_address == r.original_address);
    assert(l.unparsed == r.unparsed) by {
        lemma_pc_unparsed_none2(st, i, j, a, b);
    }
    assert(l =~~= r);
}

proof fn lemma_pc_fold_prefix_eq(toks1: Seq<Seq<u8>>, toks2: Seq<Seq<u8>>, m: int)
    requires
        0 <= m,
        forall|k: int| 0 <= k < m ==> toks1[k] == toks2[k],
    ensures
        pc_fold(toks1, m) == pc_fold(toks2, m),
    decreases m,
{
    if m > 0 {
        lemma_pc_fold_prefix_eq(toks1, toks2, m - 1);
    }
}

proof fn lemma_pc_fold_fields_eq_from(toks1: Seq<Seq<u8>>, toks2: Seq<Seq<u8>>, m: int, n: int)
    requires
        0 <= m <= n,
        pc_fold(toks1, m).pc == pc_fold(toks2, m).pc,
        forall|k: int| m <= k < n ==> toks1[k] == toks2[k],
    ensures
        pc_fold(toks1, n).pc == pc_fold(toks2, n).pc,
    decreases n - m,
{
    if n > m {
        lemma_pc_fold_fields_eq_from(toks1, toks2, m, n - 1);
        lemma_pc_step_fields_only(pc_fold(toks1, n - 1), pc_fold(toks2, n - 1), n - 1, toks1[n - 1]);
    }
}

/// Order independence, stream form: swapping two adjacent tokens past the
/// positional slots that do not compete for the same rule leaves every typed
/// field of the final state unchanged. A permutation of the non-positional
/// tokens is a chain of such swaps.
#[verifier::rlimit(100)]
pub proof fn lemma_pc_transposition(toks1: Seq<Seq<u8>>, toks2: Seq<Seq<u8>>, j: int)
    requires
        2 <= j,
        j + 1 < toks1.len(),
        toks2 =~= toks1.update(j, toks1[j + 1]).update(j + 1, toks1[j]),
        !pc_same_rule(toks1[j], toks1[j + 1]),
    ensures
        pc_fold(toks1, toks1.len() as int).pc == pc_fold(toks2, toks2.len() as int).pc,
{
    let n = toks1.len() as int;
    assert(toks2.len() == toks1.len());
    lemma_pc_fold_prefix_eq(toks1, toks2, j);
    let st = pc_fold(toks1, j);
    lemma_pc_swap(st, j, j + 1, toks1[j], toks1[j + 1]);
    assert(pc_fold(toks1, j + 1) == pc_step(st, j, toks1[j]));
    assert(pc_fold(toks2, j + 1) == pc_step(st, j, toks1[j + 1]));
    assert(pc_fold(toks1, j + 2) == pc_step(pc_step(st, j, toks1[j]), j + 1, toks1[j + 1]));
    assert(pc_fold(toks2, j + 2) == pc_step(pc_step(st, j, toks1[j + 1]), j + 1, toks1[j]));
    assert(pc_fold(toks1, j + 2).pc == pc_fold(toks2, j + 2).pc);
    lemma_pc_fold_fields_eq_from(toks1, toks2, j + 2, n);
}

/// The state-free shapes of the status rules.
pub open spec fn sc_shape_v(t: Seq<u8>) -> bool {
    t.len() >= 1 && t[0] == 118 && exactly_three_dots(t)
}

pub open spec fn sc_shape_cpu(t: Seq<u8>) -> bool {
    t.len() > 4 && t[0] == 67 && t[1] == 80 && t[2] == 85 && t[3] == 58
}

pub open spec fn sc_shape_ram(t: Seq<u8>) -> bool {
    t.len() > 6 && t[0] == 82 && t[1] == 65 && t[2] == 77 && t[3] == 58 && t[t.len() - 2] == 77
        && t[t.len() - 1] == 66 && slash_of(t) < t.len()
}

pub open spec fn sc_shape_ntp(t: Seq<u8>) -> bool {
    t.len() > 6 && t[0] == 78 && t[1] == 84 && t[2] == 80 && t[3] == 58 && slash_of(t) < t.len()
}

pub open spec fn sc_shape_acfts(t: Seq<u8>) -> bool {
    t.len() >= 11 && acfts_suffix(t) && slash_of(t) < t.len()
}

pub open spec fn sc_shape_lat(t: Seq<u8>) -> bool {
    t.len() > 5 && t[0] == 76 && t[1] == 97 && t[2] == 116 && t[3] == 58 && t[t.len() - 1] == 115
}

pub open spec fn sc_shape_rf(t: Seq<u8>) -> bool {
    t.len() >= 11 && t[0] == 82 && t[1] == 70 && t[2] == 58
}

pub open spec fn sc_shape_unit(t: Seq<u8>) -> bool {
    svu_split(t) is Some
}

/// Two status tokens compete for the same rule.
pub open spec fn sc_same_rule(a: Seq<u8>, b: Seq<u8>) -> bool {
    (sc_shape_v(a) && sc_shape_v(b)) || (sc_shape_cpu(a) && sc_shape_cpu(b)) || (sc_shape_ram(a)
        && sc_shape_ram(b)) || (sc_shape_ntp(a) && sc_shape_ntp(b)) || (sc_shape_acfts(a)
        && sc_shape_acfts(b)) || (sc_shape_lat(a) && sc_shape_lat(b)) || (sc_shape_rf(a)
        && sc_shape_rf(b)) || (sc_shape_unit(a) && sc_shape_unit(b))
}

/// The typed fields after a step depend only on the typed fields before it.
#[verifier::rlimit(60)]
pub proof fn lemma_sc_step_fields_only(st1: ScState, st2: ScState, t: Seq<u8>)
    requires
        st1.sc == st2.sc,
    ensures
        sc_step(st1, t).sc == sc_step(st2, t).sc,
{
}

/// A status step touches a field only when the token matches its rule's
/// shape.
#[verifier::rlimit(100)]
pub proof fn lemma_sc_untouched(st: ScState, t: Seq<u8>)
    ensures
        !sc_shape_v(t) ==> sc_step(st, t).sc.version == st.sc.version,
        !sc_shape_v(t) ==> sc_step(st, t).sc.platform == st.sc.platform,
        !sc_shape_cpu(t) ==> sc_step(st, t).sc.cpu_load == st.sc.cpu_load,
        !sc_shape_ram(t) ==> sc_step(st, t).sc.ram_free == st.sc.ram_free,
        !sc_shape_ram(t) ==> sc_step(st, t).sc.ram_total == st.sc.ram_total,
        !sc_shape_ntp(t) ==> sc_step(st, t).sc.ntp_offset == st.sc.ntp_offset,
        !sc_shape_ntp(t) ==> sc_step(st, t).sc.ntp_correction == st.sc.ntp_correction,
        !sc_shape_acfts(t) ==> sc_step(st, t).sc.visible_senders == st.sc.visible_senders,
        !sc_shape_acfts(t) ==> sc_step(st, t).sc.senders == st.sc.senders,
        !sc_shape_lat(t) ==> sc_step(st, t).sc.latency == st.sc.latency,
        !sc_shape_rf(t) ==> sc_step(st, t).sc.rf_correction_manual == st.sc.rf_correction_manual,
        !sc_shape_rf(t) ==> sc_step(st, t).sc.rf_correction_automatic == st.sc.rf_correction_automatic,
        !sc_shape_rf(t) ==> sc_step(st, t).sc.noise == st.sc.noise,
        !sc_shape_rf(t) ==> sc_step(st, t).sc.senders_signal_quality == st.sc.senders_signal_quality,
        !sc_shape_rf(t) ==> sc_step(st, t).sc.senders_messages == st.sc.senders_messages,
        !sc_shape_rf(t) ==> sc_step(st, t).sc.good_senders_signal_quality == st.sc.good_senders_signal_quality,
        !sc_shape_rf(t) ==> sc_step(st, t).sc.good_senders == st.sc.good_senders,
        !sc_shape_rf(t) ==> sc_step(st, t).sc.good_and_bad_senders == st.sc.good_and_bad_senders,
        !sc_shape_unit(t) ==> sc_step(st, t).sc.cpu_temperature == st.sc.cpu_temperature,
        !sc_shape_unit(t) ==> sc_step(st, t).sc.voltage == st.sc.voltage,
        !sc_shape_unit(t) ==> sc_step(st, t).sc.amperage == st.sc.amperage,
{
}

/// Two states that agree on every field of every rule the token's shapes
/// reach classify the token identically on those fields.
#[verifier::rlimit(100)]
pub proof fn lemma_sc_det(st1: ScState, st2: ScState, t: Seq<u8>)
    requires
        sc_shape_v(t) ==> st1.sc.version == st2.sc.version && st1.sc.platform == st2.sc.platform,
        sc_shape_cpu(t) ==> st1.sc.cpu_load == st2.sc.cpu_load,
        sc_shape_ram(t) ==> st1.sc.ram_free == st2.sc.ram_free && st1.sc.ram_total == st2.sc.ram_total,
        sc_shape_ntp(t) ==> st1.sc.ntp_offset == st2.sc.ntp_offset && st1.sc.ntp_correction == st2.sc.ntp_correction,
        sc_shape_acfts(t) ==> st1.sc.visible_senders == st2.sc.visible_senders && st1.sc.senders == st2.sc.senders,
        sc_shape_lat(t) ==> st1.sc.latency == st2.sc.latency,
        sc_shape_rf(t) ==> st1.sc.rf_correction_manual == st2.sc.rf_correction_manual && st1.sc.rf_correction_automatic == st2.sc.rf_correction_automatic && st1.sc.noise == st2.sc.noise && st1.sc.senders_signal_quality == st2.sc.senders_signal_quality && st1.sc.senders_messages == st2.sc.senders_messages && st1.sc.good_senders_signal_quality == st2.sc.good_senders_signal_quality && st1.sc.good_senders == st2.sc.good_senders && st1.sc.good_and_bad_senders == st2.sc.good_and_bad_senders,
        sc_shape_unit(t) ==> st1.sc.cpu_temperature == st2.sc.cpu_temperature && st1.sc.voltage == st2.sc.voltage && st1.sc.amperage == st2.sc.amperage,
    ensures
        sc_shape_v(t) ==> sc_step(st1, t).sc.version == sc_step(st2, t).sc.version,
        sc_shape_v(t) ==> sc_step(st1, t).sc.platform == sc_step(st2, t).sc.platform,
        sc_shape_cpu(t) ==> sc_step(st1, t).sc.cpu_load == sc_step(st2, t).sc.cpu_load,
        sc_shape_ram(t) ==> sc_step(st1, t).sc.ram_free == sc_step(st2, t).sc.ram_free,
        sc_shape_ram(t) ==> sc_step(st1, t).sc.ram_total == sc_step(st2, t).sc.ram_total,
        sc_shape_ntp(t) ==> sc_step(st1, t).sc.ntp_offset == sc_step(st2, t).sc.ntp_offset,
        sc_shape_ntp(t) ==> sc_step(st1, t).sc.ntp_correction == sc_step(st2, t).sc.ntp_correction,
        sc_shape_acfts(t) ==> sc_step(st1, t).sc.visible_senders == sc_step(st2, t).sc.visible_senders,
        sc_shape_acfts(t) ==> sc_step(st1, t).sc.senders == sc_step(st2, t).sc.senders,
        sc_shape_lat(t) ==> sc_step(st1, t).sc.latency == sc_step(st2, t).sc.latency,
        sc_shape_rf(t) ==> sc_step(st1, t).sc.rf_correction_manual == sc_step(st2, t).sc.rf_correction_manual,
        sc_shape_rf(t) ==> sc_step(st1, t).sc.rf_correction_automatic == sc_step(st2, t).sc.rf_correction_automatic,
        sc_shape_rf(t) ==> sc_step(st1, t).sc.noise == sc_step(st2, t).sc.noise,
        sc_shape_rf(t) ==> sc_step(st1, t).sc.senders_signal_quality == sc_step(st2, t).sc.senders_signal_quality,
        sc_shape_rf(t) ==> sc_step(st1, t).sc.senders_messages == sc_step(st2, t).sc.senders_messages,
        sc_shape_rf(t) ==> sc_step(st1, t).sc.good_senders_signal_quality == sc_step(st2, t).sc.good_senders_signal_quality,
        sc_shape_rf(t) ==> sc_step(st1, t).sc.good_senders == sc_step(st2, t).sc.good_senders,
        sc_shape_rf(t) ==> sc_step(st1, t).sc.good_and_bad_senders == sc_step(st2, t).sc.good_and_bad_senders,
        sc_shape_unit(t) ==> sc_step(st1, t).sc.cpu_temperature == sc_step(st2, t).sc.cpu_temperature,
        sc_shape_unit(t) ==> sc_step(st1, t).sc.voltage == sc_step(st2, t).sc.voltage,
        sc_shape_unit(t) ==> sc_step(st1, t).sc.amperage == sc_step(st2, t).sc.amperage,
{
}

/// One step never writes the `unparsed` field of the record.
#[verifier::rlimit(100)]
proof fn lemma_sc_step_unparsed_keep(st: ScState, t: Seq<u8>)
    ensures
        sc_step(st, t).sc.unparsed == st.sc.unparsed,
{
}

/// The fold never writes the `unparsed` field of the record.
proof fn lemma_sc_unparsed_none2(st: ScState, a: Seq<u8>, b: Seq<u8>)
    ensures
        sc_step(sc_step(st, a), b).sc.unparsed == st.sc.unparsed,
        sc_step(sc_step(st, b), a).sc.unparsed == st.sc.unparsed,
{
    lemma_sc_step_unparsed_keep(st, a);
    lemma_sc_step_unparsed_keep(sc_step(st, a), b);
    lemma_sc_step_unparsed_keep(st, b);
    lemma_sc_step_unparsed_keep(sc_step(st, b), a);
}

/// Order independence, step form: two status tokens that do not compete for
/// the same rule classify to the same typed fields in either order.
pub proof fn lemma_sc_swap(st: ScState, a: Seq<u8>, b: Seq<u8>)
    requires
        !sc_same_rule(a, b),
    ensures
        sc_step(sc_step(st, a), b).sc == sc_step(sc_step(st, b), a).sc,
{
    let sa = sc_step(st, a);
    let sb = sc_step(st, b);
    let l = sc_step(sa, b).sc;
    let r = sc_step(sb, a).sc;
    lemma_sc_untouched(st, a);
    lemma_sc_untouched(st, b);
    lemma_sc_untouched(sa, b);
    lemma_sc_untouched(sb, a);
    lemma_sc_det(st, sb, a);
    lemma_sc_det(st, sa, b);
    assert(l.version == r.version);
    assert(l.platform == r.platform);
    assert(l.cpu_load == r.cpu_load);
    assert(l.ram_free == r.ram_free);
    assert(l.ram_total == r.ram_total);
    assert(l.ntp_offset == r.ntp_offset);
    assert(l.ntp_correction == r.ntp_correction);
    assert(l.visible_senders == r.visible_senders);
    assert(l.senders == r.senders);
    assert(l.latency == r.latency);
    assert(l.rf_correction_manual == r.rf_correction_manual);
    assert(l.rf_correction_automatic == r.rf_correction_automatic);
    assert(l.noise == r.noise);
    assert(l.senders_signal_quality == r.senders_signal_quality);
    assert(l.senders_messages == r.senders_messages);
    assert(l.good_senders_signal_quality == r.good_senders_signal_quality);
    assert(l.good_senders == r.good_senders);
    assert(l.good_and_bad_senders == r.good_and_bad_senders);
    assert(l.cpu_temperature == r.cpu_temperature);
    assert(l.voltage == r.voltage);
    assert(l.amperage == r.amperage);
    assert(l.unparsed == r.unparsed) by {
        lemma_sc_unparsed_none2(st, a, b);
    }
    assert(l =~~= r);
}

proof fn lemma_sc_fold_prefix_eq(toks1: Seq<Seq<u8>>, toks2: Seq<Seq<u8>>, m: int)
    requires
        0 <= m,
        forall|k: int| 0 <= k < m ==> toks1[k] == toks2[k],
    ensures
        sc_fold(toks1, m) == sc_fold(toks2, m),
    decreases m,
{
    if m > 0 {
        lemma_sc_fold_prefix_eq(toks1, toks2, m - 1);
    }
}

proof fn lemma_sc_fold_fields_eq_from(toks1: Seq<Seq<u8>>, toks2: Seq<Seq<u8>>, m: int, n: int)
    requires
        0 <= m <= n,
        sc_fold(toks1, m).sc == sc_fold(toks2, m).sc,
        forall|k: int| m <= k < n ==> toks1[k] == toks2[k],
    ensures
        sc_fold(toks1, n).sc == sc_fold(toks2, n).sc,
    decreases n - m,
{
    if n > m {
        lemma_sc_fold_fields_eq_from(toks1, toks2, m, n - 1);
        lemma_sc_step_fields_only(sc_fold(toks1, n - 1), sc_fold(toks2, n - 1), toks1[n - 1]);
    }
}

/// Order independence, stream form, for the status classifier: swapping two
/// adjacent tokens that do not compete for the same rule leaves every typed
/// field of the final state unchanged. A permutation is a chain of such
/// swaps.
#[verifier::rlimit(100)]
pub proof fn lemma_sc_transposition(toks1: Seq<Seq<u8>>, toks2: Seq<Seq<u8>>, j: int)
    requires
        0 <= j,
        j + 1 < toks1.len(),
        toks2 =~= toks1.update(j, toks1[j + 1]).update(j + 1, toks1[j]),
        !sc_same_rule(toks1[j], toks1[j + 1]),
    ensures
        sc_fold(toks1, toks1.len() as int).sc == sc_fold(toks2, toks2.len() as int).sc,
{
    let n = toks1.len() as int;
    assert(toks2.len() == toks1.len());
    lemma_sc_fold_prefix_eq(toks1, toks2, j);
    let st = sc_fold(toks1, j);
    lemma_sc_swap(st, toks1[j], toks1[j + 1]);
    assert(sc_fold(toks1, j + 1) == sc_step(st, toks1[j]));
    assert(sc_fold(toks2, j + 1) == sc_step(st, toks1[j + 1]));
    assert(sc_fold(toks1, j + 2) == sc_step(sc_step(st, toks1[j]), toks1[j + 1]));
    assert(sc_fold(toks2, j + 2) == sc_step(sc_step(st, toks1[j + 1]), toks1[j]));
    assert(sc_fold(toks1, j + 2).sc == sc_fold(toks2, j + 2).sc);
    lemma_sc_fold_fields_eq_from(toks1, toks2, j + 2, n);
}

// ---------------------------------------------------------------------------
// Permutations as chains of adjacent swaps
// ---------------------------------------------------------------------------

/// The token stream with positions `j` and `j + 1` exchanged.
pub open spec fn swap_adjacent(toks: Seq<Seq<u8>>, j: int) -> Seq<Seq<u8>> {
    toks.update(j, toks[j + 1]).update(j + 1, toks[j])
}

/// A chain of adjacent swaps over the non-positional slots, each between
/// tokens that do not compete for the same position rule.
pub open spec fn pc_swaps_admissible(toks: Seq<Seq<u8>>, swaps: Seq<int>) -> bool
    decreases swaps.len(),
{
    if swaps.len() == 0 {
        true
    } else {
        2 <= swaps[0] && swaps[0] + 1 < toks.len() && !pc_same_rule(
            toks[swaps[0]],
            toks[swaps[0] + 1],
        ) && pc_swaps_admissible(swap_adjacent(toks, swaps[0]), swaps.drop_first())
    }
}

/// The token stream after a chain of adjacent swaps.
pub open spec fn apply_swaps(toks: Seq<Seq<u8>>, swaps: Seq<int>) -> Seq<Seq<u8>>
    decreases swaps.len(),
{
    if swaps.len() == 0 {
        toks
    } else {
        apply_swaps(swap_adjacent(toks, swaps[0]), swaps.drop_first())
    }
}

/// Order independence, permutation form: any permutation of the
/// non-positional position tokens that is reached by admissible adjacent
/// swaps classifies to exactly the same typed fields.
pub proof fn lemma_pc_permutation(toks: Seq<Seq<u8>>, swaps: Seq<int>)
    requires
        pc_swaps_admissible(toks, swaps),
    ensures
        apply_swaps(toks, swaps).len() == toks.len(),
        pc_fold(apply_swaps(toks, swaps), toks.len() as int).pc == pc_fold(
            toks,
            toks.len() as int,
        ).pc,
    decreases swaps.len(),
{
    if swaps.len() > 0 {
        let swapped = swap_adjacent(toks, swaps[0]);
        assert(swapped.len() == toks.len());
        lemma_pc_transposition(toks, swapped, swaps[0]);
        lemma_pc_permutation(swapped, swaps.drop_first());
    }
}

/// A chain of adjacent swaps between status tokens that do not compete for
/// the same rule.
pub open spec fn sc_swaps_admissible(toks: Seq<Seq<u8>>, swaps: Seq<int>) -> bool
    decreases swaps.len(),
{
    if swaps.len() == 0 {
        true
    } else {
        0 <= swaps[0] && swaps[0] + 1 < toks.len() && !sc_same_rule(
            toks[swaps[0]],
            toks[swaps[0] + 1],
        ) && sc_swaps_admissible(swap_adjacent(toks, swaps[0]), swaps.drop_first())
    }
}

/// Order independence, permutation form, for the status classifier.
pub proof fn lemma_sc_permutation(toks: Seq<Seq<u8>>, swaps: Seq<int>)
    requires
        sc_swaps_admissible(toks, swaps),
    ensures
        apply_swaps(toks, swaps).len() == toks.len(),
        sc_fold(apply_swaps(toks, swaps), toks.len() as int).sc == sc_fold(
            toks,
            toks.len() as int,
        ).sc,
    decreases swaps.len(),
{
    if swaps.len() > 0 {
        let swapped = swap_adjacent(toks, swaps[0]);
        assert(swapped.len() == toks.len());
        lemma_sc_transposition(toks, swapped, swaps[0]);
        lemma_sc_permutation(swapped, swaps.drop_first());
    }
}

// ---------------------------------------------------------------------------
// Failed sub-parses land in `unparsed` too
// ---------------------------------------------------------------------------

/// A step that pushed its token leaves it verbatim in the final unparsed
/// list, at the position the earlier tokens left.
pub proof fn lemma_pc_pushed_at(toks: Seq<Seq<u8>>, j: int)
    requires
        0 <= j < toks.len(),
        pc_step(pc_fold(toks, j), j, toks[j]) == pc_push(pc_fold(toks, j), toks[j]),
    ensures
        0 <= pc_fold(toks, j).un.len() < pc_fold(toks, toks.len() as int).un.len(),
        pc_fold(toks, toks.len() as int).un[pc_fold(toks, j).un.len() as int] == toks[j],
{
    let n = toks.len() as int;
    assert(pc_fold(toks, j + 1) == pc_step(pc_fold(toks, j), j, toks[j]));
    lemma_pc_un_stable(toks, j + 1, n);
}

/// A step that pushed its token leaves it verbatim in the final unparsed
/// list, at the position the earlier tokens left.
pub proof fn lemma_sc_pushed_at(toks: Seq<Seq<u8>>, j: int)
    requires
        0 <= j < toks.len(),
        sc_step(sc_fold(toks, j), toks[j]) == sc_push(sc_fold(toks, j), toks[j]),
    ensures
        0 <= sc_fold(toks, j).un.len() < sc_fold(toks, toks.len() as int).un.len(),
        sc_fold(toks, toks.len() as int).un[sc_fold(toks, j).un.len() as int] == toks[j],
{
    let n = toks.len() as int;
    assert(sc_fold(toks, j + 1) == sc_step(sc_fold(toks, j), toks[j]));
    lemma_sc_un_stable(toks, j + 1, n);
}

/// Graceful degradation, second half, step form: a position token that
/// matches a rule's shape while the rule's field is still unset, but whose
/// numeric sub-parse fails, is pushed verbatim to `unparsed`.
#[verifier::rlimit(100)]
pub proof fn lemma_pc_step_malformed(st: PcState, i: int, t: Seq<u8>)
    ensures
        i == 0 && t.len() == 16 && st.pc.course is None && !csa_ok(t) ==> pc_step(st, i, t)
            == pc_push(st, t),
        i == 0 && t.len() == 9 && t[0] == 47 && t[1] == 65 && t[2] == 61 && st.pc.altitude is None
            && spec_parse_uint(t.skip(3), 0xFFFF_FFFFu32) is None ==> pc_step(st, i, t) == pc_push(
            st,
            t,
        ),
        i == 1 && t.len() == 5 && t[0] == 33 && t[1] == 87 && t[4] == 33
            && st.pc.additional_precision is None && !(is_digit(t[2]) && is_digit(t[3]))
            ==> pc_step(st, i, t) == pc_push(st, t),
        i >= 2 && id_shape(t) && st.pc.id is None && spec_id_of(t) is None ==> pc_step(st, i, t)
            == pc_push(st, t),
        i >= 2 && svu_split(t) is Some && is_unit_fpm(svu_unit(t)) && st.pc.climb_rate is None
            && spec_parse_i16(svu_value(t)) is None ==> pc_step(st, i, t) == pc_push(st, t),
        i >= 2 && svu_split(t) is Some && is_unit_rot(svu_unit(t)) && st.pc.turn_rate is None
            && spec_parse_decimal(svu_value(t)) is None ==> pc_step(st, i, t) == pc_push(st, t),
        i >= 2 && svu_split(t) is Some && is_unit_db(svu_unit(t)) && st.pc.signal_quality is None
            && spec_parse_decimal(svu_value(t)) is None ==> pc_step(st, i, t) == pc_push(st, t),
        i >= 2 && svu_split(t) is Some && is_unit_khz(svu_unit(t)) && st.pc.frequency_offset is None
            && spec_parse_decimal(svu_value(t)) is None ==> pc_step(st, i, t) == pc_push(st, t),
        i >= 2 && svu_split(t) is Some && is_unit_e(svu_unit(t)) && st.pc.error is None
            && spec_parse_uint(svu_value(t), 255) is None ==> pc_step(st, i, t) == pc_push(st, t),
        i >= 2 && svu_split(t) is Some && is_unit_dbm(svu_unit(t)) && st.pc.signal_power is None
            && spec_parse_decimal(svu_value(t)) is None ==> pc_step(st, i, t) == pc_push(st, t),
        i >= 2 && t.len() >= 6 && t[0] == 103 && t[1] == 112 && t[2] == 115
            && st.pc.gps_quality is None && !gps_ok(t) ==> pc_step(st, i, t) == pc_push(st, t),
        i >= 2 && t.len() >= 3 && t[0] == 70 && t[1] == 76 && st.pc.flight_level is None
            && spec_parse_decimal(t.skip(2)) is None ==> pc_step(st, i, t) == pc_push(st, t),
        i >= 2 && t.len() >= 2 && t[0] == 115 && st.pc.software_version is None
            && spec_parse_decimal(t.skip(1)) is None ==> pc_step(st, i, t) == pc_push(st, t),
        i >= 2 && t.len() == 3 && t[0] == 104 && st.pc.hardware_version is None
            && hw_of(t) is None ==> pc_step(st, i, t) == pc_push(st, t),
        i >= 2 && t.len() == 7 && t[0] == 114 && st.pc.original_address is None && spec_parse_hex(
            t.subrange(1, 7),
        ) is None ==> pc_step(st, i, t) == pc_push(st, t),
{
}

/// Graceful degradation, second half, stream form: a malformed match lands
/// verbatim in the final unparsed list; nothing is ever rejected.
#[verifier::rlimit(100)]
pub proof fn lemma_pc_malformed_to_unparsed(toks: Seq<Seq<u8>>, j: int)
    requires
        0 <= j < toks.len(),
    ensures
        j == 0 && toks[j].len() == 16 && pc_fold(toks, j).pc.course is None && !csa_ok(toks[j])
            ==> pc_fold(toks, toks.len() as int).un[pc_fold(toks, j).un.len() as int] == toks[j],
        j >= 2 && id_shape(toks[j]) && pc_fold(toks, j).pc.id is None && spec_id_of(
            toks[j],
        ) is None ==> pc_fold(toks, toks.len() as int).un[pc_fold(toks, j).un.len() as int]
            == toks[j],
        j >= 2 && svu_split(toks[j]) is Some && is_unit_fpm(svu_unit(toks[j])) && pc_fold(
            toks,
            j,
        ).pc.climb_rate is None && spec_parse_i16(svu_value(toks[j])) is None ==> pc_fold(
            toks,
            toks.len() as int,
        ).un[pc_fold(toks, j).un.len() as int] == toks[j],
        j >= 2 && toks[j].len() >= 6 && toks[j][0] == 103 && toks[j][1] == 112 && toks[j][2] == 115
            && pc_fold(toks, j).pc.gps_quality is None && !gps_ok(toks[j]) ==> pc_fold(
            toks,
            toks.len() as int,
        ).un[pc_fold(toks, j).un.len() as int] == toks[j],
        j == 0 && toks[j].len() == 9 && toks[j][0] == 47 && toks[j][1] == 65 && toks[j][2] == 61
            && pc_fold(toks, j).pc.altitude is None && spec_parse_uint(
            toks[j].skip(3),
            0xFFFF_FFFFu32,
        ) is None ==> pc_fold(toks, toks.len() as int).un[pc_fold(toks, j).un.len() as int]
            == toks[j],
        j == 1 && toks[j].len() == 5 && toks[j][0] == 33 && toks[j][1] == 87 && toks[j][4] == 33
            && pc_fold(toks, j).pc.additional_precision is None && !(is_digit(toks[j][2])
            && is_digit(toks[j][3])) ==> pc_fold(toks, toks.len() as int).un[pc_fold(
            toks,
            j,
        ).un.len() as int] == toks[j],
        j >= 2 && svu_split(toks[j]) is Some && is_unit_rot(svu_unit(toks[j])) && pc_fold(
            toks,
            j,
        ).pc.turn_rate is None && spec_parse_decimal(svu_value(toks[j])) is None ==> pc_fold(
            toks,
            toks.len() as int,
        ).un[pc_fold(toks, j).un.len() as int] == toks[j],
        j >= 2 && svu_split(toks[j]) is Some && is_unit_db(svu_unit(toks[j])) && pc_fold(
            toks,
            j,
        ).pc.signal_quality is None && spec_parse_decimal(svu_value(toks[j])) is None ==> pc_fold(
            toks,
            toks.len() as int,
        ).un[pc_fold(toks, j).un.len() as int] == toks[j],
        j >= 2 && svu_split(toks[j]) is Some && is_unit_khz(svu_unit(toks[j])) && pc_fold(
            toks,
            j,
        ).pc.frequency_offset is None && spec_parse_decimal(svu_value(toks[j])) is None
            ==> pc_fold(toks, toks.len() as int).un[pc_fold(toks, j).un.len() as int] == toks[j],
        j >= 2 && svu_split(toks[j]) is Some && is_unit_e(svu_unit(toks[j])) && pc_fold(
            toks,
            j,
        ).pc.error is None && spec_parse_uint(svu_value(toks[j]), 255) is None ==> pc_fold(
            toks,
            toks.len() as int,
        ).un[pc_fold(toks, j).un.len() as int] == toks[j],
        j >= 2 && svu_split(toks[j]) is Some && is_unit_dbm(svu_unit(toks[j])) && pc_fold(
            toks,
            j,
        ).pc.signal_power is None && spec_parse_decimal(svu_value(toks[j])) is None ==> pc_fold(
            toks,
            toks.len() as int,
        ).un[pc_fold(toks, j).un.len() as int] == toks[j],
        j >= 2 && toks[j].len() >= 3 && toks[j][0] == 70 && toks[j][1] == 76 && pc_fold(
            toks,
            j,
        ).pc.flight_level is None && spec_parse_decimal(toks[j].skip(2)) is None ==> pc_fold(
            toks,
            toks.len() as int,
        ).un[pc_fold(toks, j).un.len() as int] == toks[j],
        j >= 2 && toks[j].len() >= 2 && toks[j][0] == 115 && pc_fold(
            toks,
            j,
        ).pc.software_version is None && spec_parse_decimal(toks[j].skip(1)) is None ==> pc_fold(
            toks,
            toks.len() as int,
        ).un[pc_fold(toks, j).un.len() as int] == toks[j],
        j >= 2 && toks[j].len() == 3 && toks[j][0] == 104 && pc_fold(
            toks,
            j,
        ).pc.hardware_version is None && hw_of(toks[j]) is None ==> pc_fold(
            toks,
            toks.len() as int,
        ).un[pc_fold(toks, j).un.len() as int] == toks[j],
        j >= 2 && toks[j].len() == 7 && toks[j][0] == 114 && pc_fold(
            toks,
            j,
        ).pc.original_address is None && spec_parse_hex(toks[j].subrange(1, 7)) is None
            ==> pc_fold(toks, toks.len() as int).un[pc_fold(toks, j).un.len() as int] == toks[j],
{
    lemma_pc_step_malformed(pc_fold(toks, j), j, toks[j]);
    if pc_step(pc_fold(toks, j), j, toks[j]) == pc_push(pc_fold(toks, j), toks[j]) {
        lemma_pc_pushed_at(toks, j);
    }
}

/// Graceful degradation, second half, step form, for the status classifier.
#[verifier::rlimit(100)]
pub proof fn lemma_sc_step_malformed(st: ScState, t: Seq<u8>)
    ensures
        t.len() > 4 && t[0] == 67 && t[1] == 80 && t[2] == 85 && t[3] == 58
            && st.sc.cpu_load is None && spec_parse_decimal(t.skip(4)) is None ==> sc_step(st, t)
            == sc_push(st, t),
        t.len() > 6 && t[0] == 82 && t[1] == 65 && t[2] == 77 && t[3] == 58 && t[t.len() - 2] == 77
            && t[t.len() - 1] == 66 && slash_of(t) < t.len() && st.sc.ram_free is None && !ram_ok(
            t,
        ) ==> sc_step(st, t) == sc_push(st, t),
        t.len() > 6 && t[0] == 78 && t[1] == 84 && t[2] == 80 && t[3] == 58 && slash_of(t)
            < t.len() && st.sc.ntp_offset is None && !ntp_ok(t) ==> sc_step(st, t) == sc_push(
            st,
            t,
        ),
        t.len() >= 11 && acfts_suffix(t) && slash_of(t) < t.len() && st.sc.visible_senders is None
            && !acfts_ok(t) && !(t[0] == 118 && exactly_three_dots(t) && st.sc.version is None)
            && !(t[0] == 67 && t[1] == 80 && t[2] == 85 && t[3] == 58 && st.sc.cpu_load is None)
            && !(t[0] == 78 && t[1] == 84 && t[2] == 80 && t[3] == 58 && st.sc.ntp_offset is None)
            ==> sc_step(st, t) == sc_push(st, t),
        t.len() > 5 && t[0] == 76 && t[1] == 97 && t[2] == 116 && t[3] == 58 && t[t.len() - 1]
            == 115 && st.sc.latency is None && spec_parse_decimal(t.subrange(4, t.len() - 1))
            is None ==> sc_step(st, t) == sc_push(st, t),
        t.len() >= 11 && t[0] == 82 && t[1] == 70 && t[2] == 58
            && st.sc.rf_correction_manual is None && !sc_rf_ok(t) && !(acfts_suffix(t)
            && slash_of(t) < t.len() && st.sc.visible_senders is None) ==> sc_step(st, t)
            == sc_push(st, t),
        svu_split(t) is Some && is_unit_c(svu_unit(t)) && st.sc.cpu_temperature is None
            && spec_parse_decimal(svu_value(t)) is None ==> sc_step(st, t) == sc_push(st, t),
        svu_split(t) is Some && is_unit_v(svu_unit(t)) && st.sc.voltage is None
            && spec_parse_decimal(svu_value(t)) is None ==> sc_step(st, t) == sc_push(st, t),
        svu_split(t) is Some && is_unit_a(svu_unit(t)) && st.sc.amperage is None
            && spec_parse_decimal(svu_value(t)) is None ==> sc_step(st, t) == sc_push(st, t),
{
    if svu_split(t) is Some {
        let p = svu_p(t);
        assert(t.subrange(p, t.len() as int)[t.len() - 1 - p] == t[t.len() - 1]);
    }
}

/// A radio-frequency token whose extracted runs fit one of the three forms
/// and parse.
pub open spec fn sc_rf_ok(t: Seq<u8>) -> bool {
    (rf_vals(t).len() == 3 && rf_m(t) is Some && rf_a(t) is Some && rf_n(t) is Some) || (rf_vals(
        t,
    ).len() == 6 && rf_m(t) is Some && rf_a(t) is Some && rf_n(t) is Some && rf_q(t) is Some
        && rf_msg(t) is Some) || (rf_vals(t).len() == 10 && rf_m(t) is Some && rf_a(t) is Some
        && rf_n(t) is Some && rf_q(t) is Some && rf_msg(t) is Some && rf_gq(t) is Some && rf_gs(
        t,
    ) is Some && rf_gb(t) is Some)
}

/// Graceful degradation, second half, stream form, for the status
/// classifier.
#[verifier::rlimit(100)]
pub proof fn lemma_sc_malformed_to_unparsed(toks: Seq<Seq<u8>>, j: int)
    requires
        0 <= j < toks.len(),
    ensures
        toks[j].len() > 4 && toks[j][0] == 67 && toks[j][1] == 80 && toks[j][2] == 85 && toks[j][3]
            == 58 && sc_fold(toks, j).sc.cpu_load is None && spec_parse_decimal(
            toks[j].skip(4),
        ) is None ==> sc_fold(toks, toks.len() as int).un[sc_fold(toks, j).un.len() as int]
            == toks[j],
        svu_split(toks[j]) is Some && is_unit_v(svu_unit(toks[j])) && sc_fold(
            toks,
            j,
        ).sc.voltage is None && spec_parse_decimal(svu_value(toks[j])) is None ==> sc_fold(
            toks,
            toks.len() as int,
        ).un[sc_fold(toks, j).un.len() as int] == toks[j],
        toks[j].len() > 6 && toks[j][0] == 82 && toks[j][1] == 65 && toks[j][2] == 77 && toks[j][3]
            == 58 && toks[j][toks[j].len() - 2] == 77 && toks[j][toks[j].len() - 1] == 66
            && slash_of(toks[j]) < toks[j].len() && sc_fold(toks, j).sc.ram_free is None && !ram_ok(
            toks[j],
        ) ==> sc_fold(toks, toks.len() as int).un[sc_fold(toks, j).un.len() as int] == toks[j],
        toks[j].len() > 6 && toks[j][0] == 78 && toks[j][1] == 84 && toks[j][2] == 80 && toks[j][3]
            == 58 && slash_of(toks[j]) < toks[j].len() && sc_fold(toks, j).sc.ntp_offset is None
            && !ntp_ok(toks[j]) ==> sc_fold(toks, toks.len() as int).un[sc_fold(
            toks,
            j,
        ).un.len() as int] == toks[j],
        toks[j].len() >= 11 && acfts_suffix(toks[j]) && slash_of(toks[j]) < toks[j].len()
            && sc_fold(toks, j).sc.visible_senders is None && !acfts_ok(toks[j]) && !(toks[j][0]
            == 118 && exactly_three_dots(toks[j]) && sc_fold(toks, j).sc.version is None) && !(
        toks[j][0] == 67 && toks[j][1] == 80 && toks[j][2] == 85 && toks[j][3] == 58 && sc_fold(
            toks,
            j,
        ).sc.cpu_load is None) && !(toks[j][0] == 78 && toks[j][1] == 84 && toks[j][2] == 80
            && toks[j][3] == 58 && sc_fold(toks, j).sc.ntp_offset is None) ==> sc_fold(
            toks,
            toks.len() as int,
        ).un[sc_fold(toks, j).un.len() as int] == toks[j],
        toks[j].len() > 5 && toks[j][0] == 76 && toks[j][1] == 97 && toks[j][2] == 116 && toks[j][3]
            == 58 && toks[j][toks[j].len() - 1] == 115 && sc_fold(toks, j).sc.latency is None
            && spec_parse_decimal(toks[j].subrange(4, toks[j].len() - 1)) is None ==> sc_fold(
            toks,
            toks.len() as int,
        ).un[sc_fold(toks, j).un.len() as int] == toks[j],
        toks[j].len() >= 11 && toks[j][0] == 82 && toks[j][1] == 70 && toks[j][2] == 58 && sc_fold(
            toks,
            j,
        ).sc.rf_correction_manual is None && !sc_rf_ok(toks[j]) && !(acfts_suffix(toks[j])
            && slash_of(toks[j]) < toks[j].len() && sc_fold(toks, j).sc.visible_senders is None)
            ==> sc_fold(toks, toks.len() as int).un[sc_fold(toks, j).un.len() as int] == toks[j],
        svu_split(toks[j]) is Some && is_unit_c(svu_unit(toks[j])) && sc_fold(
            toks,
            j,
        ).sc.cpu_temperature is None && spec_parse_decimal(svu_value(toks[j])) is None ==> sc_fold(
            toks,
            toks.len() as int,
        ).un[sc_fold(toks, j).un.len() as int] == toks[j],
        svu_split(toks[j]) is Some && is_unit_a(svu_unit(toks[j])) && sc_fold(
            toks,
            j,
        ).sc.amperage is None && spec_parse_decimal(svu_value(toks[j])) is None ==> sc_fold(
            toks,
            toks.len() as int,
        ).un[sc_fold(toks, j).un.len() as int] == toks[j],
{
    lemma_sc_step_malformed(sc_fold(toks, j), toks[j]);
    if sc_step(sc_fold(toks, j), toks[j]) == sc_push(sc_fold(toks, j), toks[j]) {
        lemma_sc_pushed_at(toks, j);
    }
}


/// Each step either consumes its token into a typed field or pushes it,
/// whole, onto the unparsed list — there is no third outcome.
#[verifier::rlimit(100)]
pub proof fn lemma_pc_step_dichotomy(st: PcState, i: int, t: Seq<u8>)
    ensures
        pc_step(st, i, t).un == st.un || pc_step(st, i, t) == pc_push(st, t),
{
}

/// Each step either consumes its token into a typed field or pushes it,
/// whole, onto the unparsed list — there is no third outcome.
#[verifier::rlimit(100)]
pub proof fn lemma_sc_step_dichotomy(st: ScState, t: Seq<u8>)
    ensures
        sc_step(st, t).un == st.un || sc_step(st, t) == sc_push(st, t),
{
}

/// Whether the token at slot `j` was consumed by a rule rather than pushed.
#[verifier::opaque]
pub open spec fn pc_consumed(toks: Seq<Seq<u8>>, j: int) -> bool {
    pc_step(pc_fold(toks, j), j, toks[j]) != pc_push(pc_fold(toks, j), toks[j])
}

/// Whether the token at slot `j` was consumed by a rule rather than pushed.
#[verifier::opaque]
pub open spec fn sc_consumed(toks: Seq<Seq<u8>>, j: int) -> bool {
    sc_step(sc_fold(toks, j), toks[j]) != sc_push(sc_fold(toks, j), toks[j])
}

/// The unparsed list is empty exactly when every token was consumed by a
/// rule: the record's `unparsed` field is absent in just that case.
pub proof fn lemma_pc_unparsed_absent_iff(toks: Seq<Seq<u8>>, n: int)
    requires
        0 <= n <= toks.len(),
    ensures
        pc_fold(toks, n).un.len() == 0 <==> (forall|j: int| 0 <= j < n ==> pc_consumed(toks, j)),
    decreases n,
{
    if n > 0 {
        lemma_pc_unparsed_absent_iff(toks, n - 1);
        lemma_pc_step_dichotomy(pc_fold(toks, n - 1), n - 1, toks[n - 1]);
        assert(pc_consumed(toks, n - 1) == (pc_step(pc_fold(toks, n - 1), n - 1, toks[n - 1])
            != pc_push(pc_fold(toks, n - 1), toks[n - 1]))) by {
            reveal(pc_consumed);
        }
        if pc_consumed(toks, n - 1) {
            assert(pc_fold(toks, n).un == pc_fold(toks, n - 1).un);
        } else {
            assert(pc_fold(toks, n).un.len() == pc_fold(toks, n - 1).un.len() + 1);
        }
    }
}

/// The unparsed list is empty exactly when every token was consumed by a
/// rule: the record's `unparsed` field is absent in just that case.
pub proof fn lemma_sc_unparsed_absent_iff(toks: Seq<Seq<u8>>, n: int)
    requires
        0 <= n <= toks.len(),
    ensures
        sc_fold(toks, n).un.len() == 0 <==> (forall|j: int| 0 <= j < n ==> sc_consumed(toks, j)),
    decreases n,
{
    if n > 0 {
        lemma_sc_unparsed_absent_iff(toks, n - 1);
        lemma_sc_step_dichotomy(sc_fold(toks, n - 1), toks[n - 1]);
        assert(sc_consumed(toks, n - 1) == (sc_step(sc_fold(toks, n - 1), toks[n - 1]) != sc_push(
            sc_fold(toks, n - 1),
            toks[n - 1],
        ))) by {
            reveal(sc_consumed);
        }
        if sc_consumed(toks, n - 1) {
            assert(sc_fold(toks, n).un == sc_fold(toks, n - 1).un);
        } else {
            assert(sc_fold(toks, n).un.len() == sc_fold(toks, n - 1).un.len() + 1);
        }
    }
}

// ---------------------------------------------------------------------------
// Order independence under the no-competition premise
// ---------------------------------------------------------------------------

/// No two distinct tokens compete for the same position rule.
pub open spec fn pc_distinct_rules(toks: Seq<Seq<u8>>) -> bool {
    forall|i: int, k: int|
        0 <= i < toks.len() && 0 <= k < toks.len() && i != k ==> !pc_same_rule(
            #[trigger] toks[i],
            #[trigger] toks[k],
        )
}

/// No two distinct tokens compete for the same status rule.
pub open spec fn sc_distinct_rules(toks: Seq<Seq<u8>>) -> bool {
    forall|i: int, k: int|
        0 <= i < toks.len() && 0 <= k < toks.len() && i != k ==> !sc_same_rule(
            #[trigger] toks[i],
            #[trigger] toks[k],
        )
}

/// Every swap index stays at or above `lo` and inside the stream.
pub open spec fn swaps_in_range(len: int, swaps: Seq<int>, lo: int) -> bool {
    forall|m: int| 0 <= m < swaps.len() ==> lo <= #[trigger] swaps[m] && swaps[m] + 1 < len
}

proof fn lemma_pc_distinct_swap(toks: Seq<Seq<u8>>, j: int)
    requires
        0 <= j,
        j + 1 < toks.len(),
        pc_distinct_rules(toks),
    ensures
        pc_distinct_rules(swap_adjacent(toks, j)),
{
    let sw = swap_adjacent(toks, j);
    assert forall|i: int, k: int|
        0 <= i < sw.len() && 0 <= k < sw.len() && i != k implies !pc_same_rule(
        #[trigger] sw[i],
        #[trigger] sw[k],
    ) by {
        let a: int = if i == j {
            j + 1
        } else if i == j + 1 {
            j
        } else {
            i
        };
        let b: int = if k == j {
            j + 1
        } else if k == j + 1 {
            j
        } else {
            k
        };
        assert(sw[i] == toks[a]);
        assert(sw[k] == toks[b]);
        assert(a != b);
    }
}

proof fn lemma_sc_distinct_swap(toks: Seq<Seq<u8>>, j: int)
    requires
        0 <= j,
        j + 1 < toks.len(),
        sc_distinct_rules(toks),
    ensures
        sc_distinct_rules(swap_adjacent(toks, j)),
{
    let sw = swap_adjacent(toks, j);
    assert forall|i: int, k: int|
        0 <= i < sw.len() && 0 <= k < sw.len() && i != k implies !sc_same_rule(
        #[trigger] sw[i],
        #[trigger] sw[k],
    ) by {
        let a: int = if i == j {
            j + 1
        } else if i == j + 1 {
            j
        } else {
            i
        };
        let b: int = if k == j {
            j + 1
        } else if k == j + 1 {
            j
        } else {
            k
        };
        assert(sw[i] == toks[a]);
        assert(sw[k] == toks[b]);
        assert(a != b);
    }
}

/// When no two tokens compete, every in-range chain of swaps is admissible.
pub proof fn lemma_pc_swaps_admissible_when_distinct(toks: Seq<Seq<u8>>, swaps: Seq<int>)
    requires
        pc_distinct_rules(toks),
        swaps_in_range(toks.len() as int, swaps, 2),
    ensures
        pc_swaps_admissible(toks, swaps),
    decreases swaps.len(),
{
    if swaps.len() > 0 {
        let swapped = swap_adjacent(toks, swaps[0]);
        lemma_pc_distinct_swap(toks, swaps[0]);
        assert forall|m: int| 0 <= m < swaps.drop_first().len() implies 2
            <= #[trigger] swaps.drop_first()[m] && swaps.drop_first()[m] + 1
            < swapped.len() by {
            assert(swaps.drop_first()[m] == swaps[m + 1]);
        }
        lemma_pc_swaps_admissible_when_distinct(swapped, swaps.drop_first());
    }
}

/// When no two tokens compete, every in-range chain of swaps is admissible.
pub proof fn lemma_sc_swaps_admissible_when_distinct(toks: Seq<Seq<u8>>, swaps: Seq<int>)
    requires
        sc_distinct_rules(toks),
        swaps_in_range(toks.len() as int, swaps, 0),
    ensures
        sc_swaps_admissible(toks, swaps),
    decreases swaps.len(),
{
    if swaps.len() > 0 {
        let swapped = swap_adjacent(toks, swaps[0]);
        lemma_sc_distinct_swap(toks, swaps[0]);
        assert forall|m: int| 0 <= m < swaps.drop_first().len() implies 0
            <= #[trigger] swaps.drop_first()[m] && swaps.drop_first()[m] + 1
            < swapped.len() by {
            assert(swaps.drop_first()[m] == swaps[m + 1]);
        }
        lemma_sc_swaps_admissible_when_distinct(swapped, swaps.drop_first());
    }
}

/// Order independence, entry form: when no two tokens of a position comment
/// compete for the same rule, any reordering of the tokens past the two
/// positional slots — every such reordering is a chain of in-range adjacent
/// swaps — classifies to exactly the same typed fields.
pub proof fn lemma_pc_order_independent(toks: Seq<Seq<u8>>, swaps: Seq<int>)
    requires
        pc_distinct_rules(toks),
        swaps_in_range(toks.len() as int, swaps, 2),
    ensures
        pc_fold(apply_swaps(toks, swaps), toks.len() as int).pc == pc_fold(
            toks,
            toks.len() as int,
        ).pc,
{
    lemma_pc_swaps_admissible_when_distinct(toks, swaps);
    lemma_pc_permutation(toks, swaps);
}

/// Order independence, entry form, for the status classifier: when no two
/// tokens compete for the same rule, any reordering of the tokens — every
/// reordering is a chain of adjacent swaps — classifies to exactly the same
/// typed fields.
pub proof fn lemma_sc_order_independent(toks: Seq<Seq<u8>>, swaps: Seq<int>)
    requires
        sc_distinct_rules(toks),
        swaps_in_range(toks.len() as int, swaps, 0),
    ensures
        sc_fold(apply_swaps(toks, swaps), toks.len() as int).sc == sc_fold(
            toks,
            toks.len() as int,
        ).sc,
{
    lemma_sc_swaps_admissible_when_distinct(toks, swaps);
    lemma_sc_permutation(toks, swaps);
}

} // verus!