//! The status-report envelope: a mandatory seven-character timestamp, then
//! the receiver-health comment fields, flattened into the record as the
//! callers expect them.

use vstd::prelude::*;
use crate::decimal::Decimal;
use crate::error::{AprsError, AprsErrorView};
use crate::lex::slice_to_vec_u8;
use crate::status_comment::{StatusComment, StatusCommentView, spec_status_comment};
use crate::timestamp::{Timestamp, timestamp_wf, spec_parse_timestamp};

verus! {

/// A decoded status report: the timestamp and the comment fields, flat.
#[derive(Debug, PartialEq, Clone)]
pub struct AprsStatus {
    pub timestamp: Timestamp,
    pub version: Option<Vec<u8>>,
    pub platform: Option<Vec<u8>>,
    pub cpu_load: Option<Decimal>,
    pub ram_free: Option<Decimal>,
    pub ram_total: Option<Decimal>,
    pub ntp_offset: Option<Decimal>,
    pub ntp_correction: Option<Decimal>,
    pub voltage: Option<Decimal>,
    pub amperage: Option<Decimal>,
    pub cpu_temperature: Option<Decimal>,
    pub visible_senders: Option<u16>,
    pub latency: Option<Decimal>,
    pub senders: Option<u16>,
    pub rf_correction_manual: Option<i16>,
    pub rf_correction_automatic: Option<Decimal>,
    pub noise: Option<Decimal>,
    pub senders_signal_quality: Option<Decimal>,
    pub senders_messages: Option<u32>,
    pub good_senders_signal_quality: Option<Decimal>,
    pub good_senders: Option<u16>,
    pub good_and_bad_senders: Option<u16>,
    pub unparsed: Option<Vec<u8>>,
}

/// The mathematical shadow of `AprsStatus`: the timestamp, and the comment
/// fields gathered back into a comment view.
#[verifier::ext_equal]
pub struct AprsStatusView {
    pub timestamp: Timestamp,
    pub comment: StatusCommentView,
}

pub open spec fn status_opt_bytes(o: Option<Vec<u8>>) -> Option<Seq<u8>> {
    match o {
        Some(v) => Some(v@),
        None => None,
    }
}

impl View for AprsStatus {
    type V = AprsStatusView;

    open spec fn view(&self) -> AprsStatusView {
        AprsStatusView {
            timestamp: self.timestamp,
            comment: StatusCommentView {
                version: status_opt_bytes(self.version),
                platform: status_opt_bytes(self.platform),
                cpu_load: self.cpu_load,
                ram_free: self.ram_free,
                ram_total: self.ram_total,
                ntp_offset: self.ntp_offset,
                ntp_correction: self.ntp_correction,
                voltage: self.voltage,
                amperage: self.amperage,
                cpu_temperature: self.cpu_temperature,
                visible_senders: self.visible_senders,
                latency: self.latency,
                senders: self.senders,
                rf_correction_manual: self.rf_correction_manual,
                rf_correction_automatic: self.rf_correction_automatic,
                noise: self.noise,
                senders_signal_quality: self.senders_signal_quality,
                senders_messages: self.senders_messages,
                good_senders_signal_quality: self.good_senders_signal_quality,
                good_senders: self.good_senders,
                good_and_bad_senders: self.good_and_bad_senders,
                unparsed: status_opt_bytes(self.unparsed),
            },
        }
    }
}

/// The status envelope contract: the first seven characters are a mandatory
/// timestamp, the rest is the comment; a short line or bad timestamp fails
/// with the whole line as the offending text.
pub open spec fn spec_parse_status(s: Seq<u8>) -> Result<AprsStatusView, AprsErrorView> {
    if s.len() >= 7 && spec_parse_timestamp(s.take(7)) is Some {
        Ok(
            AprsStatusView {
                timestamp: spec_parse_timestamp(s.take(7))->Some_0,
                comment: spec_status_comment(s.skip(7)),
            },
        )
    } else {
        Err(AprsErrorView::InvalidTimestamp(s))
    }
}

impl AprsStatus {
    /// Parses a status line, the text after the `>` marker.
    pub fn from_str(s: &[u8]) -> (r: Result<AprsStatus, AprsError>)
        ensures
            match r {
                Ok(st) => spec_parse_status(s@) == Ok::<AprsStatusView, AprsErrorView>(st@)
                    && timestamp_wf(st.timestamp),
                Err(e) => spec_parse_status(s@) == Err::<AprsStatusView, AprsErrorView>(e@),
            },
    {
        if s.len() < 7 {
            return Err(AprsError::InvalidTimestamp(slice_to_vec_u8(s)));
        }
        let ts = match Timestamp::parse(&s[0..7]) {
            Some(t) => t,
            None => {
                proof {
                    assert(s@.subrange(0, 7) =~= s@.take(7));
                }
                return Err(AprsError::InvalidTimestamp(slice_to_vec_u8(s)));
            },
        };
        proof {
            assert(s@.subrange(0, 7) =~= s@.take(7));
            assert(s@.subrange(7, s@.len() as int) =~= s@.skip(7));
        }
        let c = StatusComment::from_str(&s[7..s.len()]);
        let st = AprsStatus {
            timestamp: ts,
            version: c.version,
            platform: c.platform,
            cpu_load: c.cpu_load,
            ram_free: c.ram_free,
            ram_total: c.ram_total,
            ntp_offset: c.ntp_offset,
            ntp_correction: c.ntp_correction,
            voltage: c.voltage,
            amperage: c.amperage,
            cpu_temperature: c.cpu_temperature,
            visible_senders: c.visible_senders,
            latency: c.latency,
            senders: c.senders,
            rf_correction_manual: c.rf_correction_manual,
            rf_correction_automatic: c.rf_correction_automatic,
            noise: c.noise,
            senders_signal_quality: c.senders_signal_quality,
            senders_messages: c.senders_messages,
            good_senders_signal_quality: c.good_senders_signal_quality,
            good_senders: c.good_senders,
            good_and_bad_senders: c.good_and_bad_senders,
            unparsed: c.unparsed,
        };
        proof {
            assert(st@.comment =~~= spec_status_comment(s@.skip(7)));
        }
        Ok(st)
    }

    /// Renders the marker and timestamp. The source format defines no
    /// re-encoding for the status comment fields, so none is produced.
    pub fn encode(&self) -> (r: Vec<u8>)
        requires
            timestamp_wf(self.timestamp),
        ensures
            r@ == seq![62u8] + crate::timestamp::spec_encode_timestamp(self.timestamp),
    {
        let mut out: Vec<u8> = Vec::new();
        out.push(62);
        let mut tv = self.timestamp.encode();
        out.append(&mut tv);
        proof {
            assert(out@ =~= seq![62u8] + crate::timestamp::spec_encode_timestamp(self.timestamp));
        }
        out
    }
}

} // verus!
