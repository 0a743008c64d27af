//! A whole packet line, `source>destination,path:payload`. The header and
//! payload envelope are handed to the `aprs_parser` crate; the OGN comment
//! fields of a position or status payload are then decoded here.

use vstd::prelude::*;
use crate::lex::slice_to_vec_u8;
use crate::position_comment::{PositionComment, spec_position_comment};
use crate::status_comment::{StatusComment, spec_status_comment};

verus! {

#[verifier::external_type_specification]
#[verifier::external_body]
pub struct ExAprsPacket(aprs_parser::AprsPacket);

#[verifier::external_type_specification]
#[verifier::external_body]
pub struct ExDecodeError(aprs_parser::DecodeError);

/// What a decoded packet carries for the comment classifiers: the comment
/// bytes of a position or status payload, nothing for the other payload
/// kinds, and `Undecodable` where the line is no packet at all.
pub enum PacketPayload {
    Position(Vec<u8>),
    Status(Vec<u8>),
    Other,
    Undecodable,
}

/// The mathematical shadow of `PacketPayload`.
#[verifier::ext_equal]
pub enum PayloadView {
    Position(Seq<u8>),
    Status(Seq<u8>),
    Other,
    Undecodable,
}

impl View for PacketPayload {
    type V = PayloadView;

    open spec fn view(&self) -> PayloadView {
        match self {
            PacketPayload::Position(c) => PayloadView::Position(c@),
            PacketPayload::Status(c) => PayloadView::Status(c@),
            PacketPayload::Other => PayloadView::Other,
            PacketPayload::Undecodable => PayloadView::Undecodable,
        }
    }
}

/// The payload a packet line decodes to. The decode depends on the line
/// alone, so its outcome carries a name the contracts below speak of.
pub uninterp spec fn payload_of(s: Seq<u8>) -> PayloadView;

/// Relies on aprs_parser::AprsPacket::decode_textual, which parses the
/// callsign header and the payload envelope of a full packet line and fails
/// exactly on lines that are no packet, and on the aprs_parser::AprsData
/// variants: each arm only moves the payload's comment bytes out.
#[verifier::external_body]
fn decode_packet(s: &[u8]) -> (r: (
    Result<aprs_parser::AprsPacket, aprs_parser::DecodeError>,
    PacketPayload,
))
    ensures
        r.1@ == payload_of(s@),
        r.0 is Err <==> payload_of(s@) is Undecodable,
{
    let p = aprs_parser::AprsPacket::decode_textual(s);
    let pl = match &p {
        Ok(pk) => match &pk.data {
            aprs_parser::AprsData::Position(x) => PacketPayload::Position(x.comment.clone()),
            aprs_parser::AprsData::Status(x) => PacketPayload::Status(x.comment().to_vec()),
            aprs_parser::AprsData::Message(_) => PacketPayload::Other,
            aprs_parser::AprsData::MicE(_) => PacketPayload::Other,
            aprs_parser::AprsData::Unknown(_) => PacketPayload::Other,
        },
        Err(_) => PacketPayload::Undecodable,
    };
    (p, pl)
}

/// The comment fields decoded from a payload: position comments for a
/// position payload, status comments for a status payload, none otherwise.
pub fn comments_of_payload(pl: &PacketPayload) -> (r: (
    Option<PositionComment>,
    Option<StatusComment>,
))
    ensures
        match pl {
            PacketPayload::Position(c) => (r.0 matches Some(pc) && pc@ == spec_position_comment(
                c@,
            )) && r.1 is None,
            PacketPayload::Status(c) => r.0 is None && (r.1 matches Some(sc) && sc@
                == spec_status_comment(c@)),
            PacketPayload::Other => r.0 is None && r.1 is None,
            PacketPayload::Undecodable => r.0 is None && r.1 is None,
        },
{
    match pl {
        PacketPayload::Position(c) => (Some(PositionComment::from_str(c.as_slice())), None),
        PacketPayload::Status(c) => (None, Some(StatusComment::from_str(c.as_slice()))),
        PacketPayload::Other => (None, None),
        PacketPayload::Undecodable => (None, None),
    }
}

/// A packet line with its decoded OGN comment fields. The packet itself is
/// kept as the outside crate returned it.
pub struct Message {
    pub raw_string: Vec<u8>,
    pub aprs_packet: Result<aprs_parser::AprsPacket, aprs_parser::DecodeError>,
    pub position_comment: Option<PositionComment>,
    pub status_comment: Option<StatusComment>,
}

impl Message {
    /// Decodes a full packet line. This never fails: an undecodable packet is
    /// kept as its error, with no comment fields; a position or status
    /// payload always carries its classified comment.
    pub fn from_str(s: &[u8]) -> (r: Message)
        ensures
            r.raw_string@ == s@,
            payload_of(s@) matches PayloadView::Position(c) ==> (r.position_comment matches Some(
                pc,
            ) && pc@ == spec_position_comment(c)) && r.status_comment is None,
            payload_of(s@) matches PayloadView::Status(c) ==> r.position_comment is None && (
            r.status_comment matches Some(sc) && sc@ == spec_status_comment(c)),
            payload_of(s@) is Other ==> r.position_comment is None && r.status_comment is None,
            payload_of(s@) is Undecodable ==> r.position_comment is None
                && r.status_comment is None,
            r.aprs_packet is Err <==> payload_of(s@) is Undecodable,
    {
        let (packet, pl) = decode_packet(s);
        let (position_comment, status_comment) = comments_of_payload(&pl);
        Message {
            raw_string: slice_to_vec_u8(s),
            aprs_packet: packet,
            position_comment,
            status_comment,
        }
    }
}

} // verus!
