//! The position-report envelope: dispatch on the leading marker, fixed-offset
//! slicing of timestamp, coordinates and symbols, and the re-encoder.

use vstd::prelude::*;
use crate::error::{AprsError, AprsErrorView};
use crate::lex::{is_digit, slice_to_vec_u8};
use crate::lonlat::{
    Latitude, Longitude, lat_wf, lon_wf, spec_parse_lat, spec_parse_lon, spec_encode_lat,
    spec_encode_lon, round10, abs_of,
};
use crate::position_comment::{
    PositionComment, PositionCommentView, spec_position_comment, pc_finalize, pc_init,
    lemma_pc_fold_ap,
};
use crate::timestamp::{
    Timestamp, timestamp_wf, spec_parse_timestamp, spec_encode_timestamp,
    lemma_timestamp_round_trip,
};

verus! {

/// A decoded position report.
#[derive(Debug, PartialEq, Clone)]
pub struct AprsPosition {
    pub timestamp: Option<Timestamp>,
    pub messaging_supported: bool,
    pub latitude: Latitude,
    pub longitude: Longitude,
    pub symbol_table: u8,
    pub symbol_code: u8,
    pub comment: PositionComment,
}

/// The mathematical shadow of `AprsPosition`.
#[verifier::ext_equal]
pub struct AprsPositionView {
    pub timestamp: Option<Timestamp>,
    pub messaging_supported: bool,
    pub latitude: Latitude,
    pub longitude: Longitude,
    pub symbol_table: u8,
    pub symbol_code: u8,
    pub comment: PositionCommentView,
}

impl View for AprsPosition {
    type V = AprsPositionView;

    open spec fn view(&self) -> AprsPositionView {
        AprsPositionView {
            timestamp: self.timestamp,
            messaging_supported: self.messaging_supported,
            latitude: self.latitude,
            longitude: self.longitude,
            symbol_table: self.symbol_table,
            symbol_code: self.symbol_code,
            comment: self.comment@,
        }
    }
}

/// `@` and `/` carry a timestamp.
pub open spec fn pos_has_ts(s: Seq<u8>) -> bool {
    s.len() >= 1 && (s[0] == 64 || s[0] == 47)
}

/// `=` and `@` are messaging-capable.
pub open spec fn pos_msg(s: Seq<u8>) -> bool {
    s.len() >= 1 && (s[0] == 61 || s[0] == 64)
}

/// The four position markers.
pub open spec fn pos_marker_ok(s: Seq<u8>) -> bool {
    s.len() >= 1 && (s[0] == 33 || s[0] == 61 || s[0] == 47 || s[0] == 64)
}

/// The text after the marker and the optional seven-character timestamp.
pub open spec fn pos_body(s: Seq<u8>) -> Seq<u8> {
    if pos_has_ts(s) {
        s.skip(8)
    } else {
        s.skip(1)
    }
}

/// The comment fields of a position line.
pub open spec fn pos_comment(s: Seq<u8>) -> PositionCommentView {
    spec_position_comment(pos_body(s).skip(19))
}

pub open spec fn pos_ap_lat(s: Seq<u8>) -> int {
    match pos_comment(s).additional_precision {
        Some(ap) => ap.lat as int,
        None => 0,
    }
}

pub open spec fn pos_ap_lon(s: Seq<u8>) -> int {
    match pos_comment(s).additional_precision {
        Some(ap) => ap.lon as int,
        None => 0,
    }
}

/// The latitude with the additional-precision correction applied.
pub open spec fn pos_lat_raw(s: Seq<u8>) -> int {
    spec_parse_lat(pos_body(s).subrange(0, 8))->Some_0 + pos_ap_lat(s)
}

/// The longitude with the additional-precision correction applied.
pub open spec fn pos_lon_raw(s: Seq<u8>) -> int {
    spec_parse_lon(pos_body(s).subrange(9, 18))->Some_0 + pos_ap_lon(s)
}

/// The envelope contract: marker dispatch, minimum lengths of 19 and 26,
/// fixed-offset coordinate and symbol slicing, comment classification, and
/// each distinct failure with the text that caused it.
pub open spec fn spec_parse_position(s: Seq<u8>) -> Result<AprsPositionView, AprsErrorView> {
    if !pos_marker_ok(s) {
        Err(AprsErrorView::InvalidPosition(s))
    } else if (!pos_has_ts(s) && s.len() < 19) || (pos_has_ts(s) && s.len() < 26) {
        Err(AprsErrorView::InvalidPosition(s))
    } else if pos_has_ts(s) && spec_parse_timestamp(s.subrange(1, 8)) is None {
        Err(AprsErrorView::InvalidTimestamp(s.subrange(1, 8)))
    } else if !is_digit(pos_body(s)[0]) {
        Err(AprsErrorView::UnsupportedPositionFormat(pos_body(s)))
    } else if spec_parse_lat(pos_body(s).subrange(0, 8)) is None {
        Err(AprsErrorView::InvalidPosition(pos_body(s).subrange(0, 8)))
    } else if spec_parse_lon(pos_body(s).subrange(9, 18)) is None {
        Err(AprsErrorView::InvalidPosition(pos_body(s).subrange(9, 18)))
    } else if pos_body(s).len() < 19 {
        Err(AprsErrorView::InvalidPosition(s))
    } else {
        Ok(
            AprsPositionView {
                timestamp: if pos_has_ts(s) {
                    Some(spec_parse_timestamp(s.subrange(1, 8))->Some_0)
                } else {
                    None
                },
                messaging_supported: pos_msg(s),
                latitude: Latitude { raw: pos_lat_raw(s) as i32 },
                longitude: Longitude { raw: pos_lon_raw(s) as i32 },
                symbol_table: pos_body(s)[8],
                symbol_code: pos_body(s)[18],
                comment: pos_comment(s),
            },
        )
    }
}

/// The marker chosen from the timestamp and messaging flags.
pub open spec fn pos_marker_of(p: AprsPositionView) -> u8 {
    if p.timestamp is Some {
        if p.messaging_supported {
            64
        } else {
            47
        }
    } else {
        if p.messaging_supported {
            61
        } else {
            33
        }
    }
}

/// A position record whose fields the wire format can carry.
pub open spec fn position_wf(p: AprsPositionView) -> bool {
    (match p.timestamp {
        Some(t) => timestamp_wf(t),
        None => true,
    }) && lat_wf(p.latitude.raw as int) && lon_wf(p.longitude.raw as int)
}

/// The re-encoded envelope: marker, optional timestamp, latitude, symbol
/// table, longitude, symbol code. The comment fields are not re-encoded.
pub open spec fn spec_encode_position(p: AprsPositionView) -> Seq<u8> {
    seq![pos_marker_of(p)] + (match p.timestamp {
        Some(t) => spec_encode_timestamp(t),
        None => Seq::empty(),
    }) + spec_encode_lat(p.latitude.raw as int) + seq![p.symbol_table] + spec_encode_lon(
        p.longitude.raw as int,
    ) + seq![p.symbol_code]
}

impl AprsPosition {
    /// Parses a position line, marker included.
    pub fn from_str(s: &[u8]) -> (r: Result<AprsPosition, AprsError>)
        ensures
            match r {
                Ok(p) => spec_parse_position(s@) == Ok::<AprsPositionView, AprsErrorView>(p@)
                    && lat_wf(p.latitude.raw as int) && lon_wf(p.longitude.raw as int) && (match p
                    .timestamp {
                    Some(t) => timestamp_wf(t),
                    None => true,
                }),
                Err(e) => spec_parse_position(s@) == Err::<AprsPositionView, AprsErrorView>(e@),
            },
    {
        if s.len() < 1 {
            return Err(AprsError::InvalidPosition(slice_to_vec_u8(s)));
        }
        let m = s[0];
        if !(m == 33 || m == 61 || m == 47 || m == 64) {
            return Err(AprsError::InvalidPosition(slice_to_vec_u8(s)));
        }
        let has_ts = m == 64 || m == 47;
        if (!has_ts && s.len() < 19) || (has_ts && s.len() < 26) {
            return Err(AprsError::InvalidPosition(slice_to_vec_u8(s)));
        }
        let timestamp: Option<Timestamp> = if has_ts {
            match Timestamp::parse(&s[1..8]) {
                Some(t) => Some(t),
                None => {
                    return Err(AprsError::InvalidTimestamp(slice_to_vec_u8(&s[1..8])));
                },
            }
        } else {
            None
        };
        let body: &[u8] = if has_ts {
            &s[8..s.len()]
        } else {
            &s[1..s.len()]
        };
        proof {
            assert(body@ =~= pos_body(s@));
        }
        if !(48 <= body[0] && body[0] <= 57) {
            return Err(AprsError::UnsupportedPositionFormat(slice_to_vec_u8(body)));
        }
        let lat0 = match Latitude::parse(&body[0..8]) {
            Some(l) => l,
            None => {
                return Err(AprsError::InvalidPosition(slice_to_vec_u8(&body[0..8])));
            },
        };
        let lon0 = match Longitude::parse(&body[9..18]) {
            Some(l) => l,
            None => {
                return Err(AprsError::InvalidPosition(slice_to_vec_u8(&body[9..18])));
            },
        };
        if body.len() < 19 {
            return Err(AprsError::InvalidPosition(slice_to_vec_u8(s)));
        }
        let symbol_table = body[8];
        let symbol_code = body[18];
        let comment = PositionComment::from_str(&body[19..body.len()]);
        proof {
            assert(body@.subrange(19, body@.len() as int) =~= pos_body(s@).skip(19));
            lemma_pc_fold_ap(
                crate::lex::spec_tokens(pos_body(s@).skip(19)),
                crate::lex::spec_tokens(pos_body(s@).skip(19)).len() as int,
            );
        }
        let (latitude, longitude) = match &comment.additional_precision {
            Some(ap) => (lat0.with_precision(ap.lat), lon0.with_precision(ap.lon)),
            None => (lat0, lon0),
        };
        let p = AprsPosition {
            timestamp,
            messaging_supported: m == 61 || m == 64,
            latitude,
            longitude,
            symbol_table,
            symbol_code,
            comment,
        };
        proof {
            assert(spec_parse_position(s@) == Ok::<AprsPositionView, AprsErrorView>(p@));
        }
        Ok(p)
    }

    /// Renders the envelope back to wire text: marker, timestamp when
    /// present, latitude, symbol table, longitude, symbol code.
    pub fn encode(&self) -> (r: Vec<u8>)
        requires
            position_wf(self@),
        ensures
            r@ == spec_encode_position(self@),
    {
        let mut out: Vec<u8> = Vec::new();
        out.push(
            if self.timestamp.is_some() {
                if self.messaging_supported {
                    64
                } else {
                    47
                }
            } else {
                if self.messaging_supported {
                    61
                } else {
                    33
                }
            },
        );
        match &self.timestamp {
            Some(t) => {
                let mut tv = t.encode();
                out.append(&mut tv);
            },
            None => {},
        }
        let mut la = self.latitude.encode();
        out.append(&mut la);
        out.push(self.symbol_table);
        let mut lo = self.longitude.encode();
        out.append(&mut lo);
        out.push(self.symbol_code);
        proof {
            assert(out@ =~= spec_encode_position(self@));
        }
        out
    }
}

/// Round trip: re-encoding a well-formed position record and parsing the
/// result succeeds and gives back the same timestamp, messaging flag and
/// symbols; the coordinates come back rounded to the hundredth of a minute
/// the text carries, so exactly when no sub-hundredth remainder is present
/// and within five thousandths of a minute (half the text's resolution)
/// always. The bounds leave out the values within half a hundredth of the
/// pole or the antimeridian, where rounding would leave the coordinate
/// range. The comment fields of the re-parse are empty, since comment text
/// is not re-encoded.
pub proof fn lemma_position_round_trip(p: AprsPositionView)
    requires
        position_wf(p),
        -5400004 <= p.latitude.raw <= 5400004,
        -10800004 <= p.longitude.raw <= 10800004,
    ensures
        spec_parse_position(spec_encode_position(p)) is Ok,
        spec_parse_position(spec_encode_position(p))->Ok_0.timestamp == p.timestamp,
        spec_parse_position(spec_encode_position(p))->Ok_0.messaging_supported
            == p.messaging_supported,
        spec_parse_position(spec_encode_position(p))->Ok_0.symbol_table == p.symbol_table,
        spec_parse_position(spec_encode_position(p))->Ok_0.symbol_code == p.symbol_code,
        spec_parse_position(spec_encode_position(p))->Ok_0.latitude.raw as int == round10(
            p.latitude.raw as int,
        ),
        spec_parse_position(spec_encode_position(p))->Ok_0.longitude.raw as int == round10(
            p.longitude.raw as int,
        ),
        abs_of(round10(p.latitude.raw as int) - p.latitude.raw as int) <= 5,
        abs_of(round10(p.longitude.raw as int) - p.longitude.raw as int) <= 5,
        p.latitude.raw as int % 10 == 0 ==> spec_parse_position(
            spec_encode_position(p),
        )->Ok_0.latitude == p.latitude,
        p.longitude.raw as int % 10 == 0 ==> spec_parse_position(
            spec_encode_position(p),
        )->Ok_0.longitude == p.longitude,
        spec_parse_position(spec_encode_position(p))->Ok_0.comment == spec_position_comment(
            Seq::<u8>::empty(),
        ),
{
    let s = spec_encode_position(p);
    let vlat = p.latitude.raw as int;
    let vlon = p.longitude.raw as int;
    crate::lonlat::lemma_lat_round_trip(vlat);
    crate::lonlat::lemma_lon_round_trip(vlon);
    assert(spec_encode_lat(vlat).len() == 8);
    assert(spec_encode_lon(vlon).len() == 9);
    match p.timestamp {
        Some(t) => {
            lemma_timestamp_round_trip(t);
            assert(spec_encode_timestamp(t).len() == 7);
            assert(s.len() == 27);
            assert(s[0] == pos_marker_of(p));
            assert(pos_has_ts(s));
            assert(pos_msg(s) == p.messaging_supported);
            assert(s.subrange(1, 8) =~= spec_encode_timestamp(t));
            assert(pos_body(s) =~= spec_encode_lat(vlat) + seq![p.symbol_table] + spec_encode_lon(
                vlon,
            ) + seq![p.symbol_code]);
        },
        None => {
            assert(s.len() == 20);
            assert(s[0] == pos_marker_of(p));
            assert(!pos_has_ts(s));
            assert(pos_msg(s) == p.messaging_supported);
            assert(pos_body(s) =~= spec_encode_lat(vlat) + seq![p.symbol_table] + spec_encode_lon(
                vlon,
            ) + seq![p.symbol_code]);
        },
    }
    let body = pos_body(s);
    assert(body.len() == 19);
    assert(body.subrange(0, 8) =~= spec_encode_lat(vlat));
    assert(body.subrange(9, 18) =~= spec_encode_lon(vlon));
    assert(body[0] == spec_encode_lat(vlat)[0]);
    assert(is_digit(body[0]));
    assert(body[8] == p.symbol_table);
    assert(body[18] == p.symbol_code);
    assert(body.skip(19) =~= Seq::<u8>::empty());
    assert(pos_comment(s) == spec_position_comment(Seq::<u8>::empty()));
    assert(spec_position_comment(Seq::<u8>::empty()) =~~= pc_finalize(pc_init()));
    assert(pos_ap_lat(s) == 0);
    assert(pos_ap_lon(s) == 0);
    assert(spec_parse_position(s) is Ok);
}

} // verus!
