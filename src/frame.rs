//! The wire format of one notification frame, as spec functions over the
//! bytes that are still unread.
//!
//! A frame is a header (`command: u8`, `frame_length: u32`) followed by items
//! (`item_id: u8`, `item_length: u16`, value). All integers are big-endian.
//! Items are read while the number of item bytes consumed is below
//! `frame_length - 1`.
use vstd::prelude::*;
use crate::json::{json_accepts, parse_safe};

verus! {

/// Bytes taken by the header: the command byte and the frame length.
pub const HEADER_LEN: usize = 5;

/// Item ids of the five fields.
pub const ITEM_DEVICE_TOKEN: u8 = 1;
pub const ITEM_PAYLOAD: u8 = 2;
pub const ITEM_IDENTIFIER: u8 = 3;
pub const ITEM_EXPIRATION: u8 = 4;
pub const ITEM_PRIORITY: u8 = 5;

/// The ways in which reading one frame fails.
#[derive(PartialEq, Eq, Structural, Clone, Copy, Debug)]
pub enum NotificationReadError {
    /// The bytes ran out before the frame was complete.
    NotificationReadEndOfFile,
    /// The payload is not UTF-8 text holding one JSON document, or is one
    /// that the parser cannot take safely (see `parse_safe`).
    NotificationReadProcessingError,
    NotificationReadMissingDeviceToken,
    NotificationReadMissingPayload,
    NotificationReadMissingIdentifier,
    NotificationReadMissingExpiration,
    NotificationReadMissingPriority,
    /// An item id other than the five known ones.
    NotificationReadUnknownItem(u8),
}

/// What a frame holds, with the device token and payload as raw bytes.
pub ghost struct FrameFields {
    pub device_token: Seq<u8>,
    pub payload: Seq<u8>,
    pub identifier: u32,
    pub expiration_date: u32,
    pub priority: u8,
}

/// The fields seen so far in the frame being read.
pub ghost struct Slots {
    pub device_token: Option<Seq<u8>>,
    pub payload: Option<Seq<u8>>,
    pub identifier: Option<u32>,
    pub expiration_date: Option<u32>,
    pub priority: Option<u8>,
}

pub open spec fn empty_slots() -> Slots {
    Slots {
        device_token: None,
        payload: None,
        identifier: None,
        expiration_date: None,
        priority: None,
    }
}

/// The big-endian integer held by `s[i..i + 2]`.
pub open spec fn be16(s: Seq<u8>, i: int) -> int {
    s[i] as int * 256 + s[i + 1] as int
}

/// The big-endian integer held by `s[i..i + 4]`.
pub open spec fn be32(s: Seq<u8>, i: int) -> int {
    s[i] as int * 16777216 + s[i + 1] as int * 65536 + s[i + 2] as int * 256 + s[i + 3] as int
}

pub open spec fn is_known_item(id: u8) -> bool {
    1 <= id <= 5
}

/// How many value bytes an item takes: its declared length for the device
/// token and the payload; four for identifier and expiration, one for
/// priority, whatever length they declare.
pub open spec fn value_len(id: u8, declared: int) -> int {
    if id == ITEM_DEVICE_TOKEN || id == ITEM_PAYLOAD {
        declared
    } else if id == ITEM_PRIORITY {
        1
    } else {
        4
    }
}

/// The slots after storing the value `v` of a known item; a later item of
/// an id replaces an earlier one.
pub open spec fn store(sl: Slots, id: u8, v: Seq<u8>) -> Slots {
    if id == ITEM_DEVICE_TOKEN {
        Slots { device_token: Some(v), ..sl }
    } else if id == ITEM_PAYLOAD {
        Slots { payload: Some(v), ..sl }
    } else if id == ITEM_IDENTIFIER {
        Slots { identifier: Some(be32(v, 0) as u32), ..sl }
    } else if id == ITEM_EXPIRATION {
        Slots { expiration_date: Some(be32(v, 0) as u32), ..sl }
    } else {
        Slots { priority: Some(v[0]), ..sl }
    }
}

/// A payload is taken when the parser can take it safely and it is UTF-8
/// text holding one JSON document.
pub open spec fn payload_ok(v: Seq<u8>) -> bool {
    parse_safe(v) && json_accepts(v)
}

/// Reads the length and value of a known item whose length field starts at
/// `at`: the new slots and where the next item starts.
pub open spec fn read_item(s: Seq<u8>, at: int, id: u8, sl: Slots) -> Result<(Slots, int), NotificationReadError> {
    if at + 2 > s.len() {
        Err(NotificationReadError::NotificationReadEndOfFile)
    } else {
        let start = at + 2;
        let end = start + value_len(id, be16(s, at));
        if end > s.len() {
            Err(NotificationReadError::NotificationReadEndOfFile)
        } else if id == ITEM_PAYLOAD && !payload_ok(s.subrange(start, end)) {
            Err(NotificationReadError::NotificationReadProcessingError)
        } else {
            Ok((store(sl, id, s.subrange(start, end)), end))
        }
    }
}

/// Reads items from offset `at` of `s` (the frame starting at offset 0)
/// while fewer than `limit` item bytes have been consumed.
pub open spec fn read_items(s: Seq<u8>, at: int, limit: int, sl: Slots) -> Result<(Slots, int), NotificationReadError>
    decreases s.len() - at,
{
    if at - HEADER_LEN >= limit {
        Ok((sl, at))
    } else if at >= s.len() {
        Err(NotificationReadError::NotificationReadEndOfFile)
    } else if !is_known_item(s[at]) {
        Err(NotificationReadError::NotificationReadUnknownItem(s[at]))
    } else {
        match read_item(s, at + 1, s[at], sl) {
            Err(e) => Err(e),
            Ok((sl2, next)) => if next > at {
                read_items(s, next, limit, sl2)
            } else {
                Ok((sl2, next))
            },
        }
    }
}

/// The fields of a completed frame, or the first one missing in the order
/// device token, payload, identifier, expiration, priority.
pub open spec fn finish(sl: Slots) -> Result<FrameFields, NotificationReadError> {
    if sl.device_token is None {
        Err(NotificationReadError::NotificationReadMissingDeviceToken)
    } else if sl.payload is None {
        Err(NotificationReadError::NotificationReadMissingPayload)
    } else if sl.identifier is None {
        Err(NotificationReadError::NotificationReadMissingIdentifier)
    } else if sl.expiration_date is None {
        Err(NotificationReadError::NotificationReadMissingExpiration)
    } else if sl.priority is None {
        Err(NotificationReadError::NotificationReadMissingPriority)
    } else {
        Ok(FrameFields {
            device_token: sl.device_token->Some_0,
            payload: sl.payload->Some_0,
            identifier: sl.identifier->Some_0,
            expiration_date: sl.expiration_date->Some_0,
            priority: sl.priority->Some_0,
        })
    }
}

/// The frame at the start of `s`: its fields and how many bytes it takes,
/// or why it cannot be read.
pub open spec fn decode_frame(s: Seq<u8>) -> Result<(FrameFields, int), NotificationReadError> {
    if s.len() < HEADER_LEN {
        Err(NotificationReadError::NotificationReadEndOfFile)
    } else {
        match read_items(s, HEADER_LEN as int, be32(s, 1) - 1, empty_slots()) {
            Err(e) => Err(e),
            Ok((sl, end)) => match finish(sl) {
                Err(e) => Err(e),
                Ok(f) => Ok((f, end)),
            },
        }
    }
}


/// A successful read of items ends between where it started and the end of
/// the bytes.
pub proof fn lemma_read_items_bounds(s: Seq<u8>, at: int, limit: int, sl: Slots)
    requires
        at <= s.len(),
    ensures
        read_items(s, at, limit, sl) matches Ok((_, end)) ==> at <= end <= s.len(),
    decreases s.len() - at,
{
    if at - HEADER_LEN < limit && at < s.len() && is_known_item(s[at]) {
        if let Ok((sl2, next)) = read_item(s, at + 1, s[at], sl) {
            if next > at {
                lemma_read_items_bounds(s, next, limit, sl2);
            }
        }
    }
}

/// A decoded frame takes at least its header, and no more than the bytes.
pub proof fn lemma_decode_frame_len(s: Seq<u8>)
    ensures
        decode_frame(s) matches Ok((_, n)) ==> HEADER_LEN <= n <= s.len(),
{
    if s.len() >= HEADER_LEN {
        lemma_read_items_bounds(s, HEADER_LEN as int, be32(s, 1) - 1, empty_slots());
    }
}

/// The frames at the start of `s`, one after another: their fields, the
/// bytes they take, and why the next one could not be read.
pub open spec fn decode_stream(s: Seq<u8>) -> (Seq<FrameFields>, int, NotificationReadError)
    decreases s.len(),
{
    match decode_frame(s) {
        Err(e) => (Seq::empty(), 0, e),
        Ok((f, n)) => if 0 < n <= s.len() {
            let rest = decode_stream(s.subrange(n, s.len() as int));
            (seq![f] + rest.0, n + rest.1, rest.2)
        } else {
            (seq![f], n, NotificationReadError::NotificationReadEndOfFile)
        },
    }
}

} // verus!
