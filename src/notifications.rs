//! Decoded notifications, and the reader that decodes them frame by frame
//! from the bytes received on one connection.
use vstd::prelude::*;
use rustc_serialize::json::Json;
use crate::frame::{
    decode_frame, decode_stream, lemma_decode_frame_len, empty_slots, finish, read_item, read_items, be16, be32, FrameFields,
    NotificationReadError, Slots, HEADER_LEN, ITEM_DEVICE_TOKEN, ITEM_EXPIRATION, ITEM_IDENTIFIER,
    ITEM_PAYLOAD, ITEM_PRIORITY,
};
use crate::hex::{hex_of, U8Vec};
use crate::json::{is_parse_safe, json_of, parse_json};

verus! {

/// One decoded push notification.
pub struct Notification {
    device_token: String,
    payload: Json,
    identifier: u32,
    expiration_date: u32,
    priority: u8,
}

/// A notification as a value: the device token as its hexadecimal text.
pub ghost struct NotificationView {
    pub device_token: Seq<char>,
    pub payload: Json,
    pub identifier: u32,
    pub expiration_date: u32,
    pub priority: u8,
}

impl View for Notification {
    type V = NotificationView;

    closed spec fn view(&self) -> NotificationView {
        NotificationView {
            device_token: self.device_token@,
            payload: self.payload,
            identifier: self.identifier,
            expiration_date: self.expiration_date,
            priority: self.priority,
        }
    }
}

/// A decoded notification holds the fields of a frame: the device token
/// rendered as lowercase hexadecimal, the payload as the document parsed from
/// its bytes, the numbers as they were sent.
pub open spec fn holds_fields(n: NotificationView, f: FrameFields) -> bool {
    &&& n.device_token == hex_of(f.device_token)
    &&& n.payload == json_of(f.payload)
    &&& n.identifier == f.identifier
    &&& n.expiration_date == f.expiration_date
    &&& n.priority == f.priority
}

impl Clone for Notification {
    fn clone(&self) -> (r: Self)
        ensures
            r@ == self@,
    {
        Notification {
            device_token: self.device_token.clone(),
            payload: self.payload.clone(),
            identifier: self.identifier,
            expiration_date: self.expiration_date,
            priority: self.priority,
        }
    }
}

impl Notification {
    pub fn device_token(&self) -> (r: &String)
        ensures
            r@ == self@.device_token,
    {
        &self.device_token
    }

    pub fn payload(&self) -> (r: &Json)
        ensures
            *r == self@.payload,
    {
        &self.payload
    }

    pub fn identifier(&self) -> (r: u32)
        ensures
            r == self@.identifier,
    {
        self.identifier
    }

    pub fn expiration_date(&self) -> (r: u32)
        ensures
            r == self@.expiration_date,
    {
        self.expiration_date
    }

    pub fn priority(&self) -> (r: u8)
        ensures
            r == self@.priority,
    {
        self.priority
    }
}

/// Decodes notifications from the bytes received so far on one connection.
///
/// Bytes are appended as they arrive; each `read_notification` decodes the
/// frame that starts at the first unread byte. The `current_*` fields are the
/// working state of the frame being read and are reset at the start of each
/// frame; `cursor` is the read head within `buffer`.
pub struct NotificationReader {
    buffer: Vec<u8>,
    position: usize,
    cursor: usize,
    current_device_token: Option<String>,
    current_payload: Option<Json>,
    current_identifier: Option<u32>,
    current_expiration_date: Option<u32>,
    current_priority: Option<u8>,
}

impl View for NotificationReader {
    /// The bytes received and not yet consumed by a decoded frame.
    type V = Seq<u8>;

    closed spec fn view(&self) -> Seq<u8> {
        self.buffer@.subrange(self.position as int, self.buffer@.len() as int)
    }
}

impl NotificationReader {
    pub closed spec fn wf(&self) -> bool {
        &&& self.position <= self.cursor <= self.buffer.len()
    }

    /// The working fields hold what the slots say, in decoded form.
    closed spec fn agrees(&self, sl: Slots) -> bool {
        &&& self.current_device_token is Some <==> sl.device_token is Some
        &&& self.current_device_token is Some ==> self.current_device_token->Some_0@ == hex_of(
            sl.device_token->Some_0,
        )
        &&& self.current_payload is Some <==> sl.payload is Some
        &&& self.current_payload is Some ==> self.current_payload->Some_0 == json_of(
            sl.payload->Some_0,
        )
        &&& self.current_identifier == sl.identifier
        &&& self.current_expiration_date == sl.expiration_date
        &&& self.current_priority == sl.priority
    }

    /// The read head, as an offset into the unread bytes.
    closed spec fn at(&self) -> int {
        self.cursor - self.position
    }

    /// Only the read head and the working fields have changed.
    closed spec fn same_input(&self, other: &Self) -> bool {
        &&& self.buffer@ == other.buffer@
        &&& self.position == other.position
    }

    /// The working fields are those of `other`.
    closed spec fn same_fields(&self, other: &Self) -> bool {
        &&& self.current_device_token == other.current_device_token
        &&& self.current_payload == other.current_payload
        &&& self.current_identifier == other.current_identifier
        &&& self.current_expiration_date == other.current_expiration_date
        &&& self.current_priority == other.current_priority
    }

    /// A reader whose unread bytes are `bytes`.
    pub fn new(bytes: Vec<u8>) -> (r: NotificationReader)
        ensures
            r.wf(),
            r@ == bytes@,
    {
        let r = NotificationReader {
            buffer: bytes,
            position: 0,
            cursor: 0,
            current_device_token: None,
            current_payload: None,
            current_identifier: None,
            current_expiration_date: None,
            current_priority: None,
        };
        proof {
            assert(r@ =~= r.buffer@);
        }
        r
    }

    /// Drops the bytes that decoded frames have consumed.
    fn compact(&mut self)
        requires
            old(self).wf(),
        ensures
            final(self).wf(),
            final(self)@ == old(self)@,
            final(self).position == 0,
    {
        let mut kept: Vec<u8> = Vec::with_capacity(self.buffer.len() - self.position);
        let mut i: usize = self.position;
        while i < self.buffer.len()
            invariant
                self.wf(),
                self.position <= i <= self.buffer.len(),
                kept@ == self.buffer@.subrange(self.position as int, i as int),
            decreases self.buffer.len() - i,
        {
            kept.push(self.buffer[i]);
            proof {
                assert(kept@ =~= self.buffer@.subrange(self.position as int, i + 1));
            }
            i = i + 1;
        }
        proof {
            assert(kept@ =~= kept@.subrange(0, kept@.len() as int));
        }
        self.buffer = kept;
        self.position = 0;
        self.cursor = 0;
    }

    /// Appends bytes that arrived after those already held, first dropping
    /// those that decoded frames have consumed, so that the buffer holds only
    /// unread bytes.
    pub fn push_bytes(&mut self, more: &[u8])
        requires
            old(self).wf(),
        ensures
            final(self).wf(),
            final(self)@ == old(self)@ + more@,
    {
        self.compact();
        let ghost before = self.buffer@;
        proof {
            assert(before =~= self@);
        }
        let mut i: usize = 0;
        while i < more.len()
            invariant
                self.wf(),
                i <= more.len(),
                self.position == 0,
                before == old(self)@,
                self.buffer@ == before + more@.take(i as int),
            decreases more.len() - i,
        {
            self.buffer.push(more[i]);
            proof {
                assert(more@.take(i as int + 1) =~= more@.take(i as int).push(more@[i as int]));
            }
            i = i + 1;
        }
        proof {
            assert(more@.take(more.len() as int) =~= more@);
            assert(self@ =~= self.buffer@);
        }
    }

    /// How many bytes are held and not yet consumed.
    pub fn pending(&self) -> (r: usize)
        requires
            self.wf(),
        ensures
            r == self@.len(),
    {
        self.buffer.len() - self.position
    }

    fn read_u8(&mut self) -> (r: Result<u8, NotificationReadError>)
        requires
            old(self).wf(),
        ensures
            final(self).wf(),
            final(self).same_input(old(self)),
            final(self).same_fields(old(self)),
            old(self).cursor + 1 <= old(self).buffer.len() ==> r == Ok::<u8, NotificationReadError>(old(self).buffer@[old(self).cursor as int])
                && final(self).cursor == old(self).cursor + 1,
            old(self).cursor + 1 > old(self).buffer.len() ==> r == Err::<u8, NotificationReadError>(NotificationReadError::NotificationReadEndOfFile),
    {
        if self.cursor < self.buffer.len() {
            let b = self.buffer[self.cursor];
            self.cursor = self.cursor + 1;
            Ok(b)
        } else {
            Err(NotificationReadError::NotificationReadEndOfFile)
        }
    }

    fn read_be_u16(&mut self) -> (r: Result<u16, NotificationReadError>)
        requires
            old(self).wf(),
        ensures
            final(self).wf(),
            final(self).same_input(old(self)),
            final(self).same_fields(old(self)),
            old(self).cursor + 2 <= old(self).buffer.len() ==> r is Ok && r->Ok_0 as int == be16(
                old(self).buffer@,
                old(self).cursor as int,
            ) && final(self).cursor == old(self).cursor + 2,
            old(self).cursor + 2 > old(self).buffer.len() ==> r == Err::<u16, NotificationReadError>(NotificationReadError::NotificationReadEndOfFile),
    {
        if self.buffer.len() - self.cursor < 2 {
            return Err(NotificationReadError::NotificationReadEndOfFile);
        }
        let b0 = self.buffer[self.cursor] as u16;
        let b1 = self.buffer[self.cursor + 1] as u16;
        self.cursor = self.cursor + 2;
        Ok(b0 * 256 + b1)
    }

    fn read_be_u32(&mut self) -> (r: Result<u32, NotificationReadError>)
        requires
            old(self).wf(),
        ensures
            final(self).wf(),
            final(self).same_input(old(self)),
            final(self).same_fields(old(self)),
            old(self).cursor + 4 <= old(self).buffer.len() ==> r is Ok && r->Ok_0 as int == be32(
                old(self).buffer@,
                old(self).cursor as int,
            ) && final(self).cursor == old(self).cursor + 4,
            old(self).cursor + 4 > old(self).buffer.len() ==> r == Err::<u32, NotificationReadError>(NotificationReadError::NotificationReadEndOfFile),
    {
        if self.buffer.len() - self.cursor < 4 {
            return Err(NotificationReadError::NotificationReadEndOfFile);
        }
        let b0 = self.buffer[self.cursor] as u32;
        let b1 = self.buffer[self.cursor + 1] as u32;
        let b2 = self.buffer[self.cursor + 2] as u32;
        let b3 = self.buffer[self.cursor + 3] as u32;
        self.cursor = self.cursor + 4;
        Ok(b0 * 16777216 + b1 * 65536 + b2 * 256 + b3)
    }

    fn read_exact(&mut self, n: usize) -> (r: Result<Vec<u8>, NotificationReadError>)
        requires
            old(self).wf(),
        ensures
            final(self).wf(),
            final(self).same_input(old(self)),
            final(self).same_fields(old(self)),
            old(self).cursor + n <= old(self).buffer.len() ==> r is Ok && r->Ok_0@ == old(
                self,
            ).buffer@.subrange(old(self).cursor as int, old(self).cursor + n) && final(self).cursor
                == old(self).cursor + n,
            old(self).cursor + n > old(self).buffer.len() ==> r == Err::<Vec<u8>, NotificationReadError>(NotificationReadError::NotificationReadEndOfFile),
    {
        if self.buffer.len() - self.cursor < n {
            return Err(NotificationReadError::NotificationReadEndOfFile);
        }
        let start = self.cursor;
        let mut out: Vec<u8> = Vec::with_capacity(n);
        let mut i: usize = 0;
        while i < n
            invariant
                i <= n,
                start + n <= self.buffer.len(),
                out@ == self.buffer@.subrange(start as int, start + i),
            decreases n - i,
        {
            out.push(self.buffer[start + i]);
            proof {
                assert(out@ =~= self.buffer@.subrange(start as int, start + i + 1));
            }
            i = i + 1;
        }
        self.cursor = start + n;
        Ok(out)
    }

    /// Reads the header: the command byte and the frame length.
    fn read_header(&mut self) -> (r: Result<(u8, u32), NotificationReadError>)
        requires
            old(self).wf(),
            old(self).cursor == old(self).position,
        ensures
            final(self).wf(),
            final(self).same_input(old(self)),
            final(self).same_fields(old(self)),
            old(self)@.len() >= HEADER_LEN ==> r is Ok && r->Ok_0.0 == old(self)@[0] && r->Ok_0.1
                as int == be32(old(self)@, 1) && final(self).at() == HEADER_LEN,
            old(self)@.len() < HEADER_LEN ==> r == Err::<(u8, u32), NotificationReadError>(NotificationReadError::NotificationReadEndOfFile),
    {
        let command = match self.read_u8() {
            Ok(c) => c,
            Err(e) => return Err(e),
        };
        let frame_length = match self.read_be_u32() {
            Ok(l) => l,
            Err(e) => return Err(e),
        };
        Ok((command, frame_length))
    }

    fn read_item_length(&mut self) -> (r: Result<u16, NotificationReadError>)
        requires
            old(self).wf(),
        ensures
            final(self).wf(),
            final(self).same_input(old(self)),
            final(self).same_fields(old(self)),
            old(self).cursor + 2 <= old(self).buffer.len() ==> r is Ok && r->Ok_0 as int == be16(
                old(self)@,
                old(self).at(),
            ) && final(self).cursor == old(self).cursor + 2,
            old(self).cursor + 2 > old(self).buffer.len() ==> r == Err::<u16, NotificationReadError>(NotificationReadError::NotificationReadEndOfFile),
    {
        self.read_be_u16()
    }

    /// What reading the item `id` whose length field is at the read head of
    /// `pre` has done: as `read_item` says, in decoded form.
    closed spec fn item_read(pre: &Self, post: &Self, id: u8, sl: Slots, r: Result<(), NotificationReadError>) -> bool {
        &&& post.wf()
        &&& post.same_input(pre)
        &&& match read_item(pre@, pre.at(), id, sl) {
            Ok((sl2, next)) => r is Ok && post.agrees(sl2) && post.at() == next,
            Err(e) => r == Err::<(), NotificationReadError>(e),
        }
    }

    fn read_device_token(&mut self, Ghost(sl): Ghost<Slots>) -> (r: Result<(), NotificationReadError>)
        requires
            old(self).wf(),
            old(self).agrees(sl),
        ensures
            Self::item_read(old(self), final(self), ITEM_DEVICE_TOKEN, sl, r),
    {
        let item_length = match self.read_item_length() {
            Ok(l) => l,
            Err(e) => return Err(e),
        };
        let raw = match self.read_exact(item_length as usize) {
            Ok(v) => U8Vec(v),
            Err(e) => return Err(e),
        };
        proof {
            let at = old(self).at();
            assert(raw.0@ =~= old(self)@.subrange(at + 2, at + 2 + item_length));
        }
        let device_token = raw.to_hex();
        self.current_device_token = Some(device_token);
        Ok(())
    }

    fn read_payload(&mut self, Ghost(sl): Ghost<Slots>) -> (r: Result<(), NotificationReadError>)
        requires
            old(self).wf(),
            old(self).agrees(sl),
        ensures
            Self::item_read(old(self), final(self), ITEM_PAYLOAD, sl, r),
    {
        let item_length = match self.read_item_length() {
            Ok(l) => l,
            Err(e) => return Err(e),
        };
        let payload = match self.read_exact(item_length as usize) {
            Ok(v) => v,
            Err(e) => return Err(e),
        };
        proof {
            let at = old(self).at();
            assert(payload@ =~= old(self)@.subrange(at + 2, at + 2 + item_length));
        }
        if !is_parse_safe(payload.as_slice()) {
            return Err(NotificationReadError::NotificationReadProcessingError);
        }
        match parse_json(payload.as_slice()) {
            Ok(json) => {
                self.current_payload = Some(json);
                Ok(())
            },
            Err(_) => Err(NotificationReadError::NotificationReadProcessingError),
        }
    }

    fn read_identifier(&mut self, Ghost(sl): Ghost<Slots>) -> (r: Result<(), NotificationReadError>)
        requires
            old(self).wf(),
            old(self).agrees(sl),
        ensures
            Self::item_read(old(self), final(self), ITEM_IDENTIFIER, sl, r),
    {
        match self.read_item_length() {
            Ok(_) => {},
            Err(e) => return Err(e),
        }
        let value = match self.read_be_u32() {
            Ok(v) => v,
            Err(e) => return Err(e),
        };
        proof {
            let at = old(self).at();
            let v = old(self)@.subrange(at + 2, at + 6);
            assert(be32(v, 0) == be32(old(self)@, at + 2));
        }
        self.current_identifier = Some(value);
        Ok(())
    }

    fn read_expiration(&mut self, Ghost(sl): Ghost<Slots>) -> (r: Result<(), NotificationReadError>)
        requires
            old(self).wf(),
            old(self).agrees(sl),
        ensures
            Self::item_read(old(self), final(self), ITEM_EXPIRATION, sl, r),
    {
        match self.read_item_length() {
            Ok(_) => {},
            Err(e) => return Err(e),
        }
        let value = match self.read_be_u32() {
            Ok(v) => v,
            Err(e) => return Err(e),
        };
        proof {
            let at = old(self).at();
            let v = old(self)@.subrange(at + 2, at + 6);
            assert(be32(v, 0) == be32(old(self)@, at + 2));
        }
        self.current_expiration_date = Some(value);
        Ok(())
    }

    fn read_priority(&mut self, Ghost(sl): Ghost<Slots>) -> (r: Result<(), NotificationReadError>)
        requires
            old(self).wf(),
            old(self).agrees(sl),
        ensures
            Self::item_read(old(self), final(self), ITEM_PRIORITY, sl, r),
    {
        match self.read_item_length() {
            Ok(_) => {},
            Err(e) => return Err(e),
        }
        let value = match self.read_u8() {
            Ok(v) => v,
            Err(e) => return Err(e),
        };
        proof {
            let at = old(self).at();
            let v = old(self)@.subrange(at + 2, at + 3);
            assert(v[0] == old(self)@[at + 2]);
        }
        self.current_priority = Some(value);
        Ok(())
    }

    /// Forgets the fields of the previous frame.
    fn reset(&mut self)
        requires
            old(self).wf(),
        ensures
            final(self).wf(),
            final(self).same_input(old(self)),
            final(self).cursor == old(self).cursor,
            final(self).agrees(empty_slots()),
    {
        self.current_device_token = None;
        self.current_payload = None;
        self.current_identifier = None;
        self.current_expiration_date = None;
        self.current_priority = None;
    }

    /// The notification made of the working fields, or the first one that
    /// the frame did not hold.
    fn assert_notification(&self, Ghost(sl): Ghost<Slots>) -> (r: Result<Notification, NotificationReadError>)
        requires
            self.agrees(sl),
        ensures
            match finish(sl) {
                Ok(f) => r is Ok && holds_fields(r->Ok_0@, f),
                Err(e) => r == Err::<Notification, NotificationReadError>(e),
            },
    {
        let device_token = match &self.current_device_token {
            Some(t) => t.clone(),
            None => return Err(NotificationReadError::NotificationReadMissingDeviceToken),
        };
        let payload = match &self.current_payload {
            Some(p) => p.clone(),
            None => return Err(NotificationReadError::NotificationReadMissingPayload),
        };
        let identifier = match self.current_identifier {
            Some(v) => v,
            None => return Err(NotificationReadError::NotificationReadMissingIdentifier),
        };
        let expiration_date = match self.current_expiration_date {
            Some(v) => v,
            None => return Err(NotificationReadError::NotificationReadMissingExpiration),
        };
        let priority = match self.current_priority {
            Some(v) => v,
            None => return Err(NotificationReadError::NotificationReadMissingPriority),
        };
        Ok(Notification { device_token, payload, identifier, expiration_date, priority })
    }

    /// Decodes the frame that starts at the first unread byte.
    ///
    /// On success the frame's bytes are consumed. On failure nothing is
    /// consumed: where the bytes ran out, more may be pushed and the read
    /// tried again; any other failure is final for the connection.
    pub fn read_notification(&mut self) -> (r: Result<Notification, NotificationReadError>)
        requires
            old(self).wf(),
        ensures
            final(self).wf(),
            match decode_frame(old(self)@) {
                Ok((f, n)) => r is Ok && holds_fields(r->Ok_0@, f) && final(self)@ == old(
                    self,
                )@.subrange(n, old(self)@.len() as int),
                Err(e) => r == Err::<Notification, NotificationReadError>(e) && final(self)@ == old(
                    self,
                )@,
            },
    {
        self.reset();
        self.cursor = self.position;
        let ghost s = self@;
        let header = match self.read_header() {
            Ok(h) => h,
            Err(e) => return Err(e),
        };
        let frame_length = header.1;
        let ghost limit = be32(s, 1) - 1;
        let ghost mut sl = empty_slots();
        while frame_length >= 1 && ((self.cursor - self.position - HEADER_LEN) as u64) < ((
        frame_length - 1) as u64)
            invariant
                self.wf(),
                self@ == s,
                s == old(self)@,
                self.buffer@ == old(self).buffer@,
                self.position == old(self).position,
                self.at() >= HEADER_LEN,
                s.len() >= HEADER_LEN,
                frame_length as int == be32(s, 1),
                limit == be32(s, 1) - 1,
                self.agrees(sl),
                read_items(s, HEADER_LEN as int, limit, empty_slots()) == read_items(
                    s,
                    self.at(),
                    limit,
                    sl,
                ),
            decreases self.buffer.len() - self.cursor,
        {
            let ghost at = self.at();
            let item_id = match self.read_u8() {
                Ok(id) => id,
                Err(e) => return Err(e),
            };
            let read_result = if item_id == ITEM_DEVICE_TOKEN {
                self.read_device_token(Ghost(sl))
            } else if item_id == ITEM_PAYLOAD {
                self.read_payload(Ghost(sl))
            } else if item_id == ITEM_IDENTIFIER {
                self.read_identifier(Ghost(sl))
            } else if item_id == ITEM_EXPIRATION {
                self.read_expiration(Ghost(sl))
            } else if item_id == ITEM_PRIORITY {
                self.read_priority(Ghost(sl))
            } else {
                return Err(NotificationReadError::NotificationReadUnknownItem(item_id));
            };
            match read_result {
                Ok(()) => {},
                Err(e) => return Err(e),
            }
            proof {
                sl = read_item(s, at + 1, item_id, sl)->Ok_0.0;
            }
        }
        match self.assert_notification(Ghost(sl)) {
            Ok(notification) => {
                let ghost end = self.at();
                self.position = self.cursor;
                proof {
                    assert(self@ =~= s.subrange(end, s.len() as int));
                }
                Ok(notification)
            },
            Err(e) => Err(e),
        }
    }

    /// Decodes every frame that the held bytes complete, in order, and
    /// tells why the next one could not be read.
    pub fn read_available(&mut self) -> (r: (Vec<Notification>, NotificationReadError))
        requires
            old(self).wf(),
        ensures
            final(self).wf(),
            ({
                let (fs, m, e) = decode_stream(old(self)@);
                &&& r.1 == e
                &&& r.0@.len() == fs.len()
                &&& forall|i: int| 0 <= i < fs.len() ==> holds_fields(#[trigger] r.0@[i]@, fs[i])
                &&& final(self)@ == old(self)@.subrange(m, old(self)@.len() as int)
            }),
    {
        let mut out: Vec<Notification> = Vec::new();
        let ghost s0 = self@;
        let ghost mut c: int = 0;
        loop
            invariant
                self.wf(),
                0 <= c <= s0.len(),
                s0 == old(self)@,
                self@ == s0.subrange(c, s0.len() as int),
                out@.len() <= decode_stream(s0).0.len(),
                forall|j: int| 0 <= j < out@.len() ==> holds_fields(#[trigger] out@[j]@, decode_stream(s0).0[j]),
                decode_stream(s0).0 == decode_stream(s0).0.take(out@.len() as int) + decode_stream(self@).0,
                decode_stream(s0).1 == c + decode_stream(self@).1,
                decode_stream(s0).2 == decode_stream(self@).2,
            decreases self.buffer.len() - self.position,
        {
            let ghost cur = self@;
            proof {
                lemma_decode_frame_len(cur);
            }
            match self.read_notification() {
                Ok(notification) => {
                    proof {
                        let n = decode_frame(cur)->Ok_0.1;
                        let fs0 = decode_stream(s0).0;
                        assert(self@ =~= s0.subrange(c + n, s0.len() as int));
                        assert(fs0[out@.len() as int] == decode_frame(cur)->Ok_0.0);
                        assert(fs0.take(out@.len() as int + 1) =~= fs0.take(out@.len() as int).push(
                            decode_frame(cur)->Ok_0.0,
                        ));
                        assert(fs0 =~= fs0.take(out@.len() as int + 1) + decode_stream(self@).0);
                        c = c + n;
                    }
                    out.push(notification);
                },
                Err(e) => {
                    proof {
                        let fs0 = decode_stream(s0).0;
                        assert(fs0 =~= fs0.take(out@.len() as int));
                    }
                    return (out, e);
                },
            }
        }
    }
}

} // verus!
