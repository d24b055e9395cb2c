//! What holds of the decoder and of the state holder across calls: frames
//! built from fields decode back to them, and the list follows the commands.
use vstd::prelude::*;
use crate::frame::{
    be16, be32, decode_frame, decode_stream, is_known_item, empty_slots, finish, read_item, read_items, store, value_len,
    FrameFields, NotificationReadError, Slots, HEADER_LEN,
};
use crate::frame::payload_ok;
use crate::hex::{hex_digits, hex_of};
use crate::notifications::NotificationView;
use crate::stateholder::{apply, apply_all, CommandView};
use vstd::multiset::Multiset;
use vstd::seq_lib::{lemma_multiset_commutative, to_multiset_build};

verus! {

/// `x` as two big-endian bytes.
pub open spec fn u16_be(x: nat) -> Seq<u8> {
    seq![(x / 256) as u8, (x % 256) as u8]
}

/// `x` as four big-endian bytes.
pub open spec fn u32_be(x: nat) -> Seq<u8> {
    seq![(x / 16777216) as u8, (x / 65536 % 256) as u8, (x / 256 % 256) as u8, (x % 256) as u8]
}

pub proof fn lemma_be16(x: nat)
    requires
        x < 65536,
    ensures
        be16(u16_be(x), 0) == x,
{
}

pub proof fn lemma_be32(x: nat)
    requires
        x < 4294967296,
    ensures
        be32(u32_be(x), 0) == x,
{
}

/// One item: its id, the length of its value, the value.
pub open spec fn item(id: u8, v: Seq<u8>) -> Seq<u8> {
    seq![id] + u16_be(v.len()) + v
}

/// The value that carries field `id` of `f` on the wire.
pub open spec fn field_value(f: FrameFields, id: int) -> Seq<u8> {
    if id == 1 {
        f.device_token
    } else if id == 2 {
        f.payload
    } else if id == 3 {
        u32_be(f.identifier as nat)
    } else if id == 4 {
        u32_be(f.expiration_date as nat)
    } else {
        seq![f.priority]
    }
}

/// Every id in `order` is that of one of the five fields, and there are at
/// most five items.
pub open spec fn valid_order(order: Seq<int>) -> bool {
    order.len() <= 5 && forall|k: int| 0 <= k < order.len() ==> 1 <= #[trigger] order[k] <= 5
}

/// The items of the fields of `f` whose ids `order` lists, in that order.
pub open spec fn items_of(f: FrameFields, order: Seq<int>) -> Seq<u8>
    decreases order.len(),
{
    if order.len() == 0 {
        Seq::empty()
    } else {
        item(order[0] as u8, field_value(f, order[0])) + items_of(f, order.drop_first())
    }
}

/// A frame of the given command holding the items of the fields that
/// `order` lists, in that order, whose length counts its item bytes.
pub open spec fn encode_frame(f: FrameFields, command: u8, order: Seq<int>) -> Seq<u8> {
    let items = items_of(f, order);
    seq![command] + u32_be(items.len()) + items
}

/// Token and payload fit a 16-bit length.
pub open spec fn fits(f: FrameFields) -> bool {
    f.device_token.len() < 65536 && f.payload.len() < 65536
}

/// The slots after reading the items of `items_of(f, order)`.
pub open spec fn slots_after(sl: Slots, f: FrameFields, order: Seq<int>) -> Slots
    decreases order.len(),
{
    if order.len() == 0 {
        sl
    } else {
        slots_after(store(sl, order[0] as u8, field_value(f, order[0])), f, order.drop_first())
    }
}

/// The slots with every field that `order` lists filled from `f`.
pub open spec fn filled(sl: Slots, f: FrameFields, order: Seq<int>) -> Slots {
    Slots {
        device_token: if order.contains(1) {
            Some(f.device_token)
        } else {
            sl.device_token
        },
        payload: if order.contains(2) {
            Some(f.payload)
        } else {
            sl.payload
        },
        identifier: if order.contains(3) {
            Some(f.identifier)
        } else {
            sl.identifier
        },
        expiration_date: if order.contains(4) {
            Some(f.expiration_date)
        } else {
            sl.expiration_date
        },
        priority: if order.contains(5) {
            Some(f.priority)
        } else {
            sl.priority
        },
    }
}

proof fn lemma_slots_after(sl: Slots, f: FrameFields, order: Seq<int>)
    requires
        valid_order(order),
    ensures
        slots_after(sl, f, order) == filled(sl, f, order),
    decreases order.len(),
{
    if order.len() == 0 {
        assert(filled(sl, f, order) == sl);
    } else {
        let id = order[0];
        let rest = order.drop_first();
        lemma_be32(f.identifier as nat);
        lemma_be32(f.expiration_date as nat);
        assert(valid_order(rest)) by {
            assert forall|k: int| 0 <= k < rest.len() implies 1 <= #[trigger] rest[k] <= 5 by {
                assert(rest[k] == order[k + 1]);
            }
        }
        lemma_slots_after(store(sl, id as u8, field_value(f, id)), f, rest);
        assert forall|x: int| #[trigger] order.contains(x) <==> (x == id || rest.contains(x)) by {
            if order.contains(x) {
                let k = choose|k: int| 0 <= k < order.len() && order[k] == x;
                if k > 0 {
                    assert(rest[k - 1] == x);
                }
            }
            if rest.contains(x) {
                let k = choose|k: int| 0 <= k < rest.len() && rest[k] == x;
                assert(order[k + 1] == x);
            }
            if x == id {
                assert(order[0] == x);
            }
        }
    }
}

proof fn lemma_items_len(f: FrameFields, order: Seq<int>)
    requires
        fits(f),
        valid_order(order),
    ensures
        items_of(f, order).len() <= order.len() * 65538,
    decreases order.len(),
{
    if order.len() > 0 {
        let rest = order.drop_first();
        assert(valid_order(rest)) by {
            assert forall|k: int| 0 <= k < rest.len() implies 1 <= #[trigger] rest[k] <= 5 by {
                assert(rest[k] == order[k + 1]);
            }
        }
        lemma_items_len(f, rest);
    }
}

proof fn lemma_read_encoded(s: Seq<u8>, at: int, limit: int, sl: Slots, f: FrameFields, order: Seq<int>)
    requires
        fits(f),
        valid_order(order),
        order.contains(2) ==> payload_ok(f.payload),
        HEADER_LEN <= at,
        at + items_of(f, order).len() <= s.len(),
        s.subrange(at, at + items_of(f, order).len()) == items_of(f, order),
        limit == at + items_of(f, order).len() - HEADER_LEN - 1,
    ensures
        read_items(s, at, limit, sl) == Ok::<(Slots, int), NotificationReadError>(
            (slots_after(sl, f, order), at + items_of(f, order).len()),
        ),
    decreases order.len(),
{
    let items = items_of(f, order);
    if order.len() > 0 {
        let id = order[0];
        let v = field_value(f, id);
        let rest = order.drop_first();
        let tail = items_of(f, rest);
        assert(valid_order(rest)) by {
            assert forall|k: int| 0 <= k < rest.len() implies 1 <= #[trigger] rest[k] <= 5 by {
                assert(rest[k] == order[k + 1]);
            }
        }
        assert(rest.contains(2) ==> order.contains(2)) by {
            if rest.contains(2) {
                let k = choose|k: int| 0 <= k < rest.len() && rest[k] == 2;
                assert(order[k + 1] == 2);
            }
        }
        assert(id == 2 ==> order.contains(2)) by {
            assert(order[0] == id);
        }
        lemma_be16(v.len());
        if id == 3 {
            lemma_be32(f.identifier as nat);
        }
        if id == 4 {
            lemma_be32(f.expiration_date as nat);
        }
        assert(items == item(id as u8, v) + tail);
        assert(s[at] == items[0]);
        assert(s[at + 1] == items[1]);
        assert(s[at + 2] == items[2]);
        assert(be16(s, at + 1) == be16(u16_be(v.len()), 0));
        assert(value_len(id as u8, v.len() as int) == v.len());
        let next = at + 3 + v.len();
        assert(s.subrange(at + 3, next) =~= v) by {
            assert forall|k: int| 0 <= k < v.len() implies s.subrange(at + 3, next)[k] == v[k] by {
                assert(s[at + 3 + k] == items[3 + k]);
            }
        }
        assert(read_item(s, at + 1, id as u8, sl) == Ok::<(Slots, int), NotificationReadError>(
            (store(sl, id as u8, v), next),
        ));
        assert(s.subrange(next, next + tail.len()) =~= tail) by {
            assert forall|k: int| 0 <= k < tail.len() implies s.subrange(next, next + tail.len())[k] == tail[k] by {
                assert(s[next + k] == items[3 + v.len() + k]);
            }
        }
        lemma_read_encoded(s, next, limit, store(sl, id as u8, v), f, rest);
    }
}

/// The error for a frame that lacks field `id`.
pub open spec fn missing_error(id: int) -> NotificationReadError {
    if id == 1 {
        NotificationReadError::NotificationReadMissingDeviceToken
    } else if id == 2 {
        NotificationReadError::NotificationReadMissingPayload
    } else if id == 3 {
        NotificationReadError::NotificationReadMissingIdentifier
    } else if id == 4 {
        NotificationReadError::NotificationReadMissingExpiration
    } else {
        NotificationReadError::NotificationReadMissingPriority
    }
}

/// An encoded frame, with any bytes after it, decodes as far as its items
/// go, which is to its end.
proof fn lemma_decode_encoded(f: FrameFields, command: u8, order: Seq<int>, rest: Seq<u8>)
    requires
        fits(f),
        valid_order(order),
        order.contains(2) ==> payload_ok(f.payload),
    ensures
        decode_frame(encode_frame(f, command, order) + rest) == (match finish(
            filled(empty_slots(), f, order),
        ) {
            Err(e) => Err(e),
            Ok(g) => Ok((g, encode_frame(f, command, order).len() as int)),
        }),
{
    let items = items_of(f, order);
    let frame = encode_frame(f, command, order);
    let s = frame + rest;
    lemma_items_len(f, order);
    lemma_be32(items.len());
    assert(s.len() >= HEADER_LEN);
    assert(be32(s, 1) == be32(u32_be(items.len()), 0)) by {
        assert(s[1] == frame[1]);
        assert(s[2] == frame[2]);
        assert(s[3] == frame[3]);
        assert(s[4] == frame[4]);
    }
    assert(s.subrange(HEADER_LEN as int, HEADER_LEN + items.len()) =~= items) by {
        assert forall|k: int| 0 <= k < items.len() implies s.subrange(
            HEADER_LEN as int,
            HEADER_LEN + items.len(),
        )[k] == items[k] by {
            assert(s[HEADER_LEN + k] == frame[HEADER_LEN + k]);
        }
    }
    lemma_read_encoded(s, HEADER_LEN as int, be32(s, 1) - 1, empty_slots(), f, order);
    lemma_slots_after(empty_slots(), f, order);
}

/// Decoding a frame that holds every field of `f`, its items in any order,
/// followed by any bytes, gives back exactly those fields and takes exactly
/// the frame's bytes.
pub proof fn lemma_round_trip(f: FrameFields, command: u8, order: Seq<int>, rest: Seq<u8>)
    requires
        fits(f),
        payload_ok(f.payload),
        valid_order(order),
        forall|id: int| 1 <= id <= 5 ==> order.contains(id),
    ensures
        decode_frame(encode_frame(f, command, order) + rest) == Ok::<(FrameFields, int), NotificationReadError>(
            (f, encode_frame(f, command, order).len() as int),
        ),
{
    lemma_decode_encoded(f, command, order, rest);
    assert(order.contains(1) && order.contains(2) && order.contains(3) && order.contains(4)
        && order.contains(5));
    assert(finish(filled(empty_slots(), f, order)) == Ok::<FrameFields, NotificationReadError>(f));
}

/// A frame that lacks the item of one field, and holds the other four in
/// any order, decodes to the error naming the missing field.
pub proof fn lemma_missing_field(f: FrameFields, command: u8, order: Seq<int>, omit: int, rest: Seq<u8>)
    requires
        fits(f),
        valid_order(order),
        1 <= omit <= 5,
        !order.contains(omit),
        forall|id: int| 1 <= id <= 5 && id != omit ==> order.contains(id),
        order.contains(2) ==> payload_ok(f.payload),
    ensures
        decode_frame(encode_frame(f, command, order) + rest) == Err::<(FrameFields, int), NotificationReadError>(
            missing_error(omit),
        ),
{
    lemma_decode_encoded(f, command, order, rest);
    assert(1 != omit ==> order.contains(1));
    assert(2 != omit ==> order.contains(2));
    assert(3 != omit ==> order.contains(3));
    assert(4 != omit ==> order.contains(4));
    assert(5 != omit ==> order.contains(5));
}

/// The five field ids, in ascending order.
pub open spec fn all_ids() -> Seq<int> {
    seq![1, 2, 3, 4, 5]
}

/// The frames of `fs`, one after another, each holding every field.
pub open spec fn encode_frames(fs: Seq<FrameFields>, command: u8) -> Seq<u8>
    decreases fs.len(),
{
    if fs.len() == 0 {
        Seq::empty()
    } else {
        encode_frame(fs[0], command, all_ids()) + encode_frames(fs.drop_first(), command)
    }
}

/// Frames that hold every field, followed by any bytes, decode one after
/// another to their fields; reading then goes on in the bytes after them.
pub proof fn lemma_frames_then(fs: Seq<FrameFields>, command: u8, tail: Seq<u8>)
    requires
        forall|i: int| 0 <= i < fs.len() ==> fits(#[trigger] fs[i]) && payload_ok(fs[i].payload),
    ensures
        decode_stream(encode_frames(fs, command) + tail) == (fs + decode_stream(tail).0,
        encode_frames(fs, command).len() + decode_stream(tail).1, decode_stream(tail).2),
    decreases fs.len(),
{
    if fs.len() == 0 {
        assert(encode_frames(fs, command) + tail =~= tail);
        assert(fs + decode_stream(tail).0 =~= decode_stream(tail).0);
    } else {
        let f = fs[0];
        let others = fs.drop_first();
        let frame = encode_frame(f, command, all_ids());
        let after = encode_frames(others, command) + tail;
        let s = encode_frames(fs, command) + tail;
        assert(s =~= frame + after);
        assert forall|i: int| 0 <= i < others.len() implies fits(#[trigger] others[i]) && payload_ok(
            others[i].payload,
        ) by {
            assert(others[i] == fs[i + 1]);
        }
        assert(valid_order(all_ids()));
        assert forall|id: int| 1 <= id <= 5 implies all_ids().contains(id) by {
            assert(all_ids()[id - 1] == id);
        }
        lemma_round_trip(f, command, all_ids(), after);
        assert(s.subrange(frame.len() as int, s.len() as int) =~= after);
        lemma_frames_then(others, command, tail);
        assert(fs =~= seq![f] + others);
        assert(fs + decode_stream(tail).0 =~= seq![f] + (others + decode_stream(tail).0));
    }
}

/// A frame whose length covers at least one item and whose first item id
/// is none of the five is refused with that id, and nothing of it is read.
pub proof fn lemma_unknown_item(command: u8, frame_length: u32, id: u8, more: Seq<u8>)
    requires
        frame_length >= 2,
        !is_known_item(id),
    ensures
        decode_stream(seq![command] + u32_be(frame_length as nat) + seq![id] + more) == (
        Seq::<FrameFields>::empty(), 0int, NotificationReadError::NotificationReadUnknownItem(id)),
{
    let s = seq![command] + u32_be(frame_length as nat) + seq![id] + more;
    lemma_be32(frame_length as nat);
    assert(s[5] == id);
    assert(be32(s, 1) == be32(u32_be(frame_length as nat), 0)) by {
        assert(s[1] == u32_be(frame_length as nat)[0]);
        assert(s[2] == u32_be(frame_length as nat)[1]);
        assert(s[3] == u32_be(frame_length as nat)[2]);
        assert(s[4] == u32_be(frame_length as nat)[3]);
    }
    assert(read_items(s, HEADER_LEN as int, be32(s, 1) - 1, empty_slots()) == Err::<
        (Slots, int),
        NotificationReadError,
    >(NotificationReadError::NotificationReadUnknownItem(id)));
}

/// Valid frames followed by a frame with an unknown item id decode to the
/// valid frames' fields, in order, and then stop on that id: what a
/// connection forwards before it closes.
pub proof fn lemma_frames_then_unknown_item(
    fs: Seq<FrameFields>,
    command: u8,
    frame_length: u32,
    id: u8,
    more: Seq<u8>,
)
    requires
        forall|i: int| 0 <= i < fs.len() ==> fits(#[trigger] fs[i]) && payload_ok(fs[i].payload),
        frame_length >= 2,
        !is_known_item(id),
    ensures
        ({
            let bad = seq![command] + u32_be(frame_length as nat) + seq![id] + more;
            decode_stream(encode_frames(fs, command) + bad) == (fs, encode_frames(fs, command).len()
                as int, NotificationReadError::NotificationReadUnknownItem(id))
        }),
{
    let bad = seq![command] + u32_be(frame_length as nat) + seq![id] + more;
    lemma_frames_then(fs, command, bad);
    lemma_unknown_item(command, frame_length, id, more);
    assert(fs + Seq::<FrameFields>::empty() =~= fs);
}

/// Distinct byte strings have distinct hexadecimal renderings, so a device
/// token is told apart by its rendering.
pub proof fn lemma_hex_injective(a: Seq<u8>, b: Seq<u8>)
    requires
        hex_of(a) == hex_of(b),
    ensures
        a == b,
    decreases a.len(),
{
    lemma_hex_len(a);
    lemma_hex_len(b);
    if a.len() > 0 {
        let n = hex_of(a).len();
        let (x, y) = (a.last(), b.last());
        assert(hex_of(a)[n - 2] == hex_digits()[(x / 16) as int]);
        assert(hex_of(b)[n - 2] == hex_digits()[(y / 16) as int]);
        assert(hex_of(a)[n - 1] == hex_digits()[(x % 16) as int]);
        assert(hex_of(b)[n - 1] == hex_digits()[(y % 16) as int]);
        lemma_digits_distinct((x / 16) as int, (y / 16) as int);
        lemma_digits_distinct((x % 16) as int, (y % 16) as int);
        assert(x == y);
        assert(hex_of(a.drop_last()) =~= hex_of(a).subrange(0, n - 2));
        assert(hex_of(b.drop_last()) =~= hex_of(b).subrange(0, n - 2));
        lemma_hex_injective(a.drop_last(), b.drop_last());
        assert(a =~= a.drop_last().push(x));
        assert(b =~= b.drop_last().push(y));
    } else {
        assert(a =~= b);
    }
}

proof fn lemma_hex_len(b: Seq<u8>)
    ensures
        hex_of(b).len() == 2 * b.len(),
    decreases b.len(),
{
    if b.len() > 0 {
        lemma_hex_len(b.drop_last());
    }
}

proof fn lemma_digits_distinct(i: int, j: int)
    requires
        0 <= i < 16,
        0 <= j < 16,
        hex_digits()[i] == hex_digits()[j],
    ensures
        i == j,
{
    assert(hex_digits() =~= seq!['0', '1', '2', '3', '4', '5', '6', '7', '8', '9', 'a', 'b', 'c', 'd', 'e', 'f']);
}

/// The commands that append `ns`, in order.
pub open spec fn appends(ns: Seq<NotificationView>) -> Seq<CommandView> {
    ns.map_values(|n: NotificationView| CommandView::Append(n))
}

/// Appending notifications one after another puts them at the end of the
/// list in that order, and a read leaves the list as it is.
pub proof fn lemma_appends_in_order(state: Seq<NotificationView>, ns: Seq<NotificationView>)
    ensures
        apply_all(state, appends(ns)) == state + ns,
        apply(apply_all(state, appends(ns)), CommandView::GetState) == state + ns,
    decreases ns.len(),
{
    if ns.len() == 0 {
        assert(appends(ns) =~= Seq::<CommandView>::empty());
        assert(state + ns =~= state);
    } else {
        lemma_appends_in_order(state, ns.drop_last());
        assert(appends(ns).drop_last() =~= appends(ns.drop_last()));
        assert(state + ns =~= (state + ns.drop_last()).push(ns.last()));
    }
}

/// After a clear the list is empty, and one append then leaves exactly
/// that notification in it.
pub proof fn lemma_clear_then_append(state: Seq<NotificationView>, n: NotificationView)
    ensures
        apply(state, CommandView::Clear) == Seq::<NotificationView>::empty(),
        apply(apply(state, CommandView::Clear), CommandView::Append(n)) == seq![n],
{
    assert(Seq::<NotificationView>::empty().push(n) =~= seq![n]);
}

/// The notifications in order of arrival at the holder's inbox, each with
/// the connection it came from.
pub open spec fn arrived(arr: Seq<(nat, NotificationView)>) -> Seq<NotificationView> {
    arr.map_values(|a: (nat, NotificationView)| a.1)
}

/// What connection `i` sent, in its own order.
pub open spec fn sent_by(arr: Seq<(nat, NotificationView)>, i: nat) -> Seq<NotificationView>
    decreases arr.len(),
{
    if arr.len() == 0 {
        Seq::empty()
    } else if arr.last().0 == i {
        sent_by(arr.drop_last(), i).push(arr.last().1)
    } else {
        sent_by(arr.drop_last(), i)
    }
}

/// Everything that connections `0` to `k - 1` sent, counted with
/// multiplicity.
pub open spec fn sent_total(arr: Seq<(nat, NotificationView)>, k: nat) -> Multiset<NotificationView>
    decreases k,
{
    if k == 0 {
        Multiset::empty()
    } else {
        sent_total(arr, (k - 1) as nat).add(sent_by(arr, (k - 1) as nat).to_multiset())
    }
}

proof fn lemma_sent_total_push(arr: Seq<(nat, NotificationView)>, a: (nat, NotificationView), k: nat)
    ensures
        sent_total(arr.push(a), k) == if a.0 < k {
            sent_total(arr, k).insert(a.1)
        } else {
            sent_total(arr, k)
        },
    decreases k,
{
    let arr2 = arr.push(a);
    assert(arr2.drop_last() =~= arr);
    if k > 0 {
        let i = (k - 1) as nat;
        lemma_sent_total_push(arr, a, i);
        if a.0 == i {
            to_multiset_build(sent_by(arr, i), a.1);
            assert(sent_total(arr2, k) =~= sent_total(arr, k).insert(a.1));
        } else {
            assert(sent_total(arr2, k) =~= if a.0 < k {
                sent_total(arr, k).insert(a.1)
            } else {
                sent_total(arr, k)
            });
        }
    }
}

proof fn lemma_arrived_total(arr: Seq<(nat, NotificationView)>, k: nat)
    requires
        forall|j: int| 0 <= j < arr.len() ==> (#[trigger] arr[j]).0 < k,
    ensures
        arrived(arr).to_multiset() == sent_total(arr, k),
    decreases arr.len(),
{
    broadcast use vstd::multiset::group_multiset_axioms;

    if arr.len() == 0 {
        assert(arrived(arr) =~= Seq::<NotificationView>::empty());
        arrived(arr).to_multiset_ensures();
        assert(sent_total(arr, k) =~= Multiset::<NotificationView>::empty()) by {
            lemma_sent_total_empty(arr, k);
        }
    } else {
        let p = arr.drop_last();
        let a = arr.last();
        lemma_arrived_total(p, k);
        assert(arr =~= p.push(a));
        assert(arrived(arr) =~= arrived(p).push(a.1));
        to_multiset_build(arrived(p), a.1);
        lemma_sent_total_push(p, a, k);
    }
}

proof fn lemma_sent_total_empty(arr: Seq<(nat, NotificationView)>, k: nat)
    requires
        arr.len() == 0,
    ensures
        sent_total(arr, k) =~= Multiset::<NotificationView>::empty(),
    decreases k,
{
    broadcast use vstd::multiset::group_multiset_axioms;

    if k > 0 {
        lemma_sent_total_empty(arr, (k - 1) as nat);
        assert(sent_by(arr, (k - 1) as nat) =~= Seq::<NotificationView>::empty());
        sent_by(arr, (k - 1) as nat).to_multiset_ensures();
    }
}

/// Notifications from `k` connections, appended in whatever order they
/// reach the holder, all end up in the list exactly once each: the list is
/// what it held followed by the arrivals in order, and counted with
/// multiplicity it holds what it held and everything each connection sent.
pub proof fn lemma_concurrent_appends(state: Seq<NotificationView>, arr: Seq<(nat, NotificationView)>, k: nat)
    requires
        forall|j: int| 0 <= j < arr.len() ==> (#[trigger] arr[j]).0 < k,
    ensures
        apply_all(state, appends(arrived(arr))) == state + arrived(arr),
        apply_all(state, appends(arrived(arr))).to_multiset() == state.to_multiset().add(
            sent_total(arr, k),
        ),
{
    lemma_appends_in_order(state, arrived(arr));
    lemma_arrived_total(arr, k);
    lemma_multiset_commutative(state, arrived(arr));
}

} // verus!
