//! Reassembly of messages that the transport delivers in segments.
//!
//! A message that does not fit into one notification travels in several wrapper messages. The
//! first byte of a wrapper's payload tells which part it carries:
//!
//! * `0x01`, the first packet: a 32-bit total length, then the first segment;
//! * `0x00`, a continuation: a segment;
//! * `0x02`, the last packet: the final segment, after which the gathered bytes must be as many as
//!   the first packet announced.
//!
//! Any other message is passed on as it is.
use vstd::prelude::*;
use vstd::slice::{slice_subrange, slice_to_vec};
use crate::wire;

verus! {

/// The message id of a wrapper.
pub const MSG_WRAPPER: u16 = 0xA101;

/// The flag of a continuation packet.
pub const FLAG_CONTINUATION: u8 = 0x00;

/// The flag of the first packet.
pub const FLAG_FIRST: u8 = 0x01;

/// The flag of the last packet.
pub const FLAG_LAST: u8 = 0x02;

/// What one notification means to the reassembly.
pub enum Packet<'a> {
    /// A message that is not a wrapper.
    Plain(&'a [u8]),
    /// The first segment of a message of `total` bytes.
    First { total: u32, segment: &'a [u8] },
    /// A further segment.
    Continuation(&'a [u8]),
    /// The final segment.
    Last(&'a [u8]),
    /// Nothing that can be used: cut short, or with an unknown flag.
    Unusable,
}

/// The contents of a [`Packet`].
pub enum PacketView {
    Plain(Seq<u8>),
    First { total: int, segment: Seq<u8> },
    Continuation(Seq<u8>),
    Last(Seq<u8>),
    Unusable,
}

impl<'a> View for Packet<'a> {
    type V = PacketView;

    open spec fn view(&self) -> PacketView {
        match *self {
            Packet::Plain(message) => PacketView::Plain(message@),
            Packet::First { total, segment } => PacketView::First {
                total: total as int,
                segment: segment@,
            },
            Packet::Continuation(segment) => PacketView::Continuation(segment@),
            Packet::Last(segment) => PacketView::Last(segment@),
            Packet::Unusable => PacketView::Unusable,
        }
    }
}

/// The message at the start of `raw`: its header and payload without what follows, or all of `raw`
/// if the payload is cut short.
pub open spec fn leading_message(raw: Seq<u8>) -> Seq<u8> {
    if wire::is_complete(raw) {
        raw.take(wire::HEADER_LEN + wire::payload_len(raw))
    } else {
        raw
    }
}

/// What a wrapper's payload means.
pub open spec fn wrapper_packet(body: Seq<u8>) -> PacketView {
    if body.len() >= 5 && body[0] == FLAG_FIRST {
        PacketView::First { total: wire::le_u32(body, 1), segment: body.skip(5) }
    } else if body.len() >= 1 && body[0] == FLAG_CONTINUATION {
        PacketView::Continuation(body.skip(1))
    } else if body.len() >= 1 && body[0] == FLAG_LAST {
        PacketView::Last(body.skip(1))
    } else {
        PacketView::Unusable
    }
}

/// What the notification `raw` means.
pub open spec fn packet_of(raw: Seq<u8>) -> PacketView {
    if raw.len() < wire::HEADER_LEN {
        PacketView::Unusable
    } else if wire::message_id(raw) != MSG_WRAPPER {
        PacketView::Plain(leading_message(raw))
    } else if wire::is_complete(raw) {
        wrapper_packet(wire::payload(raw))
    } else {
        PacketView::Unusable
    }
}

/// What receiving a notification leads to.
pub enum Reception {
    /// No message is complete yet, or the notification was not usable.
    Pending,
    /// A whole message.
    Message(Vec<u8>),
    /// The last packet came, but the segments do not have the announced length; they are dropped.
    LengthMismatch { got: usize, expected: usize },
}

/// The contents of a [`Reception`].
pub enum ReceptionView {
    Pending,
    Message(Seq<u8>),
    LengthMismatch { got: int, expected: int },
}

impl View for Reception {
    type V = ReceptionView;

    open spec fn view(&self) -> ReceptionView {
        match *self {
            Reception::Pending => ReceptionView::Pending,
            Reception::Message(message) => ReceptionView::Message(message@),
            Reception::LengthMismatch { got, expected } => ReceptionView::LengthMismatch {
                got: got as int,
                expected: expected as int,
            },
        }
    }
}

/// The state of a reassembly: the bytes gathered so far and the announced total length.
#[verifier::ext_equal]
pub struct Assembly {
    pub gathered: Seq<u8>,
    pub expected: int,
}

impl Assembly {
    /// The state before any packet.
    pub open spec fn initial() -> Assembly {
        Assembly { gathered: seq![], expected: 0 }
    }

    /// The state after `packet`, and what receiving it leads to.
    pub open spec fn accept(self, packet: PacketView) -> (Assembly, ReceptionView) {
        match packet {
            PacketView::Plain(message) => (self, ReceptionView::Message(message)),
            PacketView::First { total, segment } => (
                Assembly { gathered: segment, expected: total },
                ReceptionView::Pending,
            ),
            PacketView::Continuation(segment) => (
                Assembly { gathered: self.gathered + segment, ..self },
                ReceptionView::Pending,
            ),
            PacketView::Last(segment) => (
                Assembly { gathered: seq![], ..self },
                if self.gathered.len() + segment.len() == self.expected {
                    ReceptionView::Message(self.gathered + segment)
                } else {
                    ReceptionView::LengthMismatch {
                        got: (self.gathered.len() + segment.len()) as int,
                        expected: self.expected,
                    }
                },
            ),
            PacketView::Unusable => (self, ReceptionView::Pending),
        }
    }

    /// The state after the notification `raw`.
    pub open spec fn next(self, raw: Seq<u8>) -> Assembly {
        self.accept(packet_of(raw)).0
    }

    /// What receiving the notification `raw` leads to.
    pub open spec fn reception(self, raw: Seq<u8>) -> ReceptionView {
        self.accept(packet_of(raw)).1
    }

    /// The state after all of `notifications`, one after the other.
    pub open spec fn after(self, notifications: Seq<Seq<u8>>) -> Assembly
        decreases notifications.len(),
    {
        if notifications.len() == 0 {
            self
        } else {
            self.after(notifications.drop_last()).next(notifications.last())
        }
    }
}

/// Tells what the notification `raw` means.
pub fn read_packet(raw: &[u8]) -> (packet: Packet<'_>)
    ensures
        packet@ == packet_of(raw@),
        match packet {
            Packet::Plain(message) => packet_of(raw@) == PacketView::Plain(message@),
            Packet::First { total, segment } => packet_of(raw@) == (PacketView::First {
                total: total as int,
                segment: segment@,
            }),
            Packet::Continuation(segment) => packet_of(raw@) == PacketView::Continuation(segment@),
            Packet::Last(segment) => packet_of(raw@) == PacketView::Last(segment@),
            Packet::Unusable => packet_of(raw@) is Unusable,
        },
{
    if raw.len() < wire::HEADER_LEN {
        return Packet::Unusable;
    }
    let id: u16 = wire::read_u16(raw, 0);
    let announced: usize = wire::read_u16(raw, 2) as usize;
    let available: usize = raw.len() - wire::HEADER_LEN;
    if id != MSG_WRAPPER {
        let len: usize = if announced < available {
            announced
        } else {
            available
        };
        let message = slice_subrange(raw, 0, wire::HEADER_LEN + len);
        assert(message@ =~= leading_message(raw@));
        return Packet::Plain(message);
    }
    if available < announced {
        return Packet::Unusable;
    }
    let body = slice_subrange(raw, wire::HEADER_LEN, wire::HEADER_LEN + announced);
    if body.len() == 0 {
        return Packet::Unusable;
    }
    match body[0] {
        FLAG_FIRST => {
            if body.len() < 5 {
                return Packet::Unusable;
            }
            Packet::First {
                total: wire::read_u32(body, 1),
                segment: slice_subrange(body, 5, body.len()),
            }
        },
        FLAG_CONTINUATION => Packet::Continuation(slice_subrange(body, 1, body.len())),
        FLAG_LAST => Packet::Last(slice_subrange(body, 1, body.len())),
        _ => Packet::Unusable,
    }
}

/// Puts the segments of wrapper messages together.
pub struct Reassembler {
    buf: Vec<u8>,
    expected: usize,
}

impl View for Reassembler {
    type V = Assembly;

    closed spec fn view(&self) -> Assembly {
        Assembly { gathered: self.buf@, expected: self.expected as int }
    }
}

impl Default for Reassembler {
    fn default() -> (r: Reassembler)
        ensures
            r@ == Assembly::initial(),
            r@.gathered.len() == 0,
            r@.expected == 0,
    {
        Reassembler { buf: Vec::new(), expected: 0 }
    }
}

impl Reassembler {
    /// Takes in one notification and tells what it leads to.
    pub fn receive(&mut self, raw: &[u8]) -> (r: Reception)
        ensures
            final(self)@ == old(self)@.next(raw@),
            r@ == old(self)@.reception(raw@),
            match r {
                Reception::Pending => old(self)@.reception(raw@) is Pending,
                Reception::Message(message) => old(self)@.reception(raw@)
                    == ReceptionView::Message(message@),
                Reception::LengthMismatch { got, expected } => old(self)@.reception(raw@) == (
                ReceptionView::LengthMismatch { got: got as int, expected: expected as int }),
            },
    {
        match read_packet(raw) {
            Packet::Plain(message) => Reception::Message(slice_to_vec(message)),
            Packet::First { total, segment } => {
                self.expected = total as usize;
                self.buf = slice_to_vec(segment);
                Reception::Pending
            },
            Packet::Continuation(segment) => {
                self.buf.extend_from_slice(segment);
                assert(self.buf@ =~= old(self).buf@ + segment@);
                Reception::Pending
            },
            Packet::Last(segment) => {
                self.buf.extend_from_slice(segment);
                assert(self.buf@ =~= old(self).buf@ + segment@);
                let mut whole: Vec<u8> = Vec::new();
                std::mem::swap(&mut whole, &mut self.buf);
                if whole.len() == self.expected {
                    Reception::Message(whole)
                } else {
                    Reception::LengthMismatch { got: whole.len(), expected: self.expected }
                }
            },
            Packet::Unusable => Reception::Pending,
        }
    }

    /// Takes in one notification and returns the message that is complete with it, if there is
    /// one.
    pub fn feed(&mut self, raw: &[u8]) -> (r: Option<Vec<u8>>)
        ensures
            final(self)@ == old(self)@.next(raw@),
            match r {
                Some(message) => old(self)@.reception(raw@) == ReceptionView::Message(message@),
                None => !(old(self)@.reception(raw@) is Message),
            },
    {
        match self.receive(raw) {
            Reception::Message(message) => Some(message),
            _ => None,
        }
    }
}

/// The notification that carries the first segment of a message of `total` bytes.
pub open spec fn first_packet(total: u32, segment: Seq<u8>) -> Seq<u8> {
    wire::framed(MSG_WRAPPER, seq![FLAG_FIRST] + wire::u32_bytes(total as int) + segment)
}

/// The notification that carries a further segment.
pub open spec fn continuation_packet(segment: Seq<u8>) -> Seq<u8> {
    wire::framed(MSG_WRAPPER, seq![FLAG_CONTINUATION] + segment)
}

/// The notification that carries the final segment.
pub open spec fn last_packet(segment: Seq<u8>) -> Seq<u8> {
    wire::framed(MSG_WRAPPER, seq![FLAG_LAST] + segment)
}

/// The notifications that carry all segments of a message but the final one.
pub open spec fn opening_packets(total: u32, head: Seq<u8>, middle: Seq<Seq<u8>>) -> Seq<Seq<u8>> {
    seq![first_packet(total, head)] + Seq::new(
        middle.len(),
        |i: int| continuation_packet(middle[i]),
    )
}

/// The segments one after the other.
pub open spec fn joined(segments: Seq<Seq<u8>>) -> Seq<u8>
    decreases segments.len(),
{
    if segments.len() == 0 {
        seq![]
    } else {
        joined(segments.drop_last()) + segments.last()
    }
}

/// Each kind of segment packet is read as what it was made from, whatever bytes follow it.
pub proof fn law_packets_read_back(total: u32, segment: Seq<u8>, after: Seq<u8>)
    ensures
        segment.len() + 5 <= u16::MAX ==> packet_of(first_packet(total, segment) + after)
            == (PacketView::First { total: total as int, segment }),
        segment.len() + 1 <= u16::MAX ==> packet_of(continuation_packet(segment) + after)
            == PacketView::Continuation(segment),
        segment.len() + 1 <= u16::MAX ==> packet_of(last_packet(segment) + after)
            == PacketView::Last(segment),
{
    if segment.len() + 5 <= u16::MAX {
        let body = seq![FLAG_FIRST] + wire::u32_bytes(total as int) + segment;
        wire::law_framed_reads_back(MSG_WRAPPER, body, after);
        wire::law_u32_reads_back(total, seq![FLAG_FIRST], segment);
        assert(body[0] == FLAG_FIRST);
        assert(body.skip(5) =~= segment);
    }
    if segment.len() + 1 <= u16::MAX {
        let body = seq![FLAG_CONTINUATION] + segment;
        wire::law_framed_reads_back(MSG_WRAPPER, body, after);
        assert(body[0] == FLAG_CONTINUATION);
        assert(body.skip(1) =~= segment);
        let body = seq![FLAG_LAST] + segment;
        wire::law_framed_reads_back(MSG_WRAPPER, body, after);
        assert(body[0] == FLAG_LAST);
        assert(body.skip(1) =~= segment);
    }
}

/// A message that is not a wrapper is handed over at once, without what may follow its payload,
/// and a reassembly that is under way goes on as if it had not come.
pub proof fn law_plain_message_passes_through(
    state: Assembly,
    id: u16,
    body: Seq<u8>,
    after: Seq<u8>,
)
    requires
        id != MSG_WRAPPER,
        body.len() <= u16::MAX,
    ensures
        state.next(wire::framed(id, body) + after) == state,
        state.reception(wire::framed(id, body) + after) == ReceptionView::Message(
            wire::framed(id, body),
        ),
{
    wire::law_framed_reads_back(id, body, after);
    assert(leading_message(wire::framed(id, body) + after) =~= wire::framed(id, body));
}

/// A message that is not a wrapper and has no bytes after its payload is returned unchanged, even
/// when its payload is cut short.
pub proof fn law_plain_message_unchanged(state: Assembly, raw: Seq<u8>)
    requires
        raw.len() >= wire::HEADER_LEN,
        wire::message_id(raw) != MSG_WRAPPER,
        raw.len() <= wire::HEADER_LEN + wire::payload_len(raw),
    ensures
        state.next(raw) == state,
        state.reception(raw) == ReceptionView::Message(raw),
{
    assert(leading_message(raw) =~= raw);
}

/// A notification without a whole header, or a wrapper that is cut short, has an unknown flag or is
/// a first packet without room for the total length, changes nothing and completes nothing.
pub proof fn law_unusable_notification_changes_nothing(state: Assembly, raw: Seq<u8>)
    requires
        raw.len() >= wire::HEADER_LEN ==> {
            &&& wire::message_id(raw) == MSG_WRAPPER
            &&& wire::is_complete(raw) && wire::payload_len(raw) > 0 ==> {
                let flag = wire::payload(raw)[0];
                &&& flag != FLAG_CONTINUATION
                &&& flag != FLAG_LAST
                &&& flag == FLAG_FIRST ==> wire::payload_len(raw) < 5
            }
        },
    ensures
        state.next(raw) == state,
        state.reception(raw) == ReceptionView::Pending,
{
}

/// The first packet starts over: what came before it has no influence on anything after it.
pub proof fn law_first_packet_starts_over(
    state: Assembly,
    other: Assembly,
    total: u32,
    segment: Seq<u8>,
)
    requires
        segment.len() + 5 <= u16::MAX,
    ensures
        state.next(first_packet(total, segment)) == other.next(first_packet(total, segment)),
        state.reception(first_packet(total, segment)) == ReceptionView::Pending,
{
    law_packets_read_back(total, segment, seq![]);
    assert(first_packet(total, segment) + seq![] =~= first_packet(total, segment));
}

/// A message that is put together from segments has the announced length.
pub proof fn law_message_has_announced_length(state: Assembly, raw: Seq<u8>)
    requires
        raw.len() >= wire::HEADER_LEN,
        wire::message_id(raw) == MSG_WRAPPER,
    ensures
        state.reception(raw) matches ReceptionView::Message(message) ==> message.len()
            == state.expected,
{
}

/// After the last packet no gathered byte is left, whether the lengths agree or not.
pub proof fn law_last_packet_empties(state: Assembly, segment: Seq<u8>)
    requires
        segment.len() + 1 <= u16::MAX,
    ensures
        state.next(last_packet(segment)) == (Assembly { gathered: seq![], ..state }),
        !(state.reception(last_packet(segment)) is Pending),
{
    law_packets_read_back(0, segment, seq![]);
    assert(last_packet(segment) + seq![] =~= last_packet(segment));
}

/// A continuation appends its segment and completes nothing.
proof fn lemma_continuation_gathers(state: Assembly, segment: Seq<u8>)
    requires
        segment.len() + 1 <= u16::MAX,
    ensures
        state.next(continuation_packet(segment)) == (Assembly {
            gathered: state.gathered + segment,
            ..state
        }),
        state.reception(continuation_packet(segment)) == ReceptionView::Pending,
{
    law_packets_read_back(0, segment, seq![]);
    assert(continuation_packet(segment) + seq![] =~= continuation_packet(segment));
}

/// The first packet alone gathers its segment.
proof fn lemma_first_packet_gathers(state: Assembly, total: u32, head: Seq<u8>)
    requires
        head.len() + 5 <= u16::MAX,
    ensures
        state.after(seq![first_packet(total, head)]) == (Assembly {
            gathered: head,
            expected: total as int,
        }),
{
    let packets = seq![first_packet(total, head)];
    law_packets_read_back(total, head, seq![]);
    assert(first_packet(total, head) + seq![] =~= first_packet(total, head));
    assert(packets.drop_last() =~= seq![]);
    assert(state.after(packets.drop_last()) == state);
}

/// One more segment needs one more packet, and comes last in the joined segments.
proof fn lemma_one_more_segment(total: u32, head: Seq<u8>, middle: Seq<Seq<u8>>)
    requires
        middle.len() > 0,
    ensures
        opening_packets(total, head, middle) == opening_packets(
            total,
            head,
            middle.drop_last(),
        ).push(continuation_packet(middle.last())),
        head + joined(middle) == head + joined(middle.drop_last()) + middle.last(),
{
    assert(opening_packets(total, head, middle) =~= opening_packets(
        total,
        head,
        middle.drop_last(),
    ).push(continuation_packet(middle.last())));
    assert(head + joined(middle) =~= head + joined(middle.drop_last()) + middle.last());
}

/// If none of `packets` completes anything, and neither does `packet` after them, then none of
/// them all does.
proof fn lemma_one_more_pending(state: Assembly, packets: Seq<Seq<u8>>, packet: Seq<u8>)
    requires
        forall|k: int|
            0 <= k < packets.len() ==> state.after(packets.take(k)).reception(
                #[trigger] packets[k],
            ) == ReceptionView::Pending,
        state.after(packets).reception(packet) == ReceptionView::Pending,
    ensures
        state.after(packets.push(packet)) == state.after(packets).next(packet),
        forall|k: int|
            0 <= k < packets.push(packet).len() ==> state.after(
                packets.push(packet).take(k),
            ).reception(#[trigger] packets.push(packet)[k]) == ReceptionView::Pending,
{
    let all = packets.push(packet);
    assert(all.drop_last() =~= packets);
    assert forall|k: int| 0 <= k < all.len() implies state.after(all.take(k)).reception(
        #[trigger] all[k],
    ) == ReceptionView::Pending by {
        if k < packets.len() {
            assert(all.take(k) =~= packets.take(k));
            assert(all[k] == packets[k]);
        } else {
            assert(all.take(k) =~= packets);
        }
    }
}

/// The packets before the last one gather the segments in order and complete nothing.
pub proof fn law_opening_packets_gather(
    state: Assembly,
    total: u32,
    head: Seq<u8>,
    middle: Seq<Seq<u8>>,
)
    requires
        head.len() + 5 <= u16::MAX,
        forall|i: int| 0 <= i < middle.len() ==> (#[trigger] middle[i]).len() + 1 <= u16::MAX,
    ensures
        state.after(opening_packets(total, head, middle)) == (Assembly {
            gathered: head + joined(middle),
            expected: total as int,
        }),
        forall|k: int|
            0 <= k < opening_packets(total, head, middle).len() ==> state.after(
                opening_packets(total, head, middle).take(k),
            ).reception(#[trigger] opening_packets(total, head, middle)[k])
                == ReceptionView::Pending,
    decreases middle.len(),
{
    if middle.len() == 0 {
        let packets = opening_packets(total, head, middle);
        assert(packets =~= seq![first_packet(total, head)]);
        assert(packets.take(0) =~= seq![]);
        lemma_first_packet_gathers(state, total, head);
        law_first_packet_starts_over(state, state, total, head);
        assert(head + joined(middle) =~= head);
    } else {
        let fewer = opening_packets(total, head, middle.drop_last());
        law_opening_packets_gather(state, total, head, middle.drop_last());
        lemma_one_more_segment(total, head, middle);
        lemma_continuation_gathers(state.after(fewer), middle.last());
        lemma_one_more_pending(state, fewer, continuation_packet(middle.last()));
    }
}

/// Whatever came before, the packets of a segmented message complete nothing until the last one,
/// which yields exactly the joined segments if they have the announced length, and a length
/// mismatch otherwise.
pub proof fn law_segments_are_reassembled(
    state: Assembly,
    total: u32,
    head: Seq<u8>,
    middle: Seq<Seq<u8>>,
    tail: Seq<u8>,
)
    requires
        head.len() + 5 <= u16::MAX,
        forall|i: int| 0 <= i < middle.len() ==> (#[trigger] middle[i]).len() + 1 <= u16::MAX,
        tail.len() + 1 <= u16::MAX,
    ensures
        forall|k: int|
            0 <= k < opening_packets(total, head, middle).len() ==> state.after(
                opening_packets(total, head, middle).take(k),
            ).reception(#[trigger] opening_packets(total, head, middle)[k])
                == ReceptionView::Pending,
        state.after(opening_packets(total, head, middle)).next(last_packet(tail)) == (Assembly {
            gathered: seq![],
            expected: total as int,
        }),
        state.after(opening_packets(total, head, middle)).reception(last_packet(tail)) == {
            let whole = head + joined(middle) + tail;
            if whole.len() == total {
                ReceptionView::Message(whole)
            } else {
                ReceptionView::LengthMismatch { got: whole.len() as int, expected: total as int }
            }
        },
{
    law_opening_packets_gather(state, total, head, middle);
    law_packets_read_back(total, tail, seq![]);
    assert(last_packet(tail) + seq![] =~= last_packet(tail));
}

/// What a notification that is no wrapper leads to, byte by byte: with a whole header, the message
/// without what follows its payload, and nothing otherwise. The reassembly does not change.
pub proof fn law_plain_notification_in_bytes(state: Assembly, raw: Seq<u8>)
    requires
        raw.len() >= 4 ==> raw[0] + 256 * raw[1] != 0xA101,
    ensures
        state.next(raw) == state,
        raw.len() < 4 ==> state.reception(raw) == ReceptionView::Pending,
        raw.len() >= 4 ==> {
            let end = 4 + raw[2] + 256 * raw[3];
            state.reception(raw) == ReceptionView::Message(
                if raw.len() < end {
                    raw
                } else {
                    raw.take(end)
                },
            )
        },
{
}

/// What a wrapper leads to, byte by byte. The byte behind the header tells the part: 1 starts over
/// with a total in four bytes and the bytes behind it, 0 appends the bytes behind it, and 2 appends
/// them and hands everything over, if it is as long as was announced.
pub proof fn law_wrapper_in_bytes(state: Assembly, raw: Seq<u8>)
    requires
        raw.len() >= 5,
        raw[0] + 256 * raw[1] == 0xA101,
        raw[2] + 256 * raw[3] >= 1,
        raw.len() >= 4 + raw[2] + 256 * raw[3],
    ensures
        ({
            let end = 4 + raw[2] + 256 * raw[3];
            let flag = raw[4];
            let whole = state.gathered + raw.subrange(5, end);
            &&& flag == 1 && end >= 9 ==> {
                &&& state.next(raw).gathered == raw.subrange(9, end)
                &&& state.next(raw).expected == raw[5] + 256 * (raw[6] + 256 * (raw[7] + 256
                    * raw[8]))
            }
            &&& flag == 0 ==> {
                &&& state.next(raw).gathered == whole
                &&& state.next(raw).expected == state.expected
            }
            &&& flag == 2 ==> {
                &&& state.next(raw).gathered == Seq::<u8>::empty()
                &&& state.next(raw).expected == state.expected
            }
            &&& flag > 2 || (flag == 1 && end < 9) ==> state.next(raw) == state
            &&& flag != 2 ==> state.reception(raw) == ReceptionView::Pending
            &&& flag == 2 && whole.len() == state.expected ==> state.reception(raw)
                == ReceptionView::Message(whole)
            &&& flag == 2 && whole.len() != state.expected ==> state.reception(raw) == (
            ReceptionView::LengthMismatch { got: whole.len() as int, expected: state.expected })
        }),
{
    let end = 4 + raw[2] + 256 * raw[3];
    let body = wire::payload(raw);
    assert(body =~= raw.subrange(4, end));
    assert(body.skip(1) =~= raw.subrange(5, end));
    if end >= 9 {
        assert(body.skip(5) =~= raw.subrange(9, end));
    }
}

} // verus!
