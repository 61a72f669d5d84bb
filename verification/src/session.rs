//! The notifications of a connected reader.
use std::collections::HashMap;
use vstd::prelude::*;
use crate::message;
use crate::message::Report;
use crate::reassembly;
use crate::reassembly::{Reassembler, Reception};
use crate::text;
use crate::wire;

verus! {

/// The line that reports segments that do not have the announced length.
pub open spec fn mismatch_text(got: int, expected: int) -> Seq<char> {
    "reassembly length mismatch: got "@ + text::decimal(got as nat) + " expected "@
        + text::decimal(expected as nat)
}

/// What a reception makes the client show.
pub open spec fn reception_report(r: reassembly::ReceptionView) -> message::ReportView {
    match r {
        reassembly::ReceptionView::Pending => message::ReportView::Nothing,
        reassembly::ReceptionView::Message(m) => message::message_report(m),
        reassembly::ReceptionView::LengthMismatch { got, expected } => {
            message::ReportView::Diagnostic(mismatch_text(got, expected))
        },
    }
}

/// The reassembly of the characteristic `id`: that of a fresh one if it never sent anything.
pub open spec fn assembly_of(session: Map<u128, reassembly::Assembly>, id: u128)
    -> reassembly::Assembly {
    if session.contains_key(id) {
        session[id]
    } else {
        reassembly::Assembly::initial()
    }
}

/// The reassemblies after the characteristic `id` sent the notification `value`.
pub open spec fn session_after(
    session: Map<u128, reassembly::Assembly>,
    id: u128,
    value: Seq<u8>,
) -> Map<u128, reassembly::Assembly> {
    session.insert(id, assembly_of(session, id).next(value))
}

/// What the client shows when the characteristic `id` sends the notification `value`.
pub open spec fn notification_report(
    session: Map<u128, reassembly::Assembly>,
    id: u128,
    value: Seq<u8>,
) -> message::ReportView {
    reception_report(assembly_of(session, id).reception(value))
}

/// Returns what a reception makes the client show.
pub fn report_reception(reception: Reception) -> (r: Report)
    ensures
        r@ == reception_report(reception@),
        reception@ matches reassembly::ReceptionView::Message(m) ==> message::shows_owner_of_block(
            m,
        ),
        match r {
            Report::Nothing => reception_report(reception@) is Nothing,
            Report::Output(lines) => reception_report(reception@) == message::ReportView::Output(
                Seq::new(lines@.len(), |i: int| lines@[i]@),
            ),
            Report::Diagnostic(line) => reception_report(reception@) == message::ReportView::Diagnostic(
                line@,
            ),
        },
{
    match reception {
        Reception::Pending => Report::Nothing,
        Reception::Message(data) => message::handle_message(data.as_slice()),
        Reception::LengthMismatch { got, expected } => {
            let mut line: String = "reassembly length mismatch: got ".to_owned();
            text::push_decimal(&mut line, got as u64);
            line.append(" expected ");
            text::push_decimal(&mut line, expected as u64);
            Report::Diagnostic(line)
        },
    }
}

/// The reassemblies of all characteristics that have sent something, by the characteristics' ids.
pub struct Session {
    reassemblers: HashMap<u128, Reassembler>,
}

impl View for Session {
    type V = Map<u128, reassembly::Assembly>;

    closed spec fn view(&self) -> Map<u128, reassembly::Assembly> {
        self.reassemblers@.map_values(|r: Reassembler| r@)
    }
}

impl Default for Session {
    fn default() -> (r: Session)
        ensures
            r@ == Map::<u128, reassembly::Assembly>::empty(),
    {
        let r = Session { reassemblers: HashMap::new() };
        assert(r@ =~= Map::<u128, reassembly::Assembly>::empty());
        r
    }
}

impl Session {
    /// Takes in the notification `value` of the characteristic `id` and returns what it makes the
    /// client show.
    pub fn on_notification(&mut self, id: u128, value: &[u8]) -> (r: Report)
        ensures
            final(self)@ == session_after(old(self)@, id, value@),
            r@ == notification_report(old(self)@, id, value@),
            assembly_of(old(self)@, id).reception(value@) matches reassembly::ReceptionView::Message(
                m,
            ) ==> message::shows_owner_of_block(m),
            match r {
                Report::Nothing => notification_report(old(self)@, id, value@) is Nothing,
                Report::Output(lines) => notification_report(old(self)@, id, value@) == message::ReportView::Output(
                    Seq::new(lines@.len(), |i: int| lines@[i]@),
                ),
                Report::Diagnostic(line) => notification_report(old(self)@, id, value@) == message::ReportView::Diagnostic(
                    line@,
                ),
            },
    {
        broadcast use vstd::std_specs::hash::group_hash_axioms;

        let mut reassembler: Reassembler = match self.reassemblers.remove(&id) {
            Some(reassembler) => reassembler,
            None => Reassembler::default(),
        };
        assert(reassembler@ == assembly_of(old(self)@, id));
        let reception: Reception = reassembler.receive(value);
        self.reassemblers.insert(id, reassembler);
        assert(self@ =~= session_after(old(self)@, id, value@));
        report_reception(reception)
    }
}

/// What one characteristic sends has no influence on what is shown for another one.
pub proof fn law_characteristics_are_independent(
    session: Map<u128, reassembly::Assembly>,
    id: u128,
    value: Seq<u8>,
    other: u128,
    other_value: Seq<u8>,
)
    requires
        id != other,
    ensures
        notification_report(session_after(session, id, value), other, other_value)
            == notification_report(session, other, other_value),
        assembly_of(session_after(session, id, value), other) == assembly_of(session, other),
{
}

/// The order in which two characteristics send has no influence on the session.
pub proof fn law_notifications_commute(
    session: Map<u128, reassembly::Assembly>,
    id: u128,
    value: Seq<u8>,
    other: u128,
    other_value: Seq<u8>,
)
    requires
        id != other,
    ensures
        session_after(session_after(session, id, value), other, other_value) == session_after(
            session_after(session, other, other_value),
            id,
            value,
        ),
{
    assert(session_after(session_after(session, id, value), other, other_value) =~= session_after(
        session_after(session, other, other_value),
        id,
        value,
    ));
}

/// The reassemblies after the characteristic `id` sent all of `values`, one after the other.
pub open spec fn session_after_all(
    session: Map<u128, reassembly::Assembly>,
    id: u128,
    values: Seq<Seq<u8>>,
) -> Map<u128, reassembly::Assembly>
    decreases values.len(),
{
    if values.len() == 0 {
        session
    } else {
        session_after(session_after_all(session, id, values.drop_last()), id, values.last())
    }
}

proof fn lemma_session_after_all(
    session: Map<u128, reassembly::Assembly>,
    id: u128,
    values: Seq<Seq<u8>>,
)
    ensures
        assembly_of(session_after_all(session, id, values), id) == assembly_of(session, id).after(
            values,
        ),
    decreases values.len(),
{
    if values.len() > 0 {
        lemma_session_after_all(session, id, values.drop_last());
    }
}

/// A message that arrives in segments is shown as it would be shown in one piece: nothing is shown
/// until the last segment is there, and then what the message itself makes the client show.
pub proof fn law_segmented_message_is_shown_whole(
    session: Map<u128, reassembly::Assembly>,
    id: u128,
    head: Seq<u8>,
    middle: Seq<Seq<u8>>,
    tail: Seq<u8>,
)
    requires
        head.len() + 5 <= u16::MAX,
        forall|i: int| 0 <= i < middle.len() ==> (#[trigger] middle[i]).len() + 1 <= u16::MAX,
        tail.len() + 1 <= u16::MAX,
        (head + reassembly::joined(middle) + tail).len() <= u32::MAX,
    ensures
        ({
            let whole = head + reassembly::joined(middle) + tail;
            let opening = reassembly::opening_packets(whole.len() as u32, head, middle);
            &&& forall|k: int|
                0 <= k < opening.len() ==> notification_report(
                    session_after_all(session, id, opening.take(k)),
                    id,
                    #[trigger] opening[k],
                ) == message::ReportView::Nothing
            &&& notification_report(
                session_after_all(session, id, opening),
                id,
                reassembly::last_packet(tail),
            ) == message::message_report(whole)
        }),
{
    let whole = head + reassembly::joined(middle) + tail;
    let total = whole.len() as u32;
    let opening = reassembly::opening_packets(total, head, middle);
    let start = assembly_of(session, id);
    reassembly::law_segments_are_reassembled(start, total, head, middle, tail);
    lemma_session_after_all(session, id, opening);
    assert forall|k: int| 0 <= k < opening.len() implies notification_report(
        session_after_all(session, id, opening.take(k)),
        id,
        #[trigger] opening[k],
    ) == message::ReportView::Nothing by {
        lemma_session_after_all(session, id, opening.take(k));
        assert(start.after(opening.take(k)).reception(opening[k])
            == reassembly::ReceptionView::Pending);
    }
}

/// A message that is not a wrapper is shown at once, whatever was received before.
pub proof fn law_plain_message_is_shown(
    session: Map<u128, reassembly::Assembly>,
    id: u128,
    message_id: u16,
    body: Seq<u8>,
)
    requires
        message_id != reassembly::MSG_WRAPPER,
        body.len() <= u16::MAX,
    ensures
        notification_report(session, id, wire::framed(message_id, body))
            == message::payload_report(message_id as int, body),
        assembly_of(session_after(session, id, wire::framed(message_id, body)), id) == assembly_of(
            session,
            id,
        ),
{
    let data = wire::framed(message_id, body);
    assert(data + seq![] =~= data);
    reassembly::law_plain_message_passes_through(
        assembly_of(session, id),
        message_id,
        body,
        seq![],
    );
    message::law_report_ignores_what_follows(message_id, body, seq![]);
}

/// What a notification makes the client show is settled by the reassembly of its characteristic:
/// nothing while a message is incomplete, what the message shows when it is there, and both lengths
/// if they do not agree.
pub proof fn law_notification_shows_what_is_received(
    session: Map<u128, reassembly::Assembly>,
    id: u128,
    value: Seq<u8>,
    got: Seq<char>,
    expected: Seq<char>,
)
    requires
        assembly_of(session, id).reception(value) matches reassembly::ReceptionView::LengthMismatch {
            got: g,
            expected: e,
        } ==> text::writes(got, g) && text::writes(expected, e),
    ensures
        match assembly_of(session, id).reception(value) {
            reassembly::ReceptionView::Pending => notification_report(session, id, value)
                == message::ReportView::Nothing,
            reassembly::ReceptionView::Message(m) => notification_report(session, id, value)
                == message::message_report(m),
            reassembly::ReceptionView::LengthMismatch { got: g, expected: e } =>
            notification_report(session, id, value) == message::ReportView::Diagnostic(
                "reassembly length mismatch: got "@ + got + " expected "@ + expected,
            ),
        },
{
    if let reassembly::ReceptionView::LengthMismatch { got: g, expected: e } = assembly_of(
        session,
        id,
    ).reception(value) {
        text::law_decimal_writes(g as nat);
        text::law_decimal_writes(e as nat);
        text::law_one_way_to_write(got, text::decimal(g as nat), g);
        text::law_one_way_to_write(expected, text::decimal(e as nat), e);
    }
}

/// A notification takes the reassembly of its characteristic one step on, from an empty one if the
/// characteristic never sent anything, and leaves all others as they are.
pub proof fn law_notification_steps_one_reassembly(
    session: Map<u128, reassembly::Assembly>,
    id: u128,
    value: Seq<u8>,
)
    ensures
        session_after(session, id, value).contains_key(id),
        session.contains_key(id) ==> session_after(session, id, value)[id] == session[id].next(
            value,
        ),
        !session.contains_key(id) ==> session_after(session, id, value)[id] == (
        reassembly::Assembly { gathered: seq![], expected: 0 }).next(value),
        forall|other: u128|
            other != id ==> session_after(session, id, value).contains_key(other)
                == session.contains_key(other),
        forall|other: u128|
            other != id && session.contains_key(other) ==> #[trigger] session_after(
                session,
                id,
                value,
            )[other] == session[other],
        session.contains_key(id) ==> assembly_of(session, id) == session[id],
        !session.contains_key(id) ==> assembly_of(session, id) == (reassembly::Assembly {
            gathered: seq![],
            expected: 0,
        }),
{
}

} // verus!
