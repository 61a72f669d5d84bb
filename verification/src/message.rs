//! What a message of the reader makes the client show.
use vstd::prelude::*;
use vstd::slice::slice_subrange;
use crate::card;
use crate::display;
use crate::owner;
use crate::setup;
use crate::text;
use crate::wire;

verus! {

/// The id of a card state change.
pub const MSG_CARD_STATE: u16 = 0x1101;

/// The id of a card readout with minimal data.
pub const MSG_CARD_MINIMAL: u16 = 0x1102;

/// The id of a card readout with complete data.
pub const MSG_CARD_COMPLETE: u16 = 0x1103;

/// What is to be shown.
pub enum Report {
    /// Nothing.
    Nothing,
    /// Lines on the standard output.
    Output(Vec<String>),
    /// A line on the standard error stream.
    Diagnostic(String),
}

/// The contents of a [`Report`].
pub enum ReportView {
    Nothing,
    Output(Seq<Seq<char>>),
    Diagnostic(Seq<char>),
}

impl View for Report {
    type V = ReportView;

    open spec fn view(&self) -> ReportView {
        match *self {
            Report::Nothing => ReportView::Nothing,
            Report::Output(lines) => ReportView::Output(text::texts(lines@)),
            Report::Diagnostic(line) => ReportView::Diagnostic(line@),
        }
    }
}

/// The message id `id` in hexadecimal.
pub open spec fn id_text(id: int) -> Seq<char> {
    text::hexadecimal(id as nat, 4, true)
}

/// The line that reports a message that ends before its payload does.
pub open spec fn truncated_text(id: int) -> Seq<char> {
    "message truncated (id=0x"@ + id_text(id) + ")"@
}

/// The line that reports a message of an unknown kind with `len` payload bytes.
pub open spec fn unknown_text(id: int, len: int) -> Seq<char> {
    "[unknown msg 0x"@ + id_text(id) + ", "@ + text::decimal(len as nat) + " payload bytes]"@
}

/// What the message with the given id and payload makes the client show.
pub open spec fn payload_report(id: int, body: Seq<u8>) -> ReportView {
    if id == MSG_CARD_STATE {
        match card::card_state_of(body) {
            Some(s) => ReportView::Output(seq![display::card_state_text(s)]),
            None => ReportView::Nothing,
        }
    } else if id == MSG_CARD_MINIMAL || id == MSG_CARD_COMPLETE {
        match card::card_readout_of(body) {
            Some(r) => ReportView::Output(display::card_readout_texts(r)),
            None => ReportView::Diagnostic("truncated card readout payload"@),
        }
    } else {
        ReportView::Output(seq![unknown_text(id, body.len() as int)])
    }
}

/// What the message `data` makes the client show.
pub open spec fn message_report(data: Seq<u8>) -> ReportView {
    if data.len() < wire::HEADER_LEN {
        ReportView::Nothing
    } else if !wire::is_complete(data) {
        ReportView::Diagnostic(truncated_text(wire::message_id(data)))
    } else {
        payload_report(wire::message_id(data), wire::payload(data))
    }
}

/// Whether the owner that is shown for the message `data` agrees with the bytes that tell it, if
/// the message is a card readout.
pub open spec fn shows_owner_of_block(data: Seq<u8>) -> bool {
    let body = wire::payload(data);
    let block = body.skip(card::punches_end(body));
    wire::is_complete(data) && (wire::message_id(data) == MSG_CARD_MINIMAL || wire::message_id(data)
        == MSG_CARD_COMPLETE) && card::card_readout_of(body) is Some
        ==> owner::agrees_with_block(block, owner::owner_of_block(block))
}

/// Returns what the message `data` makes the client show.
pub fn handle_message(data: &[u8]) -> (r: Report)
    ensures
        r@ == message_report(data@),
        shows_owner_of_block(data@),
        match r {
            Report::Nothing => message_report(data@) is Nothing,
            Report::Output(lines) => message_report(data@) == ReportView::Output(
                Seq::new(lines@.len(), |i: int| lines@[i]@),
            ),
            Report::Diagnostic(line) => message_report(data@) == ReportView::Diagnostic(line@),
        },
{
    if data.len() < wire::HEADER_LEN {
        return Report::Nothing;
    }
    let id: u16 = wire::read_u16(data, 0);
    let len: usize = wire::read_u16(data, 2) as usize;
    if data.len() - wire::HEADER_LEN < len {
        let mut line: String = "message truncated (id=0x".to_owned();
        text::push_hex(&mut line, id as u64, 4);
        line.append(")");
        return Report::Diagnostic(line);
    }
    let body = slice_subrange(data, wire::HEADER_LEN, wire::HEADER_LEN + len);
    match id {
        MSG_CARD_STATE => match card::parse_card_state(body) {
            Some(s) => one_line(display::card_state_line(&s)),
            None => Report::Nothing,
        },
        MSG_CARD_MINIMAL | MSG_CARD_COMPLETE => match card::parse_card_readout(body) {
            Some(r) => Report::Output(display::card_readout_lines(&r)),
            None => Report::Diagnostic("truncated card readout payload".to_owned()),
        },
        _ => {
            let mut line: String = "[unknown msg 0x".to_owned();
            text::push_hex(&mut line, id as u64, 4);
            line.append(", ");
            text::push_decimal(&mut line, len as u64);
            line.append(" payload bytes]");
            one_line(line)
        },
    }
}

/// Reports one line on the standard output.
fn one_line(line: String) -> (r: Report)
    ensures
        r@ == ReportView::Output(seq![line@]),
{
    let mut lines: Vec<String> = Vec::new();
    lines.push(line);
    assert(text::texts(lines@) =~= seq![line@]);
    Report::Output(lines)
}

/// The bytes behind the payload of a message have no influence on what is shown.
pub proof fn law_report_ignores_what_follows(id: u16, body: Seq<u8>, after: Seq<u8>)
    requires
        body.len() <= u16::MAX,
    ensures
        message_report(wire::framed(id, body) + after) == payload_report(id as int, body),
{
    wire::law_framed_reads_back(id, body, after);
}

/// Every card state that is sent is shown, in one line.
pub proof fn law_card_state_is_shown(s: card::CardState, after: Seq<u8>)
    requires
        card::card_state_bytes(s).len() + after.len() <= u16::MAX,
    ensures
        message_report(wire::framed(MSG_CARD_STATE, card::card_state_bytes(s) + after))
            == ReportView::Output(seq![display::card_state_text(s)]),
{
    let body = card::card_state_bytes(s) + after;
    law_report_ignores_what_follows(MSG_CARD_STATE, body, seq![]);
    assert(wire::framed(MSG_CARD_STATE, body) + seq![] =~= wire::framed(MSG_CARD_STATE, body));
    card::law_card_state_reads_back(s, after);
}

/// All card contents that are sent are shown, with every punch in order, whether the message is
/// one with minimal or with complete data.
pub proof fn law_card_readout_is_shown(
    id: u16,
    card_number: u32,
    card_family: u8,
    punches: Seq<card::Punch>,
    block: Seq<u8>,
)
    requires
        id == MSG_CARD_MINIMAL || id == MSG_CARD_COMPLETE,
        card::readout_bytes(card_number, card_family, punches).len() + block.len() <= u16::MAX,
    ensures
        message_report(
            wire::framed(id, card::readout_bytes(card_number, card_family, punches) + block),
        ) == ReportView::Output(
            display::card_readout_texts(
                card::CardReadoutView {
                    card_number,
                    card_family,
                    punches,
                    owner: owner::owner_of_block(block),
                },
            ),
        ),
{
    let body = card::readout_bytes(card_number, card_family, punches) + block;
    law_report_ignores_what_follows(id, body, seq![]);
    assert(wire::framed(id, body) + seq![] =~= wire::framed(id, body));
    card::law_readout_reads_back(card_number, card_family, punches, block);
}

/// Whether `s` writes the message id `id` in four capital hexadecimal digits.
pub open spec fn writes_id(s: Seq<char>, id: int) -> bool {
    &&& s.len() == 4
    &&& forall|i: int| 0 <= i < 4 ==> '0' <= #[trigger] s[i] <= '9' || 'A' <= s[i] <= 'F'
    &&& setup::hex_number(s) == Some(id as nat)
}

proof fn lemma_id_text(s: Seq<char>, id: int)
    requires
        0 <= id <= u16::MAX,
        writes_id(s, id),
    ensures
        s == id_text(id),
{
    setup::law_hex_id(id as u16);
    setup::law_one_way_to_write_hex(s, id_text(id));
}

/// Every message id is written in four capital hexadecimal digits that make up the id.
pub proof fn law_id_is_written(id: u16)
    ensures
        writes_id(id_text(id as int), id as int),
{
    setup::law_hex_id(id);
}

/// What a message without a whole header or payload makes the client show: nothing without a
/// header, and a line with its id if the payload is cut short.
pub proof fn law_cut_message_is_reported(data: Seq<u8>, id: Seq<char>)
    requires
        data.len() >= 4 ==> data.len() < 4 + data[2] + 256 * data[3],
        data.len() >= 4 ==> writes_id(id, data[0] + 256 * data[1]),
    ensures
        data.len() < 4 ==> message_report(data) == ReportView::Nothing,
        data.len() >= 4 ==> message_report(data) == ReportView::Diagnostic(
            "message truncated (id=0x"@ + id + ")"@,
        ),
{
    if data.len() >= 4 {
        lemma_id_text(id, data[0] + 256 * data[1]);
    }
}

/// What a whole message makes the client show, by its id: 0x1101 the card state, 0x1102 and 0x1103
/// the card readout, and any other id a line with the id and the number of payload bytes.
pub proof fn law_whole_message_is_shown(data: Seq<u8>, id: Seq<char>, len: Seq<char>)
    requires
        data.len() >= 4,
        data.len() >= 4 + data[2] + 256 * data[3],
        writes_id(id, data[0] + 256 * data[1]),
        text::writes(len, data[2] + 256 * data[3]),
    ensures
        ({
            let kind = data[0] + 256 * data[1];
            let body = data.subrange(4, 4 + data[2] + 256 * data[3]);
            &&& kind == 0x1101 && body.len() < 7 ==> message_report(data) == ReportView::Nothing
            &&& kind == 0x1101 && body.len() >= 7 ==> message_report(data) == ReportView::Output(
                seq![
                    display::card_state_text(
                        card::CardState {
                            card_number: (body[0] + 256 * (body[1] + 256 * (body[2] + 256
                                * body[3]))) as u32,
                            state: body[4],
                            code_number: (body[5] + 256 * body[6]) as u16,
                        },
                    ),
                ],
            )
            &&& kind == 0x1102 || kind == 0x1103 ==> match card::card_readout_of(body) {
                Some(readout) => message_report(data) == ReportView::Output(
                    display::card_readout_texts(readout),
                ),
                None => message_report(data) == ReportView::Diagnostic(
                    "truncated card readout payload"@,
                ),
            }
            &&& kind < 0x1101 || kind > 0x1103 ==> message_report(data) == ReportView::Output(
                seq!["[unknown msg 0x"@ + id + ", "@ + len + " payload bytes]"@],
            )
        }),
{
    let kind = data[0] + 256 * data[1];
    let body = data.subrange(4, 4 + data[2] + 256 * data[3]);
    lemma_id_text(id, kind);
    text::law_decimal_writes((data[2] + 256 * data[3]) as nat);
    text::law_one_way_to_write(
        len,
        text::decimal((data[2] + 256 * data[3]) as nat),
        data[2] + 256 * data[3],
    );
    assert(wire::payload(data) =~= body);
}

} // verus!
