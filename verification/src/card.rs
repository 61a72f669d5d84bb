//! Card states and card readouts, and how they are read from message payloads.
use vstd::prelude::*;
use vstd::slice::slice_subrange;
use crate::owner;
use crate::wire;

verus! {

/// One record of a card.
#[derive(Debug, PartialEq)]
pub struct Punch {
    pub control_info: u8,
    /// 1 = Clear, 2 = Check, 3 = Start, 5 = Finish, 7 = Control.
    pub punch_type: u8,
    pub control_code: u16,
    /// Milliseconds since Sunday 00:00:00.000.
    pub time_ms: u32,
}

/// The contents of a card.
#[derive(Debug, PartialEq)]
pub struct CardReadout {
    pub card_number: u32,
    /// 1 = SI-Card9, 2 = SI-Card8, 4 = SI-pCard, 15 = SIAC.
    pub card_family: u8,
    pub punches: Vec<Punch>,
    /// "First Last", or `None` if nobody is registered.
    pub owner: Option<String>,
}

/// A card that was put in or taken out.
#[derive(Debug, PartialEq)]
pub struct CardState {
    pub card_number: u32,
    /// 1 = inserted, 0 = removed.
    pub state: u8,
    pub code_number: u16,
}

/// The contents of a [`CardReadout`].
#[verifier::ext_equal]
pub struct CardReadoutView {
    pub card_number: u32,
    pub card_family: u8,
    pub punches: Seq<Punch>,
    pub owner: Option<Seq<char>>,
}

impl View for CardReadout {
    type V = CardReadoutView;

    open spec fn view(&self) -> CardReadoutView {
        CardReadoutView {
            card_number: self.card_number,
            card_family: self.card_family,
            punches: self.punches@,
            owner: owner::optional_text(self.owner),
        }
    }
}

/// The number of bytes of a card state payload.
pub const STATE_LEN: usize = 7;

/// The number of bytes before the punches of a readout payload.
pub const READOUT_HEAD_LEN: usize = 7;

/// The number of bytes of one punch.
pub const PUNCH_LEN: usize = 8;

/// The card state that the payload `p` tells.
pub open spec fn card_state_of(p: Seq<u8>) -> Option<CardState> {
    if p.len() < STATE_LEN {
        None
    } else {
        Some(
            CardState {
                card_number: wire::le_u32(p, 0) as u32,
                state: p[4],
                code_number: wire::le_u16(p, 5) as u16,
            },
        )
    }
}

/// The punch at offset `at` of the payload `p`.
pub open spec fn punch_at(p: Seq<u8>, at: int) -> Punch {
    Punch {
        control_info: p[at],
        punch_type: p[at + 1],
        control_code: wire::le_u16(p, at + 2) as u16,
        time_ms: wire::le_u32(p, at + 4) as u32,
    }
}

/// The offset of the first byte behind the punches of the readout payload `p`.
pub open spec fn punches_end(p: Seq<u8>) -> int {
    READOUT_HEAD_LEN + PUNCH_LEN * wire::le_u16(p, 5)
}

/// The card contents that the readout payload `p` tells.
pub open spec fn card_readout_of(p: Seq<u8>) -> Option<CardReadoutView> {
    if p.len() < READOUT_HEAD_LEN || p.len() < punches_end(p) {
        None
    } else {
        Some(
            CardReadoutView {
                card_number: wire::le_u32(p, 0) as u32,
                card_family: p[4],
                punches: Seq::new(
                    wire::le_u16(p, 5) as nat,
                    |i: int| punch_at(p, READOUT_HEAD_LEN + PUNCH_LEN * i),
                ),
                owner: owner::owner_of_block(p.skip(punches_end(p))),
            },
        )
    }
}

/// The contents of an optional readout.
pub open spec fn optional_readout(r: Option<CardReadout>) -> Option<CardReadoutView> {
    match r {
        Some(r) => Some(r@),
        None => None,
    }
}

/// Parses the payload of a card state change: card number (32 bits), state, and the control code of
/// the station (16 bits). A shorter payload gives `None`.
pub fn parse_card_state(p: &[u8]) -> (r: Option<CardState>)
    ensures
        r == card_state_of(p@),
        r is Some <==> p@.len() >= 7,
        r matches Some(s) ==> {
            &&& s.card_number == p@[0] + 256 * (p@[1] + 256 * (p@[2] + 256 * p@[3]))
            &&& s.state == p@[4]
            &&& s.code_number == p@[5] + 256 * p@[6]
        },
{
    if p.len() < STATE_LEN {
        return None;
    }
    Some(
        CardState {
            card_number: wire::read_u32(p, 0),
            state: p[4],
            code_number: wire::read_u16(p, 5),
        },
    )
}

/// Parses the payload of a card readout, minimal or complete: card number (32 bits), card family,
/// number of punches (16 bits), the punches, and an optional owner block. A payload that is too
/// short for its punches gives `None`.
pub fn parse_card_readout(p: &[u8]) -> (r: Option<CardReadout>)
    ensures
        optional_readout(r) == card_readout_of(p@),
        r matches Some(readout) ==> owner::agrees_with_block(
            p@.skip(punches_end(p@)),
            owner::optional_text(readout.owner),
        ),
        r is Some <==> p@.len() >= 7 && p@.len() >= 7 + 8 * (p@[5] + 256 * p@[6]),
        r matches Some(readout) ==> {
            &&& readout.card_number == p@[0] + 256 * (p@[1] + 256 * (p@[2] + 256 * p@[3]))
            &&& readout.card_family == p@[4]
            &&& readout.punches@.len() == p@[5] + 256 * p@[6]
            &&& forall|i: int|
                0 <= i < readout.punches@.len() ==> {
                    let x = #[trigger] readout.punches@[i];
                    let o = 7 + 8 * i;
                    &&& x.control_info == p@[o]
                    &&& x.punch_type == p@[o + 1]
                    &&& x.control_code == p@[o + 2] + 256 * p@[o + 3]
                    &&& x.time_ms == p@[o + 4] + 256 * (p@[o + 5] + 256 * (p@[o + 6] + 256 * p@[o
                        + 7]))
                }
            &&& owner::optional_text(readout.owner) == owner::owner_of_block(
                p@.skip(7 + 8 * (p@[5] + 256 * p@[6])),
            )
        },
{
    proof {
        law_readout_layout(p@);
    }
    if p.len() < READOUT_HEAD_LEN {
        return None;
    }
    let count: usize = wire::read_u16(p, 5) as usize;
    let end: usize = READOUT_HEAD_LEN + count * PUNCH_LEN;
    if p.len() < end {
        return None;
    }
    let mut punches: Vec<Punch> = Vec::with_capacity(count);
    let mut i: usize = 0;
    while i < count
        invariant
            i <= count,
            count <= u16::MAX,
            end == READOUT_HEAD_LEN + PUNCH_LEN * count,
            end <= p@.len(),
            punches@ == Seq::new(
                i as nat,
                |k: int| punch_at(p@, READOUT_HEAD_LEN + PUNCH_LEN * k),
            ),
        decreases count - i,
    {
        let at: usize = READOUT_HEAD_LEN + i * PUNCH_LEN;
        punches.push(
            Punch {
                control_info: p[at],
                punch_type: p[at + 1],
                control_code: wire::read_u16(p, at + 2),
                time_ms: wire::read_u32(p, at + 4),
            },
        );
        i = i + 1;
    }
    let block = slice_subrange(p, end, p.len());
    assert(block@ =~= p@.skip(end as int));
    let owner: Option<String> = owner::parse_owner(block);
    Some(
        CardReadout {
            card_number: wire::read_u32(p, 0),
            card_family: p[4],
            punches,
            owner,
        },
    )
}

/// The payload that tells the card state `s`.
pub open spec fn card_state_bytes(s: CardState) -> Seq<u8> {
    wire::u32_bytes(s.card_number as int) + seq![s.state] + wire::u16_bytes(s.code_number as int)
}

/// The bytes of the punch `x`.
pub open spec fn punch_bytes(x: Punch) -> Seq<u8> {
    seq![x.control_info, x.punch_type] + wire::u16_bytes(x.control_code as int)
        + wire::u32_bytes(x.time_ms as int)
}

/// The bytes of the punches one after the other.
pub open spec fn punches_bytes(punches: Seq<Punch>) -> Seq<u8> {
    Seq::new(
        PUNCH_LEN as nat * punches.len(),
        |j: int| punch_bytes(punches[j / PUNCH_LEN as int])[j % PUNCH_LEN as int],
    )
}

/// The bytes before the owner block of the readout with the given contents.
pub open spec fn readout_bytes(card_number: u32, card_family: u8, punches: Seq<Punch>) -> Seq<u8> {
    wire::u32_bytes(card_number as int) + seq![card_family] + wire::u16_bytes(punches.len() as int)
        + punches_bytes(punches)
}

/// A card state is read back from its payload, whatever follows it.
pub proof fn law_card_state_reads_back(s: CardState, after: Seq<u8>)
    ensures
        card_state_of(card_state_bytes(s) + after) == Some(s),
{
    let p = card_state_bytes(s) + after;
    let number = wire::u32_bytes(s.card_number as int);
    let code = wire::u16_bytes(s.code_number as int);
    assert(p =~= Seq::<u8>::empty() + number + (seq![s.state] + code + after));
    wire::law_u32_reads_back(s.card_number, Seq::<u8>::empty(), seq![s.state] + code + after);
    assert(p =~= (number + seq![s.state]) + code + after);
    wire::law_u16_reads_back(s.code_number, number + seq![s.state], after);
    assert(p[4] == s.state);
}

/// A punch is read back from its bytes, wherever they stand.
proof fn lemma_punch_reads_back(p: Seq<u8>, at: int, x: Punch)
    requires
        forall|k: int| 0 <= k < PUNCH_LEN ==> #[trigger] p[at + k] == punch_bytes(x)[k],
    ensures
        punch_at(p, at) == x,
{
    let bytes = punch_bytes(x);
    let lead = seq![x.control_info, x.punch_type] + wire::u16_bytes(x.control_code as int);
    let time = wire::u32_bytes(x.time_ms as int);
    wire::law_u16_reads_back(x.control_code, seq![x.control_info, x.punch_type], time);
    assert(bytes =~= lead + time + seq![]);
    wire::law_u32_reads_back(x.time_ms, lead, seq![]);
    assert(p[at + 0] == bytes[0]);
    assert(p[at + 1] == bytes[1]);
    assert(p[at + 2] == bytes[2]);
    assert(p[at + 3] == bytes[3]);
    assert(p[at + 4] == bytes[4]);
    assert(p[at + 5] == bytes[5]);
    assert(p[at + 6] == bytes[6]);
    assert(p[at + 7] == bytes[7]);
}

/// Card contents are read back from a readout payload, and the owner is what the bytes behind the
/// punches tell.
pub proof fn law_readout_reads_back(
    card_number: u32,
    card_family: u8,
    punches: Seq<Punch>,
    block: Seq<u8>,
)
    requires
        punches.len() <= u16::MAX,
    ensures
        card_readout_of(readout_bytes(card_number, card_family, punches) + block) == Some(
            CardReadoutView {
                card_number,
                card_family,
                punches,
                owner: owner::owner_of_block(block),
            },
        ),
{
    let number = wire::u32_bytes(card_number as int);
    let count = wire::u16_bytes(punches.len() as int);
    let body = punches_bytes(punches);
    let p = readout_bytes(card_number, card_family, punches) + block;
    let before = Seq::<u8>::empty();
    assert(p =~= before + number + (seq![card_family] + count + body + block));
    wire::law_u32_reads_back(card_number, before, seq![card_family] + count + body + block);
    assert(p =~= (number + seq![card_family]) + count + (body + block));
    wire::law_u16_reads_back(punches.len() as u16, number + seq![card_family], body + block);
    assert(p[4] == card_family);
    assert(p.skip(punches_end(p)) =~= block);
    assert forall|i: int| 0 <= i < punches.len() implies punch_at(
        p,
        READOUT_HEAD_LEN + PUNCH_LEN * i,
    ) == #[trigger] punches[i] by {
        let x = punches[i];
        let bytes = punch_bytes(x);
        let at = READOUT_HEAD_LEN + PUNCH_LEN * i;
        assert forall|k: int| 0 <= k < PUNCH_LEN implies #[trigger] p[at + k] == bytes[k] by {
            let j = PUNCH_LEN * i + k;
            assert(j / PUNCH_LEN as int == i && j % PUNCH_LEN as int == k);
            assert(p[at + k] == body[j]);
        }
        lemma_punch_reads_back(p, at, x);
    }
    assert(card_readout_of(p)->0.punches =~= punches);
}

/// A readout payload that ends before its last punch does is rejected.
pub proof fn law_cut_readout_is_rejected(
    card_number: u32,
    card_family: u8,
    punches: Seq<Punch>,
    len: int,
)
    requires
        punches.len() <= u16::MAX,
        0 <= len < readout_bytes(card_number, card_family, punches).len(),
    ensures
        card_readout_of(readout_bytes(card_number, card_family, punches).take(len)) == None::<
            CardReadoutView,
        >,
{
    let whole = readout_bytes(card_number, card_family, punches);
    let number = wire::u32_bytes(card_number as int);
    assert(whole =~= (number + seq![card_family]) + wire::u16_bytes(punches.len() as int)
        + punches_bytes(punches));
    wire::law_u16_reads_back(
        punches.len() as u16,
        number + seq![card_family],
        punches_bytes(punches),
    );
}

/// A card state takes seven bytes: the card number in four with the least significant one first,
/// the state, and the station in two. What has fewer bytes is none.
pub proof fn law_card_state_layout(p: Seq<u8>)
    ensures
        card_state_of(p) is Some <==> p.len() >= 7,
        card_state_of(p) matches Some(s) ==> {
            &&& s.card_number == p[0] + 256 * (p[1] + 256 * (p[2] + 256 * p[3]))
            &&& s.state == p[4]
            &&& s.code_number == p[5] + 256 * p[6]
        },
{
}

/// A readout takes seven bytes for the card number, the family and the number of punches, and eight
/// for each punch: its control information, its type, its control code in two bytes and its time in
/// four. What has fewer bytes is none; what follows tells the owner.
pub proof fn law_readout_layout(p: Seq<u8>)
    ensures
        card_readout_of(p) is Some <==> p.len() >= 7 && p.len() >= 7 + 8 * (p[5] + 256 * p[6]),
        card_readout_of(p) matches Some(readout) ==> {
            &&& readout.card_number == p[0] + 256 * (p[1] + 256 * (p[2] + 256 * p[3]))
            &&& readout.card_family == p[4]
            &&& readout.punches.len() == p[5] + 256 * p[6]
            &&& forall|i: int|
                0 <= i < readout.punches.len() ==> {
                    let x = #[trigger] readout.punches[i];
                    let o = 7 + 8 * i;
                    &&& x.control_info == p[o]
                    &&& x.punch_type == p[o + 1]
                    &&& x.control_code == p[o + 2] + 256 * p[o + 3]
                    &&& x.time_ms == p[o + 4] + 256 * (p[o + 5] + 256 * (p[o + 6] + 256 * p[o + 7]))
                }
            &&& readout.owner == owner::owner_of_block(p.skip(7 + 8 * (p[5] + 256 * p[6])))
        },
{
}

/// The view of a readout holds its fields.
pub proof fn law_readout_view(r: CardReadout)
    ensures
        r@.card_number == r.card_number,
        r@.card_family == r.card_family,
        r@.punches == r.punches@,
        r@.owner is Some <==> r.owner is Some,
        r.owner matches Some(owner) ==> r@.owner == Some(owner@),
{
}

} // verus!
