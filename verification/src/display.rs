//! The lines that show cards to the user.
use vstd::prelude::*;
use crate::card::{CardReadout, CardState, Punch};
use crate::card;
use crate::text;
use crate::time;

verus! {

/// The name of card family `f`.
pub open spec fn family_text(f: u8) -> Seq<char> {
    if f == 1 {
        "SI-Card9"@
    } else if f == 2 {
        "SI-Card8"@
    } else if f == 4 {
        "SI-pCard"@
    } else if f == 15 {
        "SIAC"@
    } else {
        "unknown"@
    }
}

/// The name of punch type `t`.
pub open spec fn punch_type_text(t: u8) -> Seq<char> {
    if t == 0 {
        "Undefined"@
    } else if t == 1 {
        "Clear"@
    } else if t == 2 {
        "Check"@
    } else if t == 3 {
        "Start"@
    } else if t == 4 {
        "StartReserve"@
    } else if t == 5 {
        "Finish"@
    } else if t == 6 {
        "FinishReserve"@
    } else if t == 7 {
        "Control"@
    } else {
        "?"@
    }
}

/// `n` in decimal at the right of a column of `width` characters.
pub open spec fn column(n: int, width: nat) -> Seq<char> {
    text::aligned_right(text::decimal(n as nat), width, ' ')
}

/// The line that shows a card state.
pub open spec fn card_state_text(s: CardState) -> Seq<char> {
    "Card "@ + column(s.card_number as int, 8) + "  station "@ + column(s.code_number as int, 3)
        + "  "@ + (if s.state == 1 {
        "INSERTED"@
    } else {
        "REMOVED"@
    })
}

/// The line around a card readout.
pub open spec fn thick_rule() -> Seq<char> {
    "━━━━━━━━━━━━━━━━━━━━━━━━━━━━━━━━━━━━━━━━━━━━━━━"@
}

/// The line between the parts of a card readout.
pub open spec fn thin_rule() -> Seq<char> {
    "───────────────────────────────────────────────"@
}

/// The line that shows the number and the family of a card.
pub open spec fn card_text(card_number: u32, card_family: u8) -> Seq<char> {
    " Card "@ + column(card_number as int, 8) + "   family: "@ + family_text(card_family)
}

/// The line that shows the punch `p`, the `number`th of its card.
pub open spec fn punch_text(number: int, p: Punch) -> Seq<char> {
    " "@ + column(number, 2) + ". "@ + text::aligned_left(punch_type_text(p.punch_type), 12)
        + "  ctrl "@ + column(p.control_code as int, 3) + "  "@ + time::time_text(p.time_ms as int)
}

/// The lines that show the owner of a card.
pub open spec fn owner_texts(owner: Option<Seq<char>>) -> Seq<Seq<char>> {
    match owner {
        Some(owner) => seq![thin_rule(), " Owner: "@ + owner],
        None => seq![],
    }
}

/// The lines that show the contents of a card.
pub open spec fn card_readout_texts(r: card::CardReadoutView) -> Seq<Seq<char>> {
    seq![thick_rule(), card_text(r.card_number, r.card_family), thin_rule()] + Seq::new(
        r.punches.len(),
        |i: int| punch_text(i + 1, r.punches[i]),
    ) + owner_texts(r.owner) + seq![thick_rule()]
}

/// Returns the name of card family `f`.
pub fn family_name(f: u8) -> (r: &'static str)
    ensures
        r@ == family_text(f),
        f == 1 ==> r@ == "SI-Card9"@,
        f == 2 ==> r@ == "SI-Card8"@,
        f == 4 ==> r@ == "SI-pCard"@,
        f == 15 ==> r@ == "SIAC"@,
        f != 1 && f != 2 && f != 4 && f != 15 ==> r@ == "unknown"@,
{
    match f {
        1 => "SI-Card9",
        2 => "SI-Card8",
        4 => "SI-pCard",
        15 => "SIAC",
        _ => "unknown",
    }
}

/// Returns the name of punch type `t`.
pub fn punch_type_name(t: u8) -> (r: &'static str)
    ensures
        r@ == punch_type_text(t),
        t == 0 ==> r@ == "Undefined"@,
        t == 1 ==> r@ == "Clear"@,
        t == 2 ==> r@ == "Check"@,
        t == 3 ==> r@ == "Start"@,
        t == 4 ==> r@ == "StartReserve"@,
        t == 5 ==> r@ == "Finish"@,
        t == 6 ==> r@ == "FinishReserve"@,
        t == 7 ==> r@ == "Control"@,
        t > 7 ==> r@ == "?"@,
{
    match t {
        0 => "Undefined",
        1 => "Clear",
        2 => "Check",
        3 => "Start",
        4 => "StartReserve",
        5 => "Finish",
        6 => "FinishReserve",
        7 => "Control",
        _ => "?",
    }
}

/// Appends `n` in decimal at the right of a column of `width` characters.
fn push_column(out: &mut String, n: u64, width: usize)
    ensures
        final(out)@ == old(out)@ + column(n as int, width as nat),
{
    proof {
        reveal_strlit(" ");
    }
    text::push_number(out, n, width, " ");
}

/// Returns the line that shows a card state.
pub fn card_state_line(s: &CardState) -> (r: String)
    ensures
        r@ == card_state_text(*s),
{
    let mut out: String = "Card ".to_owned();
    push_column(&mut out, s.card_number as u64, 8);
    out.append("  station ");
    push_column(&mut out, s.code_number as u64, 3);
    out.append("  ");
    out.append(
        if s.state == 1 {
            "INSERTED"
        } else {
            "REMOVED"
        },
    );
    out
}

/// Returns the line that shows the punch `p`, the `number`th of its card.
fn punch_line(number: usize, p: &Punch) -> (r: String)
    ensures
        r@ == punch_text(number as int, *p),
{
    let mut out: String = " ".to_owned();
    push_column(&mut out, number as u64, 2);
    out.append(". ");
    text::push_left(&mut out, punch_type_name(p.punch_type), 12);
    out.append("  ctrl ");
    push_column(&mut out, p.control_code as u64, 3);
    out.append("  ");
    out.append(time::format_time(p.time_ms).as_str());
    out
}

/// Appends the line `s`.
fn push_line(lines: &mut Vec<String>, s: String)
    ensures
        text::texts(final(lines)@) == text::texts(old(lines)@).push(s@),
{
    lines.push(s);
    assert(text::texts(lines@) =~= text::texts(old(lines)@).push(s@));
}

/// Returns the lines that show the contents of a card.
pub fn card_readout_lines(r: &CardReadout) -> (lines: Vec<String>)
    ensures
        text::texts(lines@) == card_readout_texts(r@),
        lines@.len() == 4 + r.punches@.len() + (if r.owner is Some {
            2int
        } else {
            0int
        }),
        lines@[1]@ == card_text(r.card_number, r.card_family),
        forall|i: int|
            0 <= i < r.punches@.len() ==> (#[trigger] lines@[3 + i])@ == punch_text(
                i + 1,
                r.punches@[i],
            ),
        r.owner matches Some(owner) ==> lines@[4 + r.punches@.len() as int]@ == " Owner: "@
            + owner@,
{
    let mut lines: Vec<String> = Vec::new();
    push_line(&mut lines, "━━━━━━━━━━━━━━━━━━━━━━━━━━━━━━━━━━━━━━━━━━━━━━━".to_owned());
    let mut head: String = " Card ".to_owned();
    push_column(&mut head, r.card_number as u64, 8);
    head.append("   family: ");
    head.append(family_name(r.card_family));
    push_line(&mut lines, head);
    push_line(&mut lines, "───────────────────────────────────────────────".to_owned());
    let ghost start = seq![thick_rule(), card_text(r.card_number, r.card_family), thin_rule()];
    assert(text::texts(lines@) =~= start);
    let mut i: usize = 0;
    while i < r.punches.len()
        invariant
            i <= r.punches@.len(),
            text::texts(lines@) =~= start + Seq::new(
                i as nat,
                |k: int| punch_text(k + 1, r.punches@[k]),
            ),
        decreases r.punches@.len() - i,
    {
        push_line(&mut lines, punch_line(i + 1, &r.punches[i]));
        i = i + 1;
    }
    if let Some(owner) = &r.owner {
        push_line(&mut lines, "───────────────────────────────────────────────".to_owned());
        let mut line: String = " Owner: ".to_owned();
        line.append(owner.as_str());
        push_line(&mut lines, line);
    }
    push_line(&mut lines, "━━━━━━━━━━━━━━━━━━━━━━━━━━━━━━━━━━━━━━━━━━━━━━━".to_owned());
    assert(text::texts(lines@) =~= card_readout_texts(r@));
    proof {
        text::law_texts(lines@);
        law_every_punch_has_its_line(r@);
        assert forall|i: int| 0 <= i < r.punches@.len() implies (#[trigger] lines@[3 + i])@
            == punch_text(i + 1, r.punches@[i]) by {
            assert(text::texts(lines@)[3 + i] == lines@[3 + i]@);
        }
        assert(text::texts(lines@)[1] == lines@[1]@);
        if r.owner is Some {
            assert(text::texts(lines@)[4 + r.punches@.len() as int] == lines@[4
                + r.punches@.len() as int]@);
        }
    }
    lines
}

/// Every punch has a line of its own, in the order of the card, and there is a line for the owner
/// exactly if somebody is registered.
pub proof fn law_every_punch_has_its_line(r: card::CardReadoutView)
    ensures
        card_readout_texts(r).len() == 4 + r.punches.len() + (if r.owner is Some {
            2int
        } else {
            0int
        }),
        forall|i: int|
            0 <= i < r.punches.len() ==> #[trigger] card_readout_texts(r)[3 + i] == punch_text(
                i + 1,
                r.punches[i],
            ),
        r.owner matches Some(owner) ==> card_readout_texts(r)[4 + r.punches.len() as int]
            == " Owner: "@ + owner,
{
}

/// The four known families have names of their own; all others are called unknown.
pub proof fn law_family_has_its_name(f: u8, g: u8)
    ensures
        family_text(1) == "SI-Card9"@,
        family_text(2) == "SI-Card8"@,
        family_text(4) == "SI-pCard"@,
        family_text(15) == "SIAC"@,
        f != 1 && f != 2 && f != 4 && f != 15 <==> family_text(f) == "unknown"@,
        family_text(f) == family_text(g) <==> f == g || (family_text(f) == "unknown"@
            && family_text(g) == "unknown"@),
{
    reveal_strlit("SI-Card9");
    reveal_strlit("SI-Card8");
    reveal_strlit("SI-pCard");
    reveal_strlit("SIAC");
    reveal_strlit("unknown");
    assert("SI-Card9"@[7] == '9' && "SI-Card8"@[7] == '8');
    assert("SI-pCard"@[3] == 'p' && "SI-Card9"@[3] == 'C' && "SI-Card8"@[3] == 'C');
    assert("SIAC"@.len() == 4 && "unknown"@.len() == 7 && "SI-Card9"@.len() == 8);
}

/// The eight known punch types have names of their own, which are made of letters; all others are
/// shown with a question mark.
pub proof fn law_punch_type_has_its_name(t: u8, u: u8)
    ensures
        punch_type_text(0) == "Undefined"@,
        punch_type_text(1) == "Clear"@,
        punch_type_text(2) == "Check"@,
        punch_type_text(3) == "Start"@,
        punch_type_text(4) == "StartReserve"@,
        punch_type_text(5) == "Finish"@,
        punch_type_text(6) == "FinishReserve"@,
        punch_type_text(7) == "Control"@,
        t > 7 <==> punch_type_text(t) == "?"@,
        punch_type_text(t) == punch_type_text(u) <==> t == u || (t > 7 && u > 7),
        punch_type_text(t).len() > 0,
        !punch_type_text(t).contains(' '),
{
    reveal_strlit("Undefined");
    reveal_strlit("Clear");
    reveal_strlit("Check");
    reveal_strlit("Start");
    reveal_strlit("StartReserve");
    reveal_strlit("Finish");
    reveal_strlit("FinishReserve");
    reveal_strlit("Control");
    reveal_strlit("?");
    assert("Undefined"@.len() == 9 && "StartReserve"@.len() == 12 && "Finish"@.len() == 6);
    assert("FinishReserve"@.len() == 13 && "Control"@.len() == 7 && "?"@.len() == 1);
    assert("Clear"@.len() == 5 && "Check"@.len() == 5 && "Start"@.len() == 5);
    assert("Clear"@[1] == 'l' && "Check"@[1] == 'h' && "Start"@[1] == 't');
}

/// The line of a card state shows the card number and the station, each in its column, and then
/// whether the card was inserted, whatever the card and the station are.
pub proof fn law_card_state_shows_its_parts(s: CardState, card: Seq<char>, station: Seq<char>)
    requires
        text::shows(card, s.card_number as int, 8, ' '),
        text::shows(station, s.code_number as int, 3, ' '),
    ensures
        s.state == 1 ==> card_state_text(s) == "Card "@ + card + "  station "@ + station + "  "@
            + "INSERTED"@,
        s.state != 1 ==> card_state_text(s) == "Card "@ + card + "  station "@ + station + "  "@
            + "REMOVED"@,
{
    text::law_column(card, s.card_number as nat, 8, ' ');
    text::law_column(station, s.code_number as nat, 3, ' ');
}

/// The line of a card state ends with `INSERTED` exactly if the card was inserted, and with
/// `REMOVED` otherwise.
pub proof fn law_card_state_tells_insertion(s: CardState)
    ensures
        card_state_text(s).len() >= 8,
        s.state == 1 <==> card_state_text(s).skip(card_state_text(s).len() - 8) == "INSERTED"@,
        s.state != 1 <==> card_state_text(s).skip(card_state_text(s).len() - 7) == "REMOVED"@,
{
    reveal_strlit("INSERTED");
    reveal_strlit("REMOVED");
    reveal_strlit("Card ");
    let t = card_state_text(s);
    if s.state == 1 {
        assert(t.skip(t.len() - 8) =~= "INSERTED"@);
        assert(t.skip(t.len() - 7)[0] == 'N' && "REMOVED"@[0] == 'R');
    } else {
        assert(t.skip(t.len() - 7) =~= "REMOVED"@);
        assert(t.skip(t.len() - 8)[7] == 'D' && t.skip(t.len() - 8)[1] == 'R');
        assert("INSERTED"@[1] == 'N');
    }
}

/// What follows a start of the same length is the same if the whole is.
proof fn lemma_same_rest(start: Seq<char>, a: Seq<char>, b: Seq<char>)
    requires
        start + a == start + b,
    ensures
        a == b,
{
    assert(a =~= (start + a).skip(start.len() as int));
    assert(b =~= (start + b).skip(start.len() as int));
}

/// What a card state's line says behind the card number.
spec fn station_part(s: CardState) -> Seq<char> {
    "  station "@ + (column(s.code_number as int, 3) + insertion_part(s))
}

/// What a card state's line says behind the station.
spec fn insertion_part(s: CardState) -> Seq<char> {
    "  "@ + (if s.state == 1 {
        "INSERTED"@
    } else {
        "REMOVED"@
    })
}

proof fn lemma_card_state_line_parts(s: CardState)
    ensures
        card_state_text(s) == "Card "@ + (column(s.card_number as int, 8) + station_part(s)),
        station_part(s).len() > 0 && station_part(s)[0] == ' ',
        insertion_part(s).len() > 0 && insertion_part(s)[0] == ' ',
{
    reveal_strlit("  station ");
    reveal_strlit("  ");
    assert(card_state_text(s) =~= "Card "@ + (column(s.card_number as int, 8) + station_part(s)));
}

proof fn lemma_station_part_identifies(a: CardState, b: CardState)
    requires
        station_part(a) == station_part(b),
    ensures
        a.code_number == b.code_number,
{
    lemma_card_state_line_parts(a);
    lemma_card_state_line_parts(b);
    lemma_same_rest(
        "  station "@,
        column(a.code_number as int, 3) + insertion_part(a),
        column(b.code_number as int, 3) + insertion_part(b),
    );
    text::law_column_identifies_number(
        a.code_number as nat,
        insertion_part(a),
        b.code_number as nat,
        insertion_part(b),
        3,
    );
}

proof fn lemma_card_state_line_identifies(a: CardState, b: CardState)
    requires
        card_state_text(a) == card_state_text(b),
    ensures
        a.card_number == b.card_number,
        a.code_number == b.code_number,
{
    lemma_card_state_line_parts(a);
    lemma_card_state_line_parts(b);
    lemma_same_rest(
        "Card "@,
        column(a.card_number as int, 8) + station_part(a),
        column(b.card_number as int, 8) + station_part(b),
    );
    text::law_column_identifies_number(
        a.card_number as nat,
        station_part(a),
        b.card_number as nat,
        station_part(b),
        8,
    );
    lemma_station_part_identifies(a, b);
}

/// Two card states have the same line exactly if they have the same card number and the same
/// station, and the card was inserted in both or in neither.
pub proof fn law_card_state_line_identifies_state(a: CardState, b: CardState)
    ensures
        card_state_text(a) == card_state_text(b) <==> a.card_number == b.card_number
            && a.code_number == b.code_number && (a.state == 1 <==> b.state == 1),
{
    if card_state_text(a) == card_state_text(b) {
        lemma_card_state_line_identifies(a, b);
        law_card_state_tells_insertion(a);
        law_card_state_tells_insertion(b);
    }
}

/// The head line of a readout shows the card number in its column and then the name of the family.
pub proof fn law_card_line_shows_its_parts(card_number: u32, card_family: u8, card: Seq<char>)
    requires
        text::shows(card, card_number as int, 8, ' '),
    ensures
        card_text(card_number, card_family) == " Card "@ + card + "   family: "@ + family_text(
            card_family,
        ),
{
    text::law_column(card, card_number as nat, 8, ' ');
}

/// The head line of a readout identifies the card: two of them are the same exactly if the card
/// numbers are the same and the families have the same name.
pub proof fn law_card_line_identifies_card(a: u32, f: u8, b: u32, g: u8)
    ensures
        card_text(a, f) == card_text(b, g) <==> a == b && family_text(f) == family_text(g),
        card_text(a, f) == card_text(b, f) <==> a == b,
{
    lemma_card_line_identifies_card(a, f, b, g);
    lemma_card_line_identifies_card(a, f, b, f);
}

proof fn lemma_card_line_identifies_card(a: u32, f: u8, b: u32, g: u8)
    ensures
        card_text(a, f) == card_text(b, g) ==> a == b && family_text(f) == family_text(g),
{
    if card_text(a, f) == card_text(b, g) {
        reveal_strlit("   family: ");
        let x = column(a as int, 8);
        let y = column(b as int, 8);
        let end_a = "   family: "@ + family_text(f);
        let end_b = "   family: "@ + family_text(g);
        assert(card_text(a, f) =~= " Card "@ + (x + end_a));
        assert(card_text(b, g) =~= " Card "@ + (y + end_b));
        lemma_same_rest(" Card "@, x + end_a, y + end_b);
        assert(end_a[0] == ' ' && end_b[0] == ' ');
        text::law_column_identifies_number(a as nat, end_a, b as nat, end_b, 8);
        lemma_same_rest("   family: "@, family_text(f), family_text(g));
    }
}

/// The line of a punch shows its place on the card, the name of its type, its control code, each in
/// its column, and its time.
pub proof fn law_punch_line_shows_its_parts(
    number: nat,
    p: Punch,
    place: Seq<char>,
    name: Seq<char>,
    code: Seq<char>,
)
    requires
        text::shows(place, number as int, 2, ' '),
        text::is_at_left(name, punch_type_text(p.punch_type), 12),
        text::shows(code, p.control_code as int, 3, ' '),
    ensures
        punch_text(number as int, p) == " "@ + place + ". "@ + name + "  ctrl "@ + code + "  "@
            + time::time_text(p.time_ms as int),
{
    text::law_column(place, number, 2, ' ');
    text::law_left_column(name, punch_type_text(p.punch_type), 12);
    text::law_column(code, p.control_code as nat, 3, ' ');
}

/// What a punch's line says behind the name of the type.
spec fn code_part(p: Punch) -> Seq<char> {
    "  ctrl "@ + (column(p.control_code as int, 3) + ("  "@ + time::time_text(p.time_ms as int)))
}

/// What a punch's line says behind the place.
spec fn type_part(p: Punch) -> Seq<char> {
    ". "@ + (text::aligned_left(punch_type_text(p.punch_type), 12) + code_part(p))
}

/// The line of a punch in two parts, one for each end of the type's name.
proof fn lemma_punch_line_parts(number: int, p: Punch)
    ensures
        punch_text(number, p) == " "@ + (column(number, 2) + type_part(p)),
        type_part(p).len() > 0 && type_part(p)[0] == '.',
        code_part(p).len() > 0 && code_part(p)[0] == ' ',
{
    reveal_strlit(". ");
    reveal_strlit("  ctrl ");
    let name = text::aligned_left(punch_type_text(p.punch_type), 12);
    let code = column(p.control_code as int, 3);
    let time = time::time_text(p.time_ms as int);
    let start = " "@ + column(number, 2) + ". "@ + name;
    lemma_regroup(start, "  ctrl "@, code, "  "@, time);
    lemma_regroup(" "@, column(number, 2), ". "@, name, code_part(p));
}

/// Joining from the left and from the right gives the same.
proof fn lemma_regroup(a: Seq<char>, b: Seq<char>, c: Seq<char>, d: Seq<char>, e: Seq<char>)
    ensures
        a + b + c + d + e == a + (b + (c + (d + e))),
{
    assert(a + b + c + d + e =~= a + (b + (c + (d + e))));
}

/// A name without spaces at the left of a column ends at the first space.
proof fn lemma_name_not_shorter(s: Seq<char>, x: Seq<char>, t: Seq<char>, y: Seq<char>)
    requires
        !t.contains(' '),
        x.len() > 0 && x[0] == ' ',
        text::aligned_left(s, 12) + x == text::aligned_left(t, 12) + y,
    ensures
        t.len() <= s.len(),
{
    let whole = text::aligned_left(s, 12) + x;
    if s.len() < t.len() {
        assert(whole[s.len() as int] == ' ');
        assert(whole[s.len() as int] == t[s.len() as int]);
    }
}

proof fn lemma_type_part_identifies(p: Punch, q: Punch)
    requires
        type_part(p) == type_part(q),
    ensures
        punch_type_text(p.punch_type) == punch_type_text(q.punch_type),
        code_part(p) == code_part(q),
{
    let s = punch_type_text(p.punch_type);
    let t = punch_type_text(q.punch_type);
    let a = text::aligned_left(s, 12);
    let b = text::aligned_left(t, 12);
    lemma_same_rest(". "@, a + code_part(p), b + code_part(q));
    lemma_punch_line_parts(0, p);
    lemma_punch_line_parts(0, q);
    law_punch_type_has_its_name(p.punch_type, q.punch_type);
    law_punch_type_has_its_name(q.punch_type, p.punch_type);
    lemma_name_not_shorter(s, code_part(p), t, code_part(q));
    lemma_name_not_shorter(t, code_part(q), s, code_part(p));
    assert(s =~= (a + code_part(p)).take(s.len() as int));
    assert(t =~= (b + code_part(q)).take(t.len() as int));
    lemma_same_rest(a, code_part(p), code_part(q));
}

proof fn lemma_code_part_identifies(p: Punch, q: Punch)
    requires
        code_part(p) == code_part(q),
    ensures
        p.control_code == q.control_code,
        time::time_text(p.time_ms as int) == time::time_text(q.time_ms as int),
{
    reveal_strlit("  ");
    let end_p = "  "@ + time::time_text(p.time_ms as int);
    let end_q = "  "@ + time::time_text(q.time_ms as int);
    lemma_same_rest(
        "  ctrl "@,
        column(p.control_code as int, 3) + end_p,
        column(q.control_code as int, 3) + end_q,
    );
    assert(end_p[0] == ' ' && end_q[0] == ' ');
    text::law_column_identifies_number(
        p.control_code as nat,
        end_p,
        q.control_code as nat,
        end_q,
        3,
    );
    lemma_same_rest(
        "  "@,
        time::time_text(p.time_ms as int),
        time::time_text(q.time_ms as int),
    );
}

/// Two punches have the same line exactly if they have the same place, control code and time of the
/// week, and their types have the same name.
pub proof fn law_punch_line_identifies_punch(i: nat, p: Punch, j: nat, q: Punch)
    ensures
        punch_text(i as int, p) == punch_text(j as int, q) <==> {
            &&& i == j
            &&& punch_type_text(p.punch_type) == punch_type_text(q.punch_type)
            &&& p.control_code == q.control_code
            &&& p.time_ms % 604_800_000 == q.time_ms % 604_800_000
        },
{
    time::law_time_text_identifies_time_of_week(p.time_ms as int, q.time_ms as int);
    if punch_text(i as int, p) == punch_text(j as int, q) {
        lemma_punch_line_parts(i as int, p);
        lemma_punch_line_parts(j as int, q);
        lemma_same_rest(
            " "@,
            column(i as int, 2) + type_part(p),
            column(j as int, 2) + type_part(q),
        );
        text::law_column_identifies_number(i, type_part(p), j, type_part(q), 2);
        lemma_type_part_identifies(p, q);
        lemma_code_part_identifies(p, q);
    }
}

/// A readout is framed by two thick rules of 47 characters, has the head line and a thin rule at
/// the top, and shows the owner, if there is one, at the bottom behind a thin rule.
pub proof fn law_readout_is_framed(r: card::CardReadoutView)
    ensures
        ({
            let lines = card_readout_texts(r);
            let n = lines.len() as int;
            &&& n == 4 + r.punches.len() + (if r.owner is Some {
                2int
            } else {
                0int
            })
            &&& lines[0].len() == 47 && lines[n - 1].len() == 47 && lines[2].len() == 47
            &&& forall|i: int| 0 <= i < 47 ==> #[trigger] lines[0][i] == '━'
            &&& forall|i: int| 0 <= i < 47 ==> #[trigger] lines[n - 1][i] == '━'
            &&& forall|i: int| 0 <= i < 47 ==> #[trigger] lines[2][i] == '─'
            &&& lines[1] == card_text(r.card_number, r.card_family)
            &&& r.owner matches Some(owner) ==> lines[n - 3] == lines[2] && lines[n - 2]
                == " Owner: "@ + owner
        }),
{
    reveal_strlit("━━━━━━━━━━━━━━━━━━━━━━━━━━━━━━━━━━━━━━━━━━━━━━━");
    reveal_strlit("───────────────────────────────────────────────");
}

/// Two readouts are shown alike exactly if the card numbers and the owners are the same, the
/// families have the same name, and the punches are as many and agree one by one in the name of
/// their type, their control code and their time of the week.
pub proof fn law_readout_lines_identify_contents(a: card::CardReadoutView, b: card::CardReadoutView)
    ensures
        card_readout_texts(a) == card_readout_texts(b) <==> {
            &&& a.card_number == b.card_number
            &&& family_text(a.card_family) == family_text(b.card_family)
            &&& a.owner == b.owner
            &&& a.punches.len() == b.punches.len()
            &&& forall|i: int|
                0 <= i < a.punches.len() ==> {
                    let p = #[trigger] a.punches[i];
                    let q = b.punches[i];
                    &&& punch_type_text(p.punch_type) == punch_type_text(q.punch_type)
                    &&& p.control_code == q.control_code
                    &&& p.time_ms % 604_800_000 == q.time_ms % 604_800_000
                }
        },
{
    let x = card_readout_texts(a);
    let y = card_readout_texts(b);
    if x == y {
        law_readout_is_framed(a);
        law_readout_is_framed(b);
        law_card_line_identifies_card(a.card_number, a.card_family, b.card_number, b.card_family);
        lemma_as_many_punches(a, b);
        lemma_as_many_punches(b, a);
        assert forall|i: int| 0 <= i < a.punches.len() implies {
            let p = #[trigger] a.punches[i];
            let q = b.punches[i];
            &&& punch_type_text(p.punch_type) == punch_type_text(q.punch_type)
            &&& p.control_code == q.control_code
            &&& p.time_ms % 604_800_000 == q.time_ms % 604_800_000
        } by {
            assert(x[3 + i] == punch_text(i + 1, a.punches[i]));
            assert(y[3 + i] == punch_text(i + 1, b.punches[i]));
            law_punch_line_identifies_punch(
                (i + 1) as nat,
                a.punches[i],
                (i + 1) as nat,
                b.punches[i],
            );
        }
        if a.owner is Some {
            lemma_same_rest(" Owner: "@, a.owner->0, b.owner->0);
        }
    }
    if {
        &&& a.card_number == b.card_number
        &&& family_text(a.card_family) == family_text(b.card_family)
        &&& a.owner == b.owner
        &&& a.punches.len() == b.punches.len()
        &&& forall|i: int|
            0 <= i < a.punches.len() ==> {
                let p = #[trigger] a.punches[i];
                let q = b.punches[i];
                &&& punch_type_text(p.punch_type) == punch_type_text(q.punch_type)
                &&& p.control_code == q.control_code
                &&& p.time_ms % 604_800_000 == q.time_ms % 604_800_000
            }
    } {
        assert forall|i: int| 0 <= i < a.punches.len() implies punch_text(
            i + 1,
            #[trigger] a.punches[i],
        ) == punch_text(i + 1, b.punches[i]) by {
            law_punch_line_identifies_punch(
                (i + 1) as nat,
                a.punches[i],
                (i + 1) as nat,
                b.punches[i],
            );
        }
        assert(x =~= y);
    }
}

/// Readouts that are shown alike have as many punches: a punch's line is no rule.
proof fn lemma_as_many_punches(a: card::CardReadoutView, b: card::CardReadoutView)
    requires
        card_readout_texts(a) == card_readout_texts(b),
    ensures
        a.punches.len() >= b.punches.len(),
{
    let x = card_readout_texts(a);
    let n = a.punches.len() as int;
    if n < b.punches.len() {
        reveal_strlit("━━━━━━━━━━━━━━━━━━━━━━━━━━━━━━━━━━━━━━━━━━━━━━━");
        reveal_strlit("───────────────────────────────────────────────");
        reveal_strlit(" ");
        assert(x[3 + n] == punch_text(n + 1, b.punches[n]));
        assert(punch_text(n + 1, b.punches[n])[0] == ' ');
        assert(x[3 + n] == thin_rule() || x[3 + n] == thick_rule());
        assert(x[3 + n][0] != ' ');
    }
}

} // verus!
