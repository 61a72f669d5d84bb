//! Finding the reader and its characteristics.
use vstd::prelude::*;
use crate::search;
use crate::text;
use crate::text::chars_of;

verus! {

/// The Bluetooth address of the reader.
pub const ADDR: &'static str = "CC:DA:B5:74:95:82";

/// The id of the characteristic that tells card state changes.
pub const CARD_STATE_UUID: &'static str = "bd510012-6aec-4628-a146-f3e95bc49e62";

/// The id of the characteristic that tells card contents.
pub const CARD_DATA_UUID: &'static str = "bd510013-6aec-4628-a146-f3e95bc49e62";

/// `c`, in lower case if it is an ASCII letter.
pub open spec fn ascii_lower(c: char) -> char {
    if 'A' <= c <= 'Z' {
        (c as u32 + 0x20) as char
    } else {
        c
    }
}

/// Whether `a` and `b` differ at most in the case of ASCII letters.
pub open spec fn same_ignoring_case(a: Seq<char>, b: Seq<char>) -> bool {
    a.len() == b.len() && forall|i: int|
        0 <= i < a.len() ==> #[trigger] ascii_lower(a[i]) == ascii_lower(b[i])
}

/// Whether `address` is the reader's.
pub open spec fn is_reader(address: Seq<char>) -> bool {
    same_ignoring_case(address, ADDR@)
}

/// Returns `c`, in lower case if it is an ASCII letter.
fn lower(c: char) -> (r: char)
    ensures
        r == ascii_lower(c),
{
    if 'A' <= c && c <= 'Z' {
        (c as u8 + 0x20) as char
    } else {
        c
    }
}

/// Tells whether `a` and `b` differ at most in the case of ASCII letters.
pub fn eq_ignoring_case(a: &str, b: &str) -> (r: bool)
    ensures
        r == same_ignoring_case(a@, b@),
        r <==> a@.len() == b@.len() && forall|i: int|
            0 <= i < a@.len() ==> {
                let (c, d) = (#[trigger] a@[i], b@[i]);
                ||| c == d
                ||| 'A' <= c <= 'Z' && d as int == c as int + 32
                ||| 'A' <= d <= 'Z' && c as int == d as int + 32
            },
{
    proof {
        law_same_but_for_case(a@, b@);
    }
    let left: Vec<char> = chars_of(a);
    let right: Vec<char> = chars_of(b);
    if left.len() != right.len() {
        return false;
    }
    let mut i: usize = 0;
    while i < left.len()
        invariant
            i <= left@.len(),
            left@ == a@,
            right@ == b@,
            a@.len() == b@.len(),
            forall|j: int| 0 <= j < i ==> #[trigger] ascii_lower(a@[j]) == ascii_lower(b@[j]),
        decreases left@.len() - i,
    {
        if lower(left[i]) != lower(right[i]) {
            assert(ascii_lower(a@[i as int]) != ascii_lower(b@[i as int]));
            return false;
        }
        i = i + 1;
    }
    true
}

/// Returns the index of the first of `addresses` that is the reader's, or the error message if
/// none is.
pub fn find_device(addresses: &[String]) -> (r: Result<usize, String>)
    ensures
        match r {
            Ok(i) => {
                &&& i < addresses@.len()
                &&& is_reader(addresses@[i as int]@)
                &&& forall|j: int| 0 <= j < i ==> !is_reader(#[trigger] addresses@[j]@)
            },
            Err(error) => {
                &&& forall|j: int|
                    0 <= j < addresses@.len() ==> !is_reader(#[trigger] addresses@[j]@)
                &&& error@ == "device "@ + ADDR@ + " not found"@
            },
        },
        r matches Ok(i) ==> {
            let address = addresses@[i as int]@;
            &&& address.len() == 17
            &&& forall|k: int|
                0 <= k < 17 ==> {
                    let (c, d) = (#[trigger] address[k], "CC:DA:B5:74:95:82"@[k]);
                    c == d || ('A' <= d <= 'F' && c as int == d as int + 32)
                }
        },
        forall|j: int|
            0 <= j < (match r {
                Ok(i) => i as int,
                Err(_) => addresses@.len() as int,
            }) ==> (#[trigger] addresses@[j])@.len() != 17 || exists|k: int|
                0 <= k < 17 && {
                    let (c, d) = (#[trigger] addresses@[j]@[k], "CC:DA:B5:74:95:82"@[k]);
                    c != d && !('A' <= d <= 'F' && c as int == d as int + 32)
                },
        r matches Err(error) ==> error@ == "device CC:DA:B5:74:95:82 not found"@,
{
    let mut i: usize = 0;
    while i < addresses.len()
        invariant
            i <= addresses@.len(),
            forall|j: int| 0 <= j < i ==> !is_reader(#[trigger] addresses@[j]@),
        decreases addresses@.len() - i,
    {
        if eq_ignoring_case(addresses[i].as_str(), ADDR) {
            proof {
                law_reader_has_its_address(addresses@[i as int]@);
                lemma_other_addresses(addresses@, i as int);
            }
            return Ok(i);
        }
        i = i + 1;
    }
    let mut error: String = "device ".to_owned();
    error.append(ADDR);
    error.append(" not found");
    proof {
        lemma_other_addresses(addresses@, i as int);
        reveal_strlit("device ");
        reveal_strlit("CC:DA:B5:74:95:82");
        reveal_strlit(" not found");
        reveal_strlit("device CC:DA:B5:74:95:82 not found");
        assert(error@ =~= "device CC:DA:B5:74:95:82 not found"@);
    }
    Err(error)
}

/// The error of the `uuid` crate, which carries what it has to say about a malformed id.
#[verifier::external_type_specification]
#[verifier::external_body]
pub struct ExUuidError(uuid::Error);

/// The value of the hexadecimal digit `c`.
pub open spec fn hex_value(c: char) -> Option<nat> {
    if '0' <= c <= '9' {
        Some((c as u32 - 0x30) as nat)
    } else if 'a' <= c <= 'f' {
        Some((c as u32 - 0x61 + 10) as nat)
    } else if 'A' <= c <= 'F' {
        Some((c as u32 - 0x41 + 10) as nat)
    } else {
        None
    }
}

/// The number that `s` writes in hexadecimal.
pub open spec fn hex_number(s: Seq<char>) -> Option<nat>
    decreases s.len(),
{
    if s.len() == 0 {
        Some(0)
    } else {
        match (hex_number(s.drop_last()), hex_value(s.last())) {
            (Some(n), Some(d)) => Some(16 * n + d),
            _ => None,
        }
    }
}

/// The number that `s` writes in hexadecimal digits in groups of 8, 4, 4, 4 and 12, with hyphens
/// between the groups.
pub open spec fn hyphenated_number(s: Seq<char>) -> Option<nat> {
    if s.len() == 36 && s[8] == '-' && s[13] == '-' && s[18] == '-' && s[23] == '-' {
        hex_number(
            s.subrange(0, 8) + s.subrange(9, 13) + s.subrange(14, 18) + s.subrange(19, 23)
                + s.subrange(24, 36),
        )
    } else {
        None
    }
}

/// The id that `s` writes: as 32 hexadecimal digits, or with hyphens, and then perhaps in braces or
/// with the prefix `urn:uuid:` in any case.
pub open spec fn uuid_number(s: Seq<char>) -> Option<nat> {
    if s.len() == 32 {
        hex_number(s)
    } else if s.len() == 36 {
        hyphenated_number(s)
    } else if s.len() == 38 && s[0] == '{' && s[37] == '}' {
        hyphenated_number(s.subrange(1, 37))
    } else if s.len() == 45 && same_ignoring_case(s.take(9), "urn:uuid:"@) {
        hyphenated_number(s.skip(9))
    } else {
        None
    }
}

/// The usual text of the id `n`: its 32 hexadecimal digits with hyphens.
pub open spec fn uuid_text(n: nat) -> Seq<char> {
    let h = text::hexadecimal(n, 32, false);
    h.subrange(0, 8) + seq!['-'] + h.subrange(8, 12) + seq!['-'] + h.subrange(12, 16) + seq!['-']
        + h.subrange(16, 20) + seq!['-'] + h.subrange(20, 32)
}

/// Calls `uuid::Uuid::parse_str`, and `as_u128` on what it returns. It succeeds on the four ways to
/// write an id that [`uuid_number`] tells and on nothing else, and gives the id as a number. Of the
/// error nothing is said but when it comes.
#[verifier::external_body]
fn parse_uuid(s: &str) -> (r: Result<u128, uuid::Error>)
    ensures
        match r {
            Ok(id) => uuid_number(s@) == Some(id as nat),
            Err(_) => uuid_number(s@) is None,
        },
{
    match uuid::Uuid::parse_str(s) {
        Ok(id) => Ok(id.as_u128()),
        Err(error) => Err(error),
    }
}

/// Calls `to_string` on the `uuid::Uuid` that `from_u128` makes. It gives the lower-case hyphenated
/// form.
#[verifier::external_body]
fn format_uuid(id: u128) -> (r: String)
    ensures
        r@ == uuid_text(id as nat),
{
    uuid::Uuid::from_u128(id).to_string()
}

/// A text that is not the id of a characteristic.
pub struct InvalidUuid {
    pub cause: uuid::Error,
}

/// Returns the id that `s` writes.
pub fn characteristic_uuid(s: &str) -> (r: Result<u128, InvalidUuid>)
    ensures
        match r {
            Ok(id) => uuid_number(s@) == Some(id as nat),
            Err(_) => uuid_number(s@) is None,
        },
{
    match parse_uuid(s) {
        Ok(id) => Ok(id),
        Err(cause) => Err(InvalidUuid { cause }),
    }
}

/// What to do about a characteristic that the client wants to listen to.
pub enum Subscription {
    /// Subscribe to the characteristic at this index.
    Subscribe(usize),
    /// There is none; the line says so.
    Missing(String),
}

/// The contents of a [`Subscription`].
pub enum SubscriptionView {
    Subscribe(int),
    Missing(Seq<char>),
}

impl View for Subscription {
    type V = SubscriptionView;

    open spec fn view(&self) -> SubscriptionView {
        match *self {
            Subscription::Subscribe(i) => SubscriptionView::Subscribe(i as int),
            Subscription::Missing(line) => SubscriptionView::Missing(line@),
        }
    }
}

/// What to do about the characteristic `id` where the `available` ones are offered: subscribe to
/// the first that has this id, or tell that there is none.
pub open spec fn subscription_to(available: Seq<u128>, id: u128) -> SubscriptionView {
    match available.index_of_first(id) {
        Some(i) => SubscriptionView::Subscribe(i),
        None => SubscriptionView::Missing(
            "characteristic "@ + uuid_text(id as nat) + " not found"@,
        ),
    }
}

/// Returns what to do about each of the `wanted` characteristics, in order.
pub fn plan_subscriptions(wanted: &[u128], available: &[u128]) -> (r: Vec<Subscription>)
    ensures
        r@.len() == wanted@.len(),
        forall|i: int|
            0 <= i < wanted@.len() ==> (#[trigger] r@[i])@ == subscription_to(
                available@,
                wanted@[i],
            ),
        forall|i: int|
            0 <= i < wanted@.len() ==> match #[trigger] r@[i] {
                Subscription::Subscribe(k) => {
                    &&& k < available@.len()
                    &&& available@[k as int] == wanted@[i]
                    &&& forall|j: int| 0 <= j < k ==> available@[j] != wanted@[i]
                },
                Subscription::Missing(line) => {
                    &&& !available@.contains(wanted@[i])
                    &&& line@ == "characteristic "@ + uuid_text(wanted@[i] as nat) + " not found"@
                },
            },
{
    proof {
        assert forall|id: u128| true implies match #[trigger] subscription_to(available@, id) {
            SubscriptionView::Subscribe(k) => {
                &&& 0 <= k < available@.len()
                &&& available@[k] == id
                &&& forall|j: int| 0 <= j < k ==> available@[j] != id
            },
            SubscriptionView::Missing(line) => {
                &&& !available@.contains(id)
                &&& line == "characteristic "@ + uuid_text(id as nat) + " not found"@
            },
        } by {
            law_offered_characteristic_is_subscribed_to(available@, id);
        }
    }
    let mut plan: Vec<Subscription> = Vec::new();
    let mut i: usize = 0;
    while i < wanted.len()
        invariant
            i <= wanted@.len(),
            plan@.len() == i,
            forall|k: int|
                0 <= k < i ==> (#[trigger] plan@[k])@ == subscription_to(available@, wanted@[k]),
        decreases wanted@.len() - i,
    {
        let id: u128 = wanted[i];
        match search::find_id(available, id) {
            Some(at) => {
                plan.push(Subscription::Subscribe(at));
            },
            None => {
                let mut line: String = "characteristic ".to_owned();
                line.append(format_uuid(id).as_str());
                line.append(" not found");
                plan.push(Subscription::Missing(line));
            },
        }
        i = i + 1;
    }
    plan
}

spec fn power_of_16(k: nat) -> nat
    decreases k,
{
    if k == 0 {
        1
    } else {
        16 * power_of_16((k - 1) as nat)
    }
}

proof fn lemma_hexadecimal(n: nat, width: nat, upper: bool)
    requires
        n < power_of_16(width),
    ensures
        text::hexadecimal(n, width, upper).len() == width,
        hex_number(text::hexadecimal(n, width, upper)) == Some(n),
    decreases width,
{
    if width > 0 {
        lemma_hexadecimal(n / 16, (width - 1) as nat, upper);
        let s = text::hexadecimal(n, width, upper);
        assert(s.drop_last() =~= text::hexadecimal(n / 16, (width - 1) as nat, upper));
        assert(hex_value(s.last()) == Some(n % 16));
    }
}

/// The usual text of an id is read back as that id.
pub proof fn law_uuid_text_reads_back(id: u128)
    ensures
        uuid_number(uuid_text(id as nat)) == Some(id as nat),
{
    let h = text::hexadecimal(id as nat, 32, false);
    let s = uuid_text(id as nat);
    assert(id < power_of_16(32)) by {
        reveal_with_fuel(power_of_16, 33);
    }
    lemma_hexadecimal(id as nat, 32, false);
    assert(s.subrange(0, 8) + s.subrange(9, 13) + s.subrange(14, 18) + s.subrange(19, 23)
        + s.subrange(24, 36) =~= h);
}

/// Two ids with the same text are the same.
pub proof fn law_uuid_text_identifies_id(a: u128, b: u128)
    ensures
        uuid_text(a as nat) == uuid_text(b as nat) <==> a == b,
{
    law_uuid_text_reads_back(a);
    law_uuid_text_reads_back(b);
}

/// The case of letters has no influence on which address is taken for the reader's.
pub proof fn law_case_of_address_is_ignored(a: Seq<char>, b: Seq<char>)
    requires
        same_ignoring_case(a, b),
    ensures
        is_reader(a) == is_reader(b),
{
    let addr = ADDR@;
    if is_reader(a) {
        assert forall|i: int| 0 <= i < b.len() implies #[trigger] ascii_lower(b[i]) == ascii_lower(
            addr[i],
        ) by {
            assert(ascii_lower(a[i]) == ascii_lower(b[i]));
        }
    }
    if is_reader(b) {
        assert forall|i: int| 0 <= i < a.len() implies #[trigger] ascii_lower(a[i]) == ascii_lower(
            addr[i],
        ) by {
            assert(ascii_lower(b[i]) == ascii_lower(addr[i]));
        }
    }
}

/// Texts are the same but for case exactly if they are as long and differ, character by character,
/// in nothing but the offset between capital and small ASCII letters.
pub proof fn law_same_but_for_case(a: Seq<char>, b: Seq<char>)
    ensures
        same_ignoring_case(a, b) <==> a.len() == b.len() && forall|i: int|
            0 <= i < a.len() ==> {
                let (c, d) = (#[trigger] a[i], b[i]);
                ||| c == d
                ||| 'A' <= c <= 'Z' && d as int == c as int + 32
                ||| 'A' <= d <= 'Z' && c as int == d as int + 32
            },
{
    if same_ignoring_case(a, b) {
        assert forall|i: int| 0 <= i < a.len() implies {
            let (c, d) = (#[trigger] a[i], b[i]);
            ||| c == d
            ||| 'A' <= c <= 'Z' && d as int == c as int + 32
            ||| 'A' <= d <= 'Z' && c as int == d as int + 32
        } by {
            assert(ascii_lower(a[i]) == ascii_lower(b[i]));
        }
    }
}

/// The reader is the device whose address is the reader's in every character, where letters may be
/// small ones, and no other device.
pub proof fn law_reader_has_its_address(address: Seq<char>)
    ensures
        is_reader(address) <==> address.len() == 17 && forall|k: int|
            0 <= k < 17 ==> {
                let (c, d) = (#[trigger] address[k], "CC:DA:B5:74:95:82"@[k]);
                c == d || ('A' <= d <= 'F' && c as int == d as int + 32)
            },
{
    reveal_strlit("CC:DA:B5:74:95:82");
    law_same_but_for_case(address, ADDR@);
    assert(ADDR@ == "CC:DA:B5:74:95:82"@);
    assert forall|k: int| 0 <= k < 17 implies {
        let d = #[trigger] ADDR@[k];
        d == ':' || '0' <= d <= '9' || 'A' <= d <= 'F'
    } by {}
}

/// What is not taken for the reader has another address.
proof fn lemma_other_addresses(addresses: Seq<String>, n: int)
    requires
        n <= addresses.len(),
        forall|j: int| 0 <= j < n ==> !is_reader(#[trigger] addresses[j]@),
    ensures
        forall|j: int|
            0 <= j < n ==> (#[trigger] addresses[j])@.len() != 17 || exists|k: int|
                0 <= k < 17 && {
                    let (c, d) = (#[trigger] addresses[j]@[k], "CC:DA:B5:74:95:82"@[k]);
                    c != d && !('A' <= d <= 'F' && c as int == d as int + 32)
                },
{
    assert forall|j: int| 0 <= j < n implies (#[trigger] addresses[j])@.len() != 17 || exists|
        k: int,
    |
        0 <= k < 17 && {
            let (c, d) = (#[trigger] addresses[j]@[k], "CC:DA:B5:74:95:82"@[k]);
            c != d && !('A' <= d <= 'F' && c as int == d as int + 32)
        } by {
        law_reader_has_its_address(addresses[j]@);
    }
}

/// A characteristic that is offered anywhere is subscribed to, at the first place where it is; it
/// is told to be missing only if it is offered nowhere, and then by its own id.
pub proof fn law_offered_characteristic_is_subscribed_to(available: Seq<u128>, id: u128)
    ensures
        match subscription_to(available, id) {
            SubscriptionView::Subscribe(k) => {
                &&& 0 <= k < available.len()
                &&& available[k] == id
                &&& forall|j: int| 0 <= j < k ==> available[j] != id
            },
            SubscriptionView::Missing(line) => {
                &&& !available.contains(id)
                &&& line == "characteristic "@ + uuid_text(id as nat) + " not found"@
            },
        },
{
    available.index_of_first_ensures(id);
}

/// Offering more characteristics behind those that are offered changes nothing for an offered one.
pub proof fn law_more_characteristics_change_nothing(
    available: Seq<u128>,
    more: Seq<u128>,
    id: u128,
)
    requires
        available.contains(id),
    ensures
        subscription_to(available + more, id) == subscription_to(available, id),
        subscription_to(available, id) is Subscribe,
{
    available.index_of_first_ensures(id);
    let k = available.index_of_first(id).unwrap();
    assert forall|j: int| 0 <= j <= k implies (available + more)[j] == available[j] by {}
    search::lemma_first_index(available + more, id, k);
}

/// One more hexadecimal digit behind a number makes it sixteen times as large and adds the digit's
/// value; anything that is no digit makes it no number.
pub proof fn law_hex_number_reads_digits(s: Seq<char>, c: char)
    ensures
        hex_number(Seq::<char>::empty()) == Some(0nat),
        hex_number(s.push(c)) == match hex_number(s) {
            Some(n) => if '0' <= c <= '9' {
                Some((16 * n + (c as int - '0' as int)) as nat)
            } else if 'a' <= c <= 'f' {
                Some((16 * n + 10 + (c as int - 'a' as int)) as nat)
            } else if 'A' <= c <= 'F' {
                Some((16 * n + 10 + (c as int - 'A' as int)) as nat)
            } else {
                None
            },
            None => None,
        },
{
    assert(s.push(c).drop_last() =~= s);
}

/// The four ways to write the 32 digits of an id all mean the same: the number that the digits make
/// up.
pub proof fn law_uuid_is_written_in_four_ways(digits: Seq<char>, prefix: Seq<char>)
    requires
        digits.len() == 32,
        same_ignoring_case(prefix, "urn:uuid:"@),
    ensures
        ({
            let hyphenated = digits.subrange(0, 8) + seq!['-'] + digits.subrange(8, 12) + seq!['-']
                + digits.subrange(12, 16) + seq!['-'] + digits.subrange(16, 20) + seq!['-']
                + digits.subrange(20, 32);
            &&& uuid_number(digits) == hex_number(digits)
            &&& uuid_number(hyphenated) == hex_number(digits)
            &&& uuid_number(seq!['{'] + hyphenated + seq!['}']) == hex_number(digits)
            &&& uuid_number(prefix + hyphenated) == hex_number(digits)
        }),
{
    reveal_strlit("urn:uuid:");
    let h = digits.subrange(0, 8) + seq!['-'] + digits.subrange(8, 12) + seq!['-']
        + digits.subrange(12, 16) + seq!['-'] + digits.subrange(16, 20) + seq!['-']
        + digits.subrange(20, 32);
    assert(h.subrange(0, 8) + h.subrange(9, 13) + h.subrange(14, 18) + h.subrange(19, 23)
        + h.subrange(24, 36) =~= digits);
    assert(hyphenated_number(h) == hex_number(digits));
    assert((seq!['{'] + h + seq!['}']).subrange(1, 37) =~= h);
    assert((prefix + h).take(9) =~= prefix);
    assert((prefix + h).skip(9) =~= h);
}

/// Nothing else is an id: it has one of four lengths, and at least the hyphens, the braces or the
/// prefix that go with its length.
pub proof fn law_uuid_is_written_in_no_other_way(s: Seq<char>)
    requires
        uuid_number(s) is Some,
    ensures
        s.len() == 32 || s.len() == 36 || s.len() == 38 || s.len() == 45,
        s.len() == 36 ==> s[8] == '-' && s[13] == '-' && s[18] == '-' && s[23] == '-',
        s.len() == 38 ==> s[0] == '{' && s[9] == '-' && s[14] == '-' && s[19] == '-' && s[24] == '-'
            && s[37] == '}',
        s.len() == 45 ==> same_ignoring_case(s.take(9), "urn:uuid:"@) && s[17] == '-' && s[22]
            == '-' && s[27] == '-' && s[32] == '-',
{
    if s.len() == 38 {
        let t = s.subrange(1, 37);
        assert(t[8] == s[9] && t[13] == s[14] && t[18] == s[19] && t[23] == s[24]);
    } else if s.len() == 45 {
        let t = s.skip(9);
        assert(t[8] == s[17] && t[13] == s[22] && t[18] == s[27] && t[23] == s[32]);
    }
}

/// The usual text of an id has hyphens in their places and small hexadecimal digits everywhere
/// else.
pub proof fn law_uuid_text_form(id: u128)
    ensures
        uuid_text(id as nat).len() == 36,
        forall|i: int|
            0 <= i < 36 ==> {
                let c = #[trigger] uuid_text(id as nat)[i];
                if i == 8 || i == 13 || i == 18 || i == 23 {
                    c == '-'
                } else {
                    '0' <= c <= '9' || 'a' <= c <= 'f'
                }
            },
{
    let h = text::hexadecimal(id as nat, 32, false);
    lemma_hexadecimal_digits(id as nat, 32, false);
    let t = uuid_text(id as nat);
    assert forall|i: int| 0 <= i < 36 implies {
        let c = #[trigger] t[i];
        if i == 8 || i == 13 || i == 18 || i == 23 {
            c == '-'
        } else {
            '0' <= c <= '9' || 'a' <= c <= 'f'
        }
    } by {
        if i < 8 {
            assert(t[i] == h[i]);
        } else if 8 < i < 13 {
            assert(t[i] == h[i - 1]);
        } else if 13 < i < 18 {
            assert(t[i] == h[i - 2]);
        } else if 18 < i < 23 {
            assert(t[i] == h[i - 3]);
        } else if 23 < i {
            assert(t[i] == h[i - 4]);
        }
    }
}

proof fn lemma_hexadecimal_digits(n: nat, width: nat, upper: bool)
    ensures
        text::hexadecimal(n, width, upper).len() == width,
        forall|i: int|
            0 <= i < width ==> {
                let c = #[trigger] text::hexadecimal(n, width, upper)[i];
                ||| '0' <= c <= '9'
                ||| upper && 'A' <= c <= 'F'
                ||| !upper && 'a' <= c <= 'f'
            },
    decreases width,
{
    if width > 0 {
        let rest = text::hexadecimal(n / 16, (width - 1) as nat, upper);
        lemma_hexadecimal_digits(n / 16, (width - 1) as nat, upper);
        assert forall|i: int| 0 <= i < width implies {
            let c = #[trigger] text::hexadecimal(n, width, upper)[i];
            ||| '0' <= c <= '9'
            ||| upper && 'A' <= c <= 'F'
            ||| !upper && 'a' <= c <= 'f'
        } by {
            if i < width - 1 {
                assert(text::hexadecimal(n, width, upper)[i] == rest[i]);
            }
        }
    }
}

/// Four capital hexadecimal digits write a 16-bit number, and are read back as it.
pub proof fn law_hex_id(n: u16)
    ensures
        text::hexadecimal(n as nat, 4, true).len() == 4,
        forall|i: int|
            0 <= i < 4 ==> {
                let c = #[trigger] text::hexadecimal(n as nat, 4, true)[i];
                '0' <= c <= '9' || 'A' <= c <= 'F'
            },
        hex_number(text::hexadecimal(n as nat, 4, true)) == Some(n as nat),
{
    assert(n < power_of_16(4)) by {
        reveal_with_fuel(power_of_16, 5);
    }
    lemma_hexadecimal(n as nat, 4, true);
    lemma_hexadecimal_digits(n as nat, 4, true);
}

/// There is one way to write a number in so many capital hexadecimal digits.
pub proof fn law_one_way_to_write_hex(s: Seq<char>, t: Seq<char>)
    requires
        s.len() == t.len(),
        forall|i: int| 0 <= i < s.len() ==> '0' <= #[trigger] s[i] <= '9' || 'A' <= s[i] <= 'F',
        forall|i: int| 0 <= i < t.len() ==> '0' <= #[trigger] t[i] <= '9' || 'A' <= t[i] <= 'F',
        hex_number(s) == hex_number(t),
    ensures
        s == t,
        hex_number(s) is Some,
    decreases s.len(),
{
    if s.len() > 0 {
        let a = s.drop_last();
        let b = t.drop_last();
        let c = s[s.len() - 1];
        let d = t[t.len() - 1];
        assert forall|i: int| 0 <= i < a.len() implies '0' <= #[trigger] a[i] <= '9' || 'A' <= a[i]
            <= 'F' by {
            assert(a[i] == s[i]);
        }
        assert forall|i: int| 0 <= i < b.len() implies '0' <= #[trigger] b[i] <= '9' || 'A' <= b[i]
            <= 'F' by {
            assert(b[i] == t[i]);
        }
        lemma_capital_hex_is_number(a);
        lemma_capital_hex_is_number(b);
        assert(hex_number(a) == hex_number(b) && hex_value(c) == hex_value(d));
        law_one_way_to_write_hex(a, b);
        assert(s =~= a.push(c));
        assert(t =~= b.push(d));
    } else {
        assert(s =~= t);
    }
}

proof fn lemma_capital_hex_is_number(s: Seq<char>)
    requires
        forall|i: int| 0 <= i < s.len() ==> '0' <= #[trigger] s[i] <= '9' || 'A' <= s[i] <= 'F',
    ensures
        hex_number(s) is Some,
    decreases s.len(),
{
    if s.len() > 0 {
        let a = s.drop_last();
        assert forall|i: int| 0 <= i < a.len() implies '0' <= #[trigger] a[i] <= '9' || 'A' <= a[i]
            <= 'F' by {
            assert(a[i] == s[i]);
        }
        lemma_capital_hex_is_number(a);
        assert('0' <= s[s.len() - 1] <= '9' || 'A' <= s[s.len() - 1] <= 'F');
    }
}

/// The last hexadecimal digits of a number are as many as asked for, all capital or all small, and
/// make up the number but for multiples of the power of sixteen that so many digits cannot reach.
pub proof fn law_hexadecimal_reads_back(n: nat, width: nat, upper: bool)
    ensures
        text::hexadecimal(n, width, upper).len() == width,
        forall|i: int|
            0 <= i < width ==> {
                let c = #[trigger] text::hexadecimal(n, width, upper)[i];
                ||| '0' <= c <= '9'
                ||| upper && 'A' <= c <= 'F'
                ||| !upper && 'a' <= c <= 'f'
            },
        hex_number(text::hexadecimal(n, width, upper)) == Some(
            (n as int % vstd::arithmetic::power::pow(16, width)) as nat,
        ),
    decreases width,
{
    lemma_hexadecimal_digits(n, width, upper);
    vstd::arithmetic::power::lemma_pow_positive(16, width);
    if width == 0 {
        vstd::arithmetic::power::lemma_pow0(16);
    } else {
        let less = (width - 1) as nat;
        law_hexadecimal_reads_back(n / 16, less, upper);
        let s = text::hexadecimal(n, width, upper);
        assert(s.drop_last() =~= text::hexadecimal(n / 16, less, upper));
        assert(hex_value(s.last()) == Some(n % 16));
        vstd::arithmetic::power::lemma_pow_positive(16, less);
        reveal(vstd::arithmetic::power::pow);
        vstd::arithmetic::div_mod::lemma_mod_breakdown(
            n as int,
            16,
            vstd::arithmetic::power::pow(16, less),
        );
    }
}

} // verus!
