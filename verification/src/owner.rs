//! The owner block of a card readout.
//!
//! After the punches a readout may hold one byte that tells a character set and then a
//! NUL-terminated text `first;last;...`. The owner's name is made of the first two fields. Without
//! a NUL the area was never written and there is no owner. The text is read as UTF-8 whatever the
//! character set byte says.
use vstd::prelude::*;
use vstd::slice::slice_subrange;
use vstd::utf8::{decode_utf8, encode_utf8, valid_utf8};
use crate::search;
use crate::text::chars_of;

verus! {

/// Whether `c` has the Unicode property White_Space.
pub open spec fn is_space(c: char) -> bool {
    let v = c as u32;
    ||| 0x09 <= v <= 0x0D
    ||| v == 0x20
    ||| v == 0x85
    ||| v == 0xA0
    ||| v == 0x1680
    ||| 0x2000 <= v <= 0x200A
    ||| 0x2028 <= v <= 0x2029
    ||| v == 0x202F
    ||| v == 0x205F
    ||| v == 0x3000
}

/// `s` without the white space at its start.
pub open spec fn trimmed_start(s: Seq<char>) -> Seq<char>
    decreases s.len(),
{
    if s.len() > 0 && is_space(s[0]) {
        trimmed_start(s.skip(1))
    } else {
        s
    }
}

/// `s` without the white space at its end.
pub open spec fn trimmed_end(s: Seq<char>) -> Seq<char>
    decreases s.len(),
{
    if s.len() > 0 && is_space(s.last()) {
        trimmed_end(s.drop_last())
    } else {
        s
    }
}

/// `s` without the white space around it.
pub open spec fn trimmed(s: Seq<char>) -> Seq<char> {
    trimmed_end(trimmed_start(s))
}

/// The text before the first semicolon of `s`, or all of `s` if it has none.
pub open spec fn first_field(s: Seq<char>) -> Seq<char> {
    match s.index_of_first(';') {
        Some(i) => s.take(i),
        None => s,
    }
}

/// The text after the first semicolon of `s`, or nothing if it has none.
pub open spec fn after_first_field(s: Seq<char>) -> Seq<char> {
    match s.index_of_first(';') {
        Some(i) => s.skip(i + 1),
        None => seq![],
    }
}

/// The owner's first name in the text of an owner block.
pub open spec fn first_name(text: Seq<char>) -> Seq<char> {
    trimmed(first_field(text))
}

/// The owner's last name in the text of an owner block.
pub open spec fn last_name(text: Seq<char>) -> Seq<char> {
    trimmed(first_field(after_first_field(text)))
}

/// The owner that the text of an owner block tells: first and last name with a space between them
/// and none around them, or nobody if both names are empty.
pub open spec fn owner_of_text(text: Seq<char>) -> Option<Seq<char>> {
    if first_name(text).len() == 0 && last_name(text).len() == 0 {
        None
    } else {
        Some(trimmed(first_name(text) + seq![' '] + last_name(text)))
    }
}

/// What `String::from_utf8_lossy` makes of bytes that are not valid UTF-8.
pub uninterp spec fn utf8_repaired(bytes: Seq<u8>) -> Seq<char>;

/// The text that `bytes` encode in UTF-8, repaired where they are not valid.
pub open spec fn text_of_bytes(bytes: Seq<u8>) -> Seq<char> {
    if valid_utf8(bytes) {
        decode_utf8(bytes)
    } else {
        utf8_repaired(bytes)
    }
}

/// The owner that the bytes after the punches of a readout tell.
pub open spec fn owner_of_block(block: Seq<u8>) -> Option<Seq<char>> {
    if block.len() == 0 {
        None
    } else {
        match block.skip(1).index_of_first(0) {
            Some(nul) => owner_of_text(text_of_bytes(block.skip(1).take(nul))),
            None => None,
        }
    }
}

/// The text of an optional string.
pub open spec fn optional_text(s: Option<String>) -> Option<Seq<char>> {
    match s {
        Some(s) => Some(s@),
        None => None,
    }
}

/// Whether `s` has two semicolons, so that both names end in it.
pub open spec fn has_both_names(s: Seq<char>) -> bool {
    s.contains(';') && after_first_field(s).contains(';')
}

/// Whether the first `n` bytes of the text in `block` are valid UTF-8 in which both names end. What
/// follows them up to the NUL, valid or not, has then no influence on the owner.
pub open spec fn names_end_within(block: Seq<u8>, n: int) -> bool {
    &&& 0 <= n < block.len()
    &&& !block.subrange(1, n + 1).contains(0)
    &&& block.skip(1).contains(0)
    &&& valid_utf8(block.subrange(1, n + 1))
    &&& has_both_names(decode_utf8(block.subrange(1, n + 1)))
}

/// The ASCII characters of `s`, in order.
pub open spec fn ascii_chars(s: Seq<char>) -> Seq<char>
    decreases s.len(),
{
    if s.len() == 0 {
        seq![]
    } else if s.last() as u32 <= 0x7F {
        ascii_chars(s.drop_last()).push(s.last())
    } else {
        ascii_chars(s.drop_last())
    }
}

/// The characters that the ASCII bytes of `b` stand for, in order.
pub open spec fn ascii_bytes(b: Seq<u8>) -> Seq<char>
    decreases b.len(),
{
    if b.len() == 0 {
        seq![]
    } else if b.last() <= 0x7F {
        ascii_bytes(b.drop_last()).push(b.last() as char)
    } else {
        ascii_bytes(b.drop_last())
    }
}

/// The visible ASCII characters of `s`, in order.
pub open spec fn visible(s: Seq<char>) -> Seq<char>
    decreases s.len(),
{
    if s.len() == 0 {
        seq![]
    } else if '!' <= s.last() <= '~' {
        visible(s.drop_last()).push(s.last())
    } else {
        visible(s.drop_last())
    }
}

/// The bytes before the first `x` of `b`, or all of `b` if it has none.
pub open spec fn bytes_before(b: Seq<u8>, x: u8) -> Seq<u8> {
    match b.index_of_first(x) {
        Some(i) => b.take(i),
        None => b,
    }
}

/// The bytes after the first `x` of `b`, or nothing if it has none.
pub open spec fn bytes_after(b: Seq<u8>, x: u8) -> Seq<u8> {
    match b.index_of_first(x) {
        Some(i) => b.skip(i + 1),
        None => seq![],
    }
}

/// The visible ASCII characters of the first two fields that are written in `block`, in order.
pub open spec fn visible_in_block(block: Seq<u8>) -> Seq<char> {
    let bytes = bytes_before(block.skip(1), 0);
    visible(ascii_bytes(bytes_before(bytes, 0x3B))) + visible(
        ascii_bytes(bytes_before(bytes_after(bytes, 0x3B), 0x3B)),
    )
}

/// Whether `owner` is the one whose names the text in `block` starts with, if both names end in
/// valid UTF-8, nobody if the text starts with two semicolons, and in any case without NUL and with
/// all the visible ASCII characters of the first two fields and no others, valid UTF-8 or not.
pub open spec fn agrees_with_block(block: Seq<u8>, owner: Option<Seq<char>>) -> bool {
    &&& forall|n: int| #[trigger]
        names_end_within(block, n) ==> owner == owner_of_text(
            decode_utf8(block.subrange(1, n + 1)),
        )
    &&& block.len() >= 3 && block[1] == 0x3B && block[2] == 0x3B ==> owner is None
    &&& owner matches Some(name) ==> !name.contains('\0')
    &&& block.len() > 0 && block.skip(1).contains(0) ==> {
        &&& visible_in_block(block).len() > 0 ==> owner is Some
        &&& owner matches Some(name) ==> visible(name) == visible_in_block(block)
    }
}

/// Calls `String::from_utf8_lossy`. Valid UTF-8 gives the text that it encodes; other bytes give
/// the text that [`utf8_repaired`] names. Either way the text starts with what any valid start of
/// the bytes encodes, has a NUL only if the bytes have a zero, and has the same ASCII characters in
/// the same order as the bytes: a byte below 0x80 is a character by itself and never a part of what
/// is invalid. Where the bytes stop being valid U+FFFD takes their place; how often, and which other
/// characters follow it, is left unsaid.
#[verifier::external_body]
fn decode_lossy(bytes: &[u8]) -> (text: String)
    ensures
        valid_utf8(bytes@) ==> text@ == decode_utf8(bytes@),
        !valid_utf8(bytes@) ==> text@ == utf8_repaired(bytes@),
        forall|n: int|
            0 <= n <= bytes@.len() && valid_utf8(#[trigger] bytes@.take(n)) ==> decode_utf8(
                bytes@.take(n),
            ).is_prefix_of(text@),
        text@.contains('\0') ==> bytes@.contains(0),
        ascii_chars(text@) == ascii_bytes(bytes@),
{
    String::from_utf8_lossy(bytes).into_owned()
}

/// Tells whether `c` is white space.
pub fn is_white_space(c: char) -> (r: bool)
    ensures
        r == is_space(c),
{
    let v: u32 = c as u32;
    (0x09 <= v && v <= 0x0D) || v == 0x20 || v == 0x85 || v == 0xA0 || v == 0x1680 || (0x2000 <= v
        && v <= 0x200A) || v == 0x2028 || v == 0x2029 || v == 0x202F || v == 0x205F || v == 0x3000
}

/// Returns `s` without the white space around it.
pub fn trim(s: &str) -> (r: &str)
    ensures
        r@ == trimmed(s@),
{
    let chars: Vec<char> = chars_of(s);
    let len: usize = chars.len();
    let mut from: usize = 0;
    assert(s@.subrange(0, len as int) =~= s@);
    while from < len && is_white_space(chars[from])
        invariant
            from <= len,
            len == chars@.len(),
            chars@ == s@,
            trimmed_start(s@) == trimmed_start(s@.subrange(from as int, len as int)),
        decreases len - from,
    {
        proof {
            let rest = s@.subrange(from as int, len as int);
            assert(rest.skip(1) =~= s@.subrange(from + 1, len as int));
        }
        from = from + 1;
    }
    let mut to: usize = len;
    while to > from && is_white_space(chars[to - 1])
        invariant
            from <= to <= len,
            len == chars@.len(),
            chars@ == s@,
            trimmed(s@) == trimmed_end(s@.subrange(from as int, to as int)),
        decreases to,
    {
        proof {
            let rest = s@.subrange(from as int, to as int);
            assert(rest.drop_last() =~= s@.subrange(from as int, to - 1));
        }
        to = to - 1;
    }
    s.substring_char(from, to)
}

/// Splits `s` at its first semicolon, which belongs to neither part.
fn split_field(s: &str) -> (r: (&str, &str))
    ensures
        r.0@ == first_field(s@),
        r.1@ == after_first_field(s@),
{
    let chars: Vec<char> = chars_of(s);
    let len: usize = chars.len();
    proof {
        s@.index_of_first_ensures(';');
    }
    match search::find_char(chars.as_slice(), ';') {
        Some(i) => (s.substring_char(0, i), s.substring_char(i + 1, len)),
        None => (s, s.substring_char(len, len)),
    }
}

/// Returns the owner that the text of an owner block tells.
pub fn owner_name(text: &str) -> (r: Option<String>)
    ensures
        optional_text(r) == owner_of_text(text@),
        match r {
            Some(name) => owner_of_text(text@) == Some(name@),
            None => owner_of_text(text@) is None,
        },
{
    let (field, rest) = split_field(text);
    let first = trim(field);
    let last = trim(split_field(rest).0);
    if first.is_empty() && last.is_empty() {
        return None;
    }
    proof {
        reveal_strlit(" ");
    }
    let mut name: String = String::new();
    name.append(first);
    name.append(" ");
    name.append(last);
    assert(name@ =~= first_name(text@) + seq![' '] + last_name(text@));
    Some(trim(name.as_str()).to_owned())
}

/// Returns the owner that the bytes after the punches of a readout tell.
pub fn parse_owner(block: &[u8]) -> (r: Option<String>)
    ensures
        optional_text(r) == owner_of_block(block@),
        agrees_with_block(block@, optional_text(r)),
        match r {
            Some(name) => owner_of_block(block@) == Some(name@),
            None => owner_of_block(block@) is None,
        },
{
    if block.len() == 0 {
        return None;
    }
    let area = slice_subrange(block, 1, block.len());
    proof {
        area@.index_of_first_ensures(0u8);
    }
    match search::find_byte(area, 0) {
        Some(nul) => {
            let bytes = slice_subrange(area, 0, nul);
            let text: String = decode_lossy(bytes);
            proof {
                assert forall|n: int| #[trigger] names_end_within(block@, n) implies owner_of_text(
                    text@,
                ) == owner_of_text(decode_utf8(block@.subrange(1, n + 1))) by {
                    let start = block@.subrange(1, n + 1);
                    if n > nul {
                        assert(start[nul as int] == 0);
                    }
                    assert(bytes@.take(n) =~= start);
                    let rest = text@.skip(decode_utf8(start).len() as int);
                    assert(text@ =~= decode_utf8(start) + rest);
                    law_owner_is_settled_by_two_fields(decode_utf8(start), rest);
                }
                if block@.len() >= 3 && block@[1] == 0x3B && block@[2] == 0x3B {
                    lemma_two_semicolons();
                    assert(block@.subrange(1, 3) =~= seq![0x3Bu8, 0x3Bu8]);
                    assert(names_end_within(block@, 2));
                }
                assert(!bytes@.contains(0));
                law_owner_consists_of_text(text@);
                law_owner_keeps_visible_characters(text@);
                lemma_fields_agree(text@, bytes@);
                lemma_fields_agree(after_first_field(text@), bytes_after(bytes@, 0x3B));
                lemma_visible_ascii(first_field(text@));
                lemma_visible_ascii(first_field(after_first_field(text@)));
                assert(area@ =~= block@.skip(1));
                assert(bytes@ =~= bytes_before(block@.skip(1), 0));
            }
            owner_name(text.as_str())
        },
        None => None,
    }
}

/// The owner with the given names, of which either may be empty.
pub open spec fn full_name(first: Seq<char>, last: Seq<char>) -> Option<Seq<char>> {
    if first.len() == 0 && last.len() == 0 {
        None
    } else if last.len() == 0 {
        Some(first)
    } else if first.len() == 0 {
        Some(last)
    } else {
        Some(first + seq![' '] + last)
    }
}

/// Whether `s` can stand as a name in an owner block and be read back as it is.
pub open spec fn is_plain_name(s: Seq<char>) -> bool {
    &&& trimmed(s) == s
    &&& !s.contains(';')
}

proof fn lemma_trimmed_start(s: Seq<char>)
    ensures
        trimmed_start(s).len() <= s.len(),
        trimmed_start(s) == s.skip(s.len() - trimmed_start(s).len()),
        trimmed_start(s).len() > 0 ==> !is_space(trimmed_start(s)[0]),
    decreases s.len(),
{
    if s.len() > 0 && is_space(s[0]) {
        let rest = s.skip(1);
        lemma_trimmed_start(rest);
        assert(rest.skip(rest.len() - trimmed_start(rest).len()) =~= s.skip(
            s.len() - trimmed_start(rest).len(),
        ));
    } else {
        assert(s.skip(0) =~= s);
    }
}

proof fn lemma_trimmed_end(s: Seq<char>)
    ensures
        trimmed_end(s).len() <= s.len(),
        trimmed_end(s) == s.take(trimmed_end(s).len() as int),
        trimmed_end(s).len() > 0 ==> !is_space(trimmed_end(s).last()),
    decreases s.len(),
{
    if s.len() > 0 && is_space(s.last()) {
        let rest = s.drop_last();
        lemma_trimmed_end(rest);
        assert(rest.take(trimmed_end(rest).len() as int) =~= s.take(
            trimmed_end(rest).len() as int,
        ));
    } else {
        assert(s.take(s.len() as int) =~= s);
    }
}

/// Trimming leaves a part of the text that neither starts nor ends with white space, and trimming
/// again changes nothing.
pub proof fn law_trimmed(s: Seq<char>)
    ensures
        trimmed(s).len() > 0 ==> !is_space(trimmed(s)[0]) && !is_space(trimmed(s).last()),
        trimmed(trimmed(s)) == trimmed(s),
        exists|i: int, j: int|
            0 <= i <= j <= s.len() && trimmed(s) == #[trigger] s.subrange(i, j),
{
    lemma_trimmed_start(s);
    lemma_trimmed_end(trimmed_start(s));
    let i = s.len() - trimmed_start(s).len();
    assert(trimmed(s) =~= s.subrange(i, i + trimmed(s).len()));
}

/// Text without white space at its ends is left as it is by trimming.
proof fn lemma_trimmed_unchanged(s: Seq<char>)
    requires
        s.len() > 0,
        !is_space(s[0]),
        !is_space(s.last()),
    ensures
        trimmed(s) == s,
{
}

/// Trimming takes one space off the end of text without white space at its ends.
proof fn lemma_trimmed_space_after(s: Seq<char>)
    requires
        s.len() > 0,
        !is_space(s[0]),
        !is_space(s.last()),
    ensures
        trimmed(s.push(' ')) == s,
{
    let t = s.push(' ');
    assert(trimmed_start(t) == t);
    assert(t.drop_last() =~= s);
    assert(trimmed_end(t) == trimmed_end(s));
}

/// Trimming takes one space off the start of text without white space at its ends.
proof fn lemma_trimmed_space_before(s: Seq<char>)
    requires
        s.len() > 0,
        !is_space(s[0]),
        !is_space(s.last()),
    ensures
        trimmed(seq![' '] + s) == s,
{
    let t = seq![' '] + s;
    assert(t.skip(1) =~= s);
    assert(trimmed_start(t) == trimmed_start(s));
}

/// The owner is the first and the last name with one space between them, or just one of them if
/// the other is empty, or nobody if both are.
pub proof fn law_owner_joins_names(text: Seq<char>)
    ensures
        owner_of_text(text) == full_name(first_name(text), last_name(text)),
{
    let first = first_name(text);
    let last = last_name(text);
    let both = first + seq![' '] + last;
    law_trimmed(first_field(text));
    law_trimmed(first_field(after_first_field(text)));
    if first.len() == 0 && last.len() == 0 {
    } else if last.len() == 0 {
        assert(both =~= first.push(' '));
        lemma_trimmed_space_after(first);
    } else if first.len() == 0 {
        assert(both =~= seq![' '] + last);
        lemma_trimmed_space_before(last);
    } else {
        assert(both[0] == first[0]);
        assert(both.last() == last.last());
        lemma_trimmed_unchanged(both);
    }
}

/// An owner's name is never empty and has no white space around it.
pub proof fn law_owner_is_trimmed(text: Seq<char>)
    ensures
        owner_of_text(text) matches Some(owner) ==> owner.len() > 0 && trimmed(owner) == owner,
{
    law_owner_joins_names(text);
    law_trimmed(first_field(text));
    law_trimmed(first_field(after_first_field(text)));
    law_trimmed(first_name(text) + seq![' '] + last_name(text));
}

/// Every character of the trimmed text is one of the text.
proof fn lemma_trimmed_consists_of_text(s: Seq<char>)
    ensures
        forall|c: char| trimmed(s).contains(c) ==> s.contains(c),
{
    law_trimmed(s);
    let (i, j) = choose|i: int, j: int|
        0 <= i <= j <= s.len() && trimmed(s) == #[trigger] s.subrange(i, j);
    assert forall|c: char| trimmed(s).contains(c) implies s.contains(c) by {
        let k = trimmed(s).index_of(c);
        assert(s[i + k] == c);
    }
}

/// Every character of the first field, or after it, is one of the text.
proof fn lemma_fields_consist_of_text(s: Seq<char>, c: char)
    ensures
        first_field(s).contains(c) ==> s.contains(c),
        after_first_field(s).contains(c) ==> s.contains(c),
{
    s.index_of_first_ensures(';');
    if first_field(s).contains(c) {
        let i = choose|i: int| 0 <= i < first_field(s).len() && first_field(s)[i] == c;
        assert(s[i] == c);
    }
    if after_first_field(s).contains(c) {
        let rest = after_first_field(s);
        let i = choose|i: int| 0 <= i < rest.len() && rest[i] == c;
        assert(s[s.len() - rest.len() + i] == c);
    }
}

/// The owner holds no character that the text does not hold, but for the space between the names.
pub proof fn law_owner_consists_of_text(text: Seq<char>)
    ensures
        owner_of_text(text) matches Some(owner) ==> forall|c: char|
            owner.contains(c) && c != ' ' ==> text.contains(c),
{
    let rest = after_first_field(text);
    let first = first_name(text);
    let last = last_name(text);
    let names = first + seq![' '] + last;
    lemma_trimmed_consists_of_text(first_field(text));
    lemma_trimmed_consists_of_text(first_field(rest));
    lemma_trimmed_consists_of_text(names);
    assert forall|c: char| names.contains(c) && c != ' ' implies text.contains(c) by {
        let k = choose|k: int| 0 <= k < names.len() && names[k] == c;
        if k < first.len() {
            assert(first[k] == c);
        } else {
            assert(last[k - first.len() - 1] == c);
            lemma_fields_consist_of_text(rest, c);
        }
        lemma_fields_consist_of_text(text, c);
    }
}

/// Names are read back from `first;last`, whatever further fields follow.
pub proof fn law_names_read_back(first: Seq<char>, last: Seq<char>, more: Seq<char>)
    requires
        is_plain_name(first),
        is_plain_name(last),
        more.len() == 0 || more[0] == ';',
    ensures
        owner_of_text(first + seq![';'] + last + more) == full_name(first, last),
{
    let text = first + seq![';'] + last + more;
    let rest = last + more;
    assert(text[first.len() as int] == ';');
    assert forall|j: int| 0 <= j < first.len() implies text[j] != ';' by {
        assert(first[j] == text[j]);
    }
    search::lemma_first_index(text, ';', first.len() as int);
    assert(text.take(first.len() as int) =~= first);
    assert(text.skip(first.len() as int + 1) =~= rest);
    assert forall|j: int| 0 <= j < last.len() implies rest[j] != ';' by {
        assert(last[j] == rest[j]);
    }
    if more.len() == 0 {
        assert(rest =~= last);
        search::lemma_no_index(rest, ';');
    } else {
        assert(rest[last.len() as int] == ';');
        search::lemma_first_index(rest, ';', last.len() as int);
        assert(rest.take(last.len() as int) =~= last);
    }
    law_owner_joins_names(text);
}

/// Once both names have ended, nothing that follows in the text has any influence on the owner.
pub proof fn law_owner_is_settled_by_two_fields(start: Seq<char>, more: Seq<char>)
    requires
        has_both_names(start),
    ensures
        owner_of_text(start + more) == owner_of_text(start),
{
    let text = start + more;
    let rest = after_first_field(start);
    start.index_of_first_ensures(';');
    let i = start.index_of_first(';').unwrap();
    assert forall|j: int| 0 <= j <= i implies text[j] == start[j] by {}
    search::lemma_first_index(text, ';', i);
    assert(text.take(i) =~= start.take(i));
    assert(text.skip(i + 1) =~= rest + more);
    rest.index_of_first_ensures(';');
    let k = rest.index_of_first(';').unwrap();
    assert forall|j: int| 0 <= j <= k implies (rest + more)[j] == rest[j] by {}
    search::lemma_first_index(rest + more, ';', k);
    assert((rest + more).take(k) =~= rest.take(k));
}

/// Two bytes `;` encode two semicolons, and tell no owner.
proof fn lemma_two_semicolons()
    ensures
        valid_utf8(seq![0x3Bu8, 0x3Bu8]),
        has_both_names(decode_utf8(seq![0x3Bu8, 0x3Bu8])),
        owner_of_text(decode_utf8(seq![0x3Bu8, 0x3Bu8])) == None::<Seq<char>>,
{
    let text = seq![';', ';'];
    let bytes = seq![0x3Bu8, 0x3Bu8];
    vstd::utf8::is_ascii_chars_encode_utf8(text);
    assert(encode_utf8(text)[0] == text[0] as u8);
    assert(encode_utf8(text)[1] == text[1] as u8);
    assert(encode_utf8(text) =~= bytes);
    vstd::utf8::encode_utf8_valid_utf8(text);
    vstd::utf8::encode_utf8_decode_utf8(text);
    assert(text[0] == ';' && text.contains(';'));
    search::lemma_first_index(text, ';', 0);
    assert(text.skip(1) =~= seq![';']);
    assert(seq![';'][0] == ';' && seq![';'].contains(';'));
    search::lemma_first_index(seq![';'], ';', 0);
}

/// The UTF-8 encoding of a text without NUL has no zero byte.
proof fn lemma_encoding_without_zero(text: Seq<char>)
    requires
        !text.contains('\0'),
    ensures
        forall|j: int| 0 <= j < encode_utf8(text).len() ==> #[trigger] encode_utf8(text)[j] != 0,
    decreases text.len(),
{
    if text.len() > 0 {
        let c = text[0] as u32;
        let rest = text.drop_first();
        assert(text.contains(text[0]));
        assert(!rest.contains('\0')) by {
            if rest.contains('\0') {
                let j = choose|j: int| 0 <= j < rest.len() && rest[j] == '\0';
                assert(text[j + 1] == '\0');
            }
        }
        lemma_encoding_without_zero(rest);
        assert(c != 0 && c <= 0x7F ==> (c & 0x7F) as u8 != 0) by (bit_vector);
        let x2 = ((c >> 6) & 0x1F) as u8;
        let x3 = ((c >> 12) & 0x0F) as u8;
        let x4 = ((c >> 18) & 0x7) as u8;
        let y1 = (c & 0x3F) as u8;
        let y2 = ((c >> 6) & 0x3F) as u8;
        let y3 = ((c >> 12) & 0x3F) as u8;
        assert(0xC0u8 | x2 != 0) by (bit_vector);
        assert(0xE0u8 | x3 != 0) by (bit_vector);
        assert(0xF0u8 | x4 != 0) by (bit_vector);
        assert(0x80u8 | y1 != 0) by (bit_vector);
        assert(0x80u8 | y2 != 0) by (bit_vector);
        assert(0x80u8 | y3 != 0) by (bit_vector);
        let head = vstd::utf8::encode_scalar(c);
        vstd::utf8::char_is_scalar(text[0]);
        vstd::utf8::char_u32_cast(text[0], c);
        assert(c != 0);
        assert(forall|j: int| 0 <= j < head.len() ==> #[trigger] head[j] != 0) by {
            if vstd::utf8::has_width_1_encoding(c) {
                assert(head =~= seq![(c & 0x7F) as u8]);
            } else if vstd::utf8::has_width_2_encoding(c) {
                assert(head =~= seq![0xC0u8 | x2, 0x80u8 | y1]);
            } else if vstd::utf8::has_width_3_encoding(c) {
                assert(head =~= seq![0xE0u8 | x3, 0x80u8 | y2, 0x80u8 | y1]);
            } else {
                assert(head =~= seq![0xF0u8 | x4, 0x80u8 | y3, 0x80u8 | y2, 0x80u8 | y1]);
            }
        }
        assert forall|j: int| 0 <= j < encode_utf8(text).len() implies #[trigger] encode_utf8(
            text,
        )[j] != 0 by {
            if j >= head.len() {
                assert(encode_utf8(text)[j] == encode_utf8(rest)[j - head.len()]);
            } else {
                assert(encode_utf8(text)[j] == head[j]);
            }
        }
    }
}

/// A text that is written into an owner block, NUL-terminated and in UTF-8, is the text from which
/// the owner is read, whatever the character set byte says and whatever follows the NUL.
pub proof fn law_owner_text_reads_back(charset: u8, text: Seq<char>, padding: Seq<u8>)
    requires
        !text.contains('\0'),
    ensures
        owner_of_block(seq![charset] + encode_utf8(text) + seq![0u8] + padding) == owner_of_text(
            text,
        ),
{
    let bytes = encode_utf8(text);
    let block = seq![charset] + bytes + seq![0u8] + padding;
    let area = block.skip(1);
    lemma_encoding_without_zero(text);
    assert(area =~= bytes + seq![0u8] + padding);
    assert(area[bytes.len() as int] == 0);
    assert forall|j: int| 0 <= j < bytes.len() implies area[j] != 0 by {
        assert(area[j] == bytes[j]);
    }
    search::lemma_first_index(area, 0u8, bytes.len() as int);
    assert(area.take(bytes.len() as int) =~= bytes);
    vstd::utf8::encode_utf8_valid_utf8(text);
    vstd::utf8::encode_utf8_decode_utf8(text);
}

/// The names that are written into an owner block as `first;last`, NUL-terminated and in UTF-8,
/// are the owner that is read from it, whatever the character set byte says, and whatever further
/// fields and padding follow.
pub proof fn law_owner_reads_back(
    charset: u8,
    first: Seq<char>,
    last: Seq<char>,
    more: Seq<char>,
    padding: Seq<u8>,
)
    requires
        is_plain_name(first),
        is_plain_name(last),
        more.len() == 0 || more[0] == ';',
        !(first + seq![';'] + last + more).contains('\0'),
    ensures
        owner_of_block(
            seq![charset] + encode_utf8(first + seq![';'] + last + more) + seq![0u8] + padding,
        ) == full_name(first, last),
{
    law_owner_text_reads_back(charset, first + seq![';'] + last + more, padding);
    law_names_read_back(first, last, more);
}

/// An owner block without a NUL behind its character set byte tells no owner.
pub proof fn law_no_owner_without_nul(block: Seq<u8>)
    requires
        forall|j: int| 1 <= j < block.len() ==> block[j] != 0,
    ensures
        owner_of_block(block) == None::<Seq<char>>,
{
    if block.len() > 0 {
        search::lemma_no_index(block.skip(1), 0u8);
    }
}

/// Nothing behind the first NUL of an owner block has any influence on the owner.
pub proof fn law_owner_ends_at_nul(block: Seq<u8>, nul: int, padding: Seq<u8>)
    requires
        1 <= nul < block.len(),
        block[nul] == 0,
    ensures
        owner_of_block(block + padding) == owner_of_block(block),
{
    let area = block.skip(1);
    let longer = (block + padding).skip(1);
    assert(area[nul - 1] == 0);
    area.index_of_first_ensures(0u8);
    let first = area.index_of_first(0u8).unwrap();
    assert forall|j: int| 0 <= j <= first implies longer[j] == area[j] by {}
    search::lemma_first_index(longer, 0u8, first);
    assert(longer.take(first) =~= area.take(first));
}

/// Trimming takes off all the white space at the ends and nothing else.
pub proof fn law_trimming_takes_off_white_space(
    before: Seq<char>,
    core: Seq<char>,
    after: Seq<char>,
)
    requires
        forall|i: int| 0 <= i < before.len() ==> is_space(#[trigger] before[i]),
        forall|i: int| 0 <= i < after.len() ==> is_space(#[trigger] after[i]),
        core.len() > 0 ==> !is_space(core[0]) && !is_space(core.last()),
    ensures
        trimmed(before + core + after) == core,
    decreases before.len() + after.len(),
{
    let s = before + core + after;
    if before.len() > 0 {
        assert(is_space(before[0]) && s[0] == before[0]);
        assert forall|i: int| 0 <= i < before.skip(1).len() implies is_space(
            #[trigger] before.skip(1)[i],
        ) by {
            assert(before.skip(1)[i] == before[i + 1]);
        }
        assert(s.skip(1) =~= before.skip(1) + core + after);
        law_trimming_takes_off_white_space(before.skip(1), core, after);
    } else if core.len() > 0 {
        assert(s =~= core + after);
        assert(s[0] == core[0]);
        lemma_trimmed_end_of(core, after);
    } else {
        assert(s =~= after);
        lemma_trimmed_to_nothing(after);
    }
}

proof fn lemma_trimmed_end_of(core: Seq<char>, after: Seq<char>)
    requires
        forall|i: int| 0 <= i < after.len() ==> is_space(#[trigger] after[i]),
        core.len() > 0,
        !is_space(core.last()),
    ensures
        trimmed_end(core + after) == core,
    decreases after.len(),
{
    if after.len() > 0 {
        let less = after.drop_last();
        assert(is_space(after[after.len() - 1]));
        assert forall|i: int| 0 <= i < less.len() implies is_space(#[trigger] less[i]) by {
            assert(less[i] == after[i]);
        }
        assert((core + after).drop_last() =~= core + less);
        lemma_trimmed_end_of(core, less);
    } else {
        assert(core + after =~= core);
    }
}

proof fn lemma_trimmed_to_nothing(s: Seq<char>)
    requires
        forall|i: int| 0 <= i < s.len() ==> is_space(#[trigger] s[i]),
    ensures
        trimmed(s) == Seq::<char>::empty(),
    decreases s.len(),
{
    if s.len() > 0 {
        assert(is_space(s[0]));
        assert forall|i: int| 0 <= i < s.skip(1).len() implies is_space(#[trigger] s.skip(1)[i]) by {
            assert(s.skip(1)[i] == s[i + 1]);
        }
        lemma_trimmed_to_nothing(s.skip(1));
    } else {
        assert(trimmed(s) =~= Seq::<char>::empty());
    }
}

/// A text is its first field, a semicolon and what follows, or nothing but its first field. The
/// first field has no semicolon.
pub proof fn law_fields_make_up_text(s: Seq<char>)
    ensures
        !first_field(s).contains(';'),
        s.contains(';') ==> s == first_field(s) + seq![';'] + after_first_field(s),
        !s.contains(';') ==> s == first_field(s) && after_first_field(s).len() == 0,
{
    s.index_of_first_ensures(';');
    if s.contains(';') {
        assert(s =~= first_field(s) + seq![';'] + after_first_field(s));
    }
}

/// The owner is made of the whole first two fields, but for white space around them: both with a
/// space between them, or the one that is not empty, or nobody. What follows does not matter.
pub proof fn law_owner_is_first_two_fields(first: Seq<char>, last: Seq<char>, more: Seq<char>)
    requires
        !first.contains(';'),
        !last.contains(';'),
        more.len() == 0 || more[0] == ';',
    ensures
        ({
            let owner = owner_of_text(first + seq![';'] + last + more);
            let a = trimmed(first);
            let b = trimmed(last);
            &&& a.len() > 0 && b.len() > 0 ==> owner == Some(a + seq![' '] + b)
            &&& a.len() > 0 && b.len() == 0 ==> owner == Some(a)
            &&& a.len() == 0 && b.len() > 0 ==> owner == Some(b)
            &&& a.len() == 0 && b.len() == 0 ==> owner is None
        }),
        ({
            let a = trimmed(first);
            &&& a.len() > 0 ==> owner_of_text(first) == Some(a)
            &&& a.len() == 0 ==> owner_of_text(first) is None
        }),
{
    let text = first + seq![';'] + last + more;
    let rest = last + more;
    assert forall|j: int| 0 <= j < first.len() implies text[j] != ';' && first[j] != ';' by {
        assert(first[j] == text[j]);
        assert(first.contains(first[j]));
    }
    search::lemma_first_index(text, ';', first.len() as int);
    assert(text.take(first.len() as int) =~= first);
    assert(text.skip(first.len() as int + 1) =~= rest);
    assert forall|j: int| 0 <= j < last.len() implies rest[j] != ';' by {
        assert(last[j] == rest[j]);
        assert(last.contains(last[j]));
    }
    if more.len() == 0 {
        assert(rest =~= last);
        search::lemma_no_index(rest, ';');
    } else {
        search::lemma_first_index(rest, ';', last.len() as int);
        assert(rest.take(last.len() as int) =~= last);
    }
    law_owner_joins_names(text);
    search::lemma_no_index(first, ';');
    law_fields_make_up_text(first);
    assert(after_first_field(first) =~= seq![]);
    search::lemma_no_index(Seq::<char>::empty(), ';');
    assert(first_field(seq![]) =~= seq![]);
    lemma_trimmed_to_nothing(seq![]);
    law_owner_joins_names(first);
}

/// Whether or not the bytes before the first NUL of an owner block are valid UTF-8, the owner is
/// made of the whole first two fields of the text that they give, but for white space around them.
pub proof fn law_owner_of_any_bytes(
    block: Seq<u8>,
    nul: int,
    first: Seq<char>,
    last: Seq<char>,
    more: Seq<char>,
)
    requires
        1 <= nul < block.len(),
        block[nul] == 0,
        forall|j: int| 1 <= j < nul ==> block[j] != 0,
        !first.contains(';'),
        !last.contains(';'),
        more.len() == 0 || more[0] == ';',
    ensures
        ({
            let bytes = block.subrange(1, nul);
            let text = if valid_utf8(bytes) {
                decode_utf8(bytes)
            } else {
                utf8_repaired(bytes)
            };
            let owner = owner_of_block(block);
            let a = trimmed(first);
            let b = trimmed(last);
            &&& text == first + seq![';'] + last + more ==> {
                &&& a.len() > 0 && b.len() > 0 ==> owner == Some(a + seq![' '] + b)
                &&& a.len() > 0 && b.len() == 0 ==> owner == Some(a)
                &&& a.len() == 0 && b.len() > 0 ==> owner == Some(b)
                &&& a.len() == 0 && b.len() == 0 ==> owner is None
            }
            &&& text == first ==> {
                &&& a.len() > 0 ==> owner == Some(a)
                &&& a.len() == 0 ==> owner is None
            }
        }),
{
    let area = block.skip(1);
    assert forall|j: int| 0 <= j < nul - 1 implies area[j] != 0 by {
        assert(area[j] == block[j + 1]);
    }
    search::lemma_first_index(area, 0u8, nul - 1);
    assert(area.take(nul - 1) =~= block.subrange(1, nul));
    law_owner_is_first_two_fields(first, last, more);
}

proof fn lemma_visible_joins(a: Seq<char>, b: Seq<char>)
    ensures
        visible(a + b) == visible(a) + visible(b),
    decreases b.len(),
{
    if b.len() == 0 {
        assert(a + b =~= a);
        assert(visible(a) + visible(b) =~= visible(a));
    } else {
        lemma_visible_joins(a, b.drop_last());
        assert((a + b).drop_last() =~= a + b.drop_last());
        assert(visible(a + b) =~= visible(a) + visible(b));
    }
}

proof fn lemma_ascii_chars_joins(a: Seq<char>, b: Seq<char>)
    ensures
        ascii_chars(a + b) == ascii_chars(a) + ascii_chars(b),
    decreases b.len(),
{
    if b.len() == 0 {
        assert(a + b =~= a);
        assert(ascii_chars(a) + ascii_chars(b) =~= ascii_chars(a));
    } else {
        lemma_ascii_chars_joins(a, b.drop_last());
        assert((a + b).drop_last() =~= a + b.drop_last());
        assert(ascii_chars(a + b) =~= ascii_chars(a) + ascii_chars(b));
    }
}

proof fn lemma_ascii_bytes_joins(a: Seq<u8>, b: Seq<u8>)
    ensures
        ascii_bytes(a + b) == ascii_bytes(a) + ascii_bytes(b),
    decreases b.len(),
{
    if b.len() == 0 {
        assert(a + b =~= a);
        assert(ascii_bytes(a) + ascii_bytes(b) =~= ascii_bytes(a));
    } else {
        lemma_ascii_bytes_joins(a, b.drop_last());
        assert((a + b).drop_last() =~= a + b.drop_last());
        assert(ascii_bytes(a + b) =~= ascii_bytes(a) + ascii_bytes(b));
    }
}

/// All visible ASCII characters are ASCII characters.
proof fn lemma_visible_ascii(s: Seq<char>)
    ensures
        visible(ascii_chars(s)) == visible(s),
    decreases s.len(),
{
    if s.len() > 0 {
        lemma_visible_ascii(s.drop_last());
        if s.last() as u32 <= 0x7F {
            assert(ascii_chars(s).drop_last() =~= ascii_chars(s.drop_last()));
        }
    }
}

/// White space is not visible.
proof fn lemma_visible_of_space(s: Seq<char>)
    requires
        forall|i: int| 0 <= i < s.len() ==> is_space(#[trigger] s[i]),
    ensures
        visible(s) == Seq::<char>::empty(),
    decreases s.len(),
{
    if s.len() > 0 {
        assert(is_space(s[s.len() - 1]));
        assert forall|i: int| 0 <= i < s.drop_last().len() implies is_space(
            #[trigger] s.drop_last()[i],
        ) by {
            assert(s.drop_last()[i] == s[i]);
        }
        lemma_visible_of_space(s.drop_last());
    }
}

proof fn lemma_visible_trimmed_start(s: Seq<char>)
    ensures
        visible(trimmed_start(s)) == visible(s),
    decreases s.len(),
{
    if s.len() > 0 && is_space(s[0]) {
        lemma_visible_trimmed_start(s.skip(1));
        assert(s =~= seq![s[0]] + s.skip(1));
        lemma_visible_joins(seq![s[0]], s.skip(1));
        lemma_visible_of_space(seq![s[0]]);
        assert(visible(s) =~= visible(s.skip(1)));
    }
}

proof fn lemma_visible_trimmed(s: Seq<char>)
    ensures
        visible(trimmed(s)) == visible(s),
{
    lemma_visible_trimmed_start(s);
    lemma_visible_trimmed_end(trimmed_start(s));
}

proof fn lemma_visible_trimmed_end(s: Seq<char>)
    ensures
        visible(trimmed_end(s)) == visible(s),
    decreases s.len(),
{
    if s.len() > 0 && is_space(s.last()) {
        lemma_visible_trimmed_end(s.drop_last());
    }
}

/// The owner has all the visible ASCII characters of the first two fields, in order, and no others;
/// there is an owner if there is any such character.
pub proof fn law_owner_keeps_visible_characters(text: Seq<char>)
    ensures
        ({
            let shown = visible(first_field(text)) + visible(first_field(after_first_field(text)));
            &&& shown.len() > 0 ==> owner_of_text(text) is Some
            &&& owner_of_text(text) matches Some(owner) ==> visible(owner) == shown
        }),
{
    let first = first_name(text);
    let last = last_name(text);
    law_owner_joins_names(text);
    lemma_visible_trimmed(first_field(text));
    lemma_visible_trimmed(first_field(after_first_field(text)));
    lemma_visible_joins(first + seq![' '], last);
    lemma_visible_joins(first, seq![' ']);
    lemma_visible_of_space(seq![' ']);
    assert(visible(first) + Seq::<char>::empty() =~= visible(first));
    assert(first.len() == 0 ==> visible(first).len() == 0);
    assert(last.len() == 0 ==> visible(last).len() == 0);
    assert(last.len() == 0 ==> visible(first) + visible(last) =~= visible(first));
    assert(first.len() == 0 ==> visible(first) + visible(last) =~= visible(last));
}

proof fn lemma_ascii_chars_hold(s: Seq<char>)
    ensures
        ascii_chars(s).contains(';') <==> s.contains(';'),
    decreases s.len(),
{
    if s.len() > 0 {
        let less = s.drop_last();
        lemma_ascii_chars_hold(less);
        assert(s =~= less.push(s.last()));
        lemma_push_contains(less, s.last());
        lemma_push_contains(ascii_chars(less), s.last());
    }
}

proof fn lemma_ascii_bytes_hold(b: Seq<u8>)
    ensures
        ascii_bytes(b).contains(';') <==> b.contains(0x3B),
    decreases b.len(),
{
    if b.len() > 0 {
        let less = b.drop_last();
        lemma_ascii_bytes_hold(less);
        assert(b =~= less.push(b.last()));
        if b.contains(0x3B) {
            let i = choose|i: int| 0 <= i < b.len() && b[i] == 0x3B;
            if i < less.len() {
                assert(less[i] == 0x3B);
            }
        }
        if less.contains(0x3B) {
            let i = choose|i: int| 0 <= i < less.len() && less[i] == 0x3B;
            assert(b[i] == 0x3B);
        }
        assert(b.last() == 0x3B ==> b[b.len() - 1] == 0x3B);
        assert(b.last() <= 0x7F ==> (b.last() as char == ';' <==> b.last() == 0x3B));
        lemma_push_contains(ascii_bytes(less), b.last() as char);
    }
}

proof fn lemma_push_contains(s: Seq<char>, c: char)
    ensures
        s.push(c).contains(';') <==> s.contains(';') || c == ';',
{
    if s.contains(';') {
        let i = choose|i: int| 0 <= i < s.len() && s[i] == ';';
        assert(s.push(c)[i] == ';');
    }
    if s.push(c).contains(';') {
        let i = choose|i: int| 0 <= i < s.len() + 1 && s.push(c)[i] == ';';
        if i < s.len() {
            assert(s[i] == ';');
        }
    }
    assert(s.push(c)[s.len() as int] == c);
}

/// A text is split at its first semicolon in one way only.
proof fn lemma_split_once(a: Seq<char>, b: Seq<char>, c: Seq<char>, d: Seq<char>)
    requires
        a + seq![';'] + b == c + seq![';'] + d,
        !a.contains(';'),
        !c.contains(';'),
    ensures
        a == c,
        b == d,
{
    let s = a + seq![';'] + b;
    let t = c + seq![';'] + d;
    assert(s[a.len() as int] == ';' && t[c.len() as int] == ';');
    if a.len() < c.len() {
        assert(c[a.len() as int] == t[a.len() as int]);
        assert(c.contains(';'));
    }
    if c.len() < a.len() {
        assert(a[c.len() as int] == s[c.len() as int]);
        assert(a.contains(';'));
    }
    assert(a =~= s.take(a.len() as int) && c =~= t.take(c.len() as int));
    assert(b =~= s.skip(a.len() as int + 1) && d =~= t.skip(c.len() as int + 1));
}

/// Where a text has the ASCII characters of some bytes, its fields have those of the bytes' fields.
proof fn lemma_fields_agree(text: Seq<char>, bytes: Seq<u8>)
    requires
        ascii_chars(text) == ascii_bytes(bytes),
    ensures
        ascii_chars(first_field(text)) == ascii_bytes(bytes_before(bytes, 0x3B)),
        ascii_chars(after_first_field(text)) == ascii_bytes(bytes_after(bytes, 0x3B)),
{
    lemma_ascii_chars_hold(text);
    lemma_ascii_bytes_hold(bytes);
    law_fields_make_up_text(text);
    bytes.index_of_first_ensures(0x3B);
    if bytes.contains(0x3B) {
        let before = bytes_before(bytes, 0x3B);
        let after = bytes_after(bytes, 0x3B);
        let first = first_field(text);
        let rest = after_first_field(text);
        assert(bytes =~= before + seq![0x3Bu8] + after);
        lemma_ascii_bytes_joins(before + seq![0x3Bu8], after);
        lemma_ascii_bytes_joins(before, seq![0x3Bu8]);
        lemma_ascii_chars_joins(first + seq![';'], rest);
        lemma_ascii_chars_joins(first, seq![';']);
        lemma_one_semicolon();
        lemma_ascii_chars_hold(first);
        lemma_ascii_bytes_hold(before);
        assert(!before.contains(0x3B)) by {
            if before.contains(0x3B) {
                let i = choose|i: int| 0 <= i < before.len() && before[i] == 0x3B;
                assert(bytes[i] == 0x3B);
            }
        }
        lemma_split_once(
            ascii_chars(first),
            ascii_chars(rest),
            ascii_bytes(before),
            ascii_bytes(after),
        );
    } else {
        assert(after_first_field(text) =~= seq![]);
    }
}

proof fn lemma_one_semicolon()
    ensures
        ascii_chars(seq![';']) == seq![';'],
        ascii_bytes(seq![0x3Bu8]) == seq![';'],
{
    assert(seq![';'].drop_last() =~= Seq::<char>::empty());
    assert(ascii_chars(seq![';'].drop_last()) =~= seq![]);
    assert(seq![0x3Bu8].drop_last() =~= Seq::<u8>::empty());
    assert(ascii_bytes(seq![0x3Bu8].drop_last()) =~= seq![]);
    assert(ascii_chars(seq![';']) =~= seq![';']);
    assert(ascii_bytes(seq![0x3Bu8]) =~= seq![';']);
}

} // verus!
