//! Text building: decimal and hexadecimal numbers, and padded columns.
use vstd::prelude::*;

verus! {

/// The decimal digit of value `d`.
pub open spec fn digit(d: nat) -> char {
    (0x30 + d) as char
}

/// `n` in decimal, without leading zeros.
pub open spec fn decimal(n: nat) -> Seq<char>
    decreases n,
{
    if n < 10 {
        seq![digit(n)]
    } else {
        decimal(n / 10).push(digit(n % 10))
    }
}

/// `count` times the character `c`.
pub open spec fn repeated(c: char, count: nat) -> Seq<char> {
    Seq::new(count, |i: int| c)
}

/// How many characters `s` lacks to be `width` characters wide.
pub open spec fn missing(s: Seq<char>, width: nat) -> nat {
    if s.len() < width {
        (width - s.len()) as nat
    } else {
        0
    }
}

/// `s` at the right of a column of at least `width` characters, with `fill` before it.
pub open spec fn aligned_right(s: Seq<char>, width: nat, fill: char) -> Seq<char> {
    repeated(fill, missing(s, width)) + s
}

/// `s` at the left of a column of at least `width` characters, with spaces after it.
pub open spec fn aligned_left(s: Seq<char>, width: nat) -> Seq<char> {
    s + repeated(' ', missing(s, width))
}

/// The hexadecimal digit of value `d`, with capital letters if `upper`.
pub open spec fn hex_digit(d: nat, upper: bool) -> char {
    if d < 10 {
        digit(d)
    } else if upper {
        (0x41 + (d - 10)) as char
    } else {
        (0x61 + (d - 10)) as char
    }
}

/// The last `width` hexadecimal digits of `n`.
pub open spec fn hexadecimal(n: nat, width: nat, upper: bool) -> Seq<char>
    decreases width,
{
    if width == 0 {
        seq![]
    } else {
        hexadecimal(n / 16, (width - 1) as nat, upper).push(hex_digit(n % 16, upper))
    }
}

/// The text of each string in `v`.
pub open spec fn texts(v: Seq<String>) -> Seq<Seq<char>> {
    Seq::new(v.len(), |i: int| v[i]@)
}

/// Collects the characters of `s`.
pub fn chars_of(s: &str) -> (r: Vec<char>)
    ensures
        r@ == s@,
{
    let mut r: Vec<char> = Vec::new();
    for c in it: s.chars()
        invariant
            it.seq() == s@,
            r@ == s@.take(it.index() as int),
    {
        r.push(c);
    }
    r
}

/// The capital hexadecimal digit of value `d`, as a string of one character.
fn digit_str(d: u64) -> (r: &'static str)
    requires
        d < 16,
    ensures
        r@ == seq![hex_digit(d as nat, true)],
{
    proof {
        reveal_strlit("0");
        reveal_strlit("1");
        reveal_strlit("2");
        reveal_strlit("3");
        reveal_strlit("4");
        reveal_strlit("5");
        reveal_strlit("6");
        reveal_strlit("7");
        reveal_strlit("8");
        reveal_strlit("9");
        reveal_strlit("A");
        reveal_strlit("B");
        reveal_strlit("C");
        reveal_strlit("D");
        reveal_strlit("E");
        reveal_strlit("F");
    }
    match d {
        0 => "0",
        1 => "1",
        2 => "2",
        3 => "3",
        4 => "4",
        5 => "5",
        6 => "6",
        7 => "7",
        8 => "8",
        9 => "9",
        10 => "A",
        11 => "B",
        12 => "C",
        13 => "D",
        14 => "E",
        _ => "F",
    }
}

/// Appends `n` in decimal.
pub fn push_decimal(out: &mut String, n: u64)
    ensures
        final(out)@ == old(out)@ + decimal(n as nat),
    decreases n,
{
    if n < 10 {
        out.append(digit_str(n));
    } else {
        push_decimal(out, n / 10);
        out.append(digit_str(n % 10));
    }
}

/// The number of decimal digits of `n`.
pub fn decimal_len(n: u64) -> (r: usize)
    ensures
        r == decimal(n as nat).len(),
        1 <= r <= 20,
{
    proof {
        lemma_decimal_len_u64(n);
    }
    let mut rest: u64 = n;
    let mut count: usize = 1;
    while rest >= 10
        invariant
            decimal(n as nat).len() == count - 1 + decimal(rest as nat).len(),
            decimal(n as nat).len() <= 20,
            1 <= count,
        decreases rest,
    {
        proof {
            lemma_decimal_len_u64(rest / 10);
        }
        rest = rest / 10;
        count = count + 1;
    }
    count
}

spec fn power_of_ten(k: nat) -> nat
    decreases k,
{
    if k == 0 {
        1
    } else {
        10 * power_of_ten((k - 1) as nat)
    }
}

proof fn lemma_decimal_len_below(n: nat, k: nat)
    requires
        k >= 1,
        n < power_of_ten(k),
    ensures
        1 <= decimal(n).len() <= k,
    decreases k,
{
    reveal_with_fuel(power_of_ten, 2);
    if n >= 10 {
        lemma_decimal_len_below(n / 10, (k - 1) as nat);
    }
}

proof fn lemma_decimal_len_u64(n: u64)
    ensures
        1 <= decimal(n as nat).len() <= 20,
{
    reveal_with_fuel(power_of_ten, 21);
    lemma_decimal_len_below(n as nat, 20);
}

/// Appends `count` times the only character of `fill`.
fn push_fill(out: &mut String, fill: &str, count: usize)
    requires
        fill@.len() == 1,
    ensures
        final(out)@ == old(out)@ + repeated(fill@[0], count as nat),
{
    let mut done: usize = 0;
    while done < count
        invariant
            fill@.len() == 1,
            done <= count,
            out@ == old(out)@ + repeated(fill@[0], done as nat),
        decreases count - done,
    {
        out.append(fill);
        done = done + 1;
    }
}

/// Appends `n` in decimal at the right of a column of `width` characters, with the only character
/// of `fill` before it.
pub fn push_number(out: &mut String, n: u64, width: usize, fill: &str)
    requires
        fill@.len() == 1,
    ensures
        final(out)@ == old(out)@ + aligned_right(decimal(n as nat), width as nat, fill@[0]),
{
    let len: usize = decimal_len(n);
    if len < width {
        push_fill(out, fill, width - len);
    }
    push_decimal(out, n);
}

/// Appends `s` at the left of a column of `width` characters.
pub fn push_left(out: &mut String, s: &str, width: usize)
    ensures
        final(out)@ == old(out)@ + aligned_left(s@, width as nat),
{
    proof {
        reveal_strlit(" ");
    }
    let len: usize = s.unicode_len();
    out.append(s);
    if len < width {
        push_fill(out, " ", width - len);
    }
}

/// Appends the last `width` hexadecimal digits of `n`, with capital letters.
pub fn push_hex(out: &mut String, n: u64, width: usize)
    ensures
        final(out)@ == old(out)@ + hexadecimal(n as nat, width as nat, true),
    decreases width,
{
    if width > 0 {
        push_hex(out, n / 16, width - 1);
        out.append(digit_str(n % 16));
    }
}

/// The number that the decimal digits `s` make up.
pub open spec fn number_of(s: Seq<char>) -> nat
    decreases s.len(),
{
    if s.len() == 0 {
        0
    } else {
        10 * number_of(s.drop_last()) + (s.last() as nat - '0' as nat) as nat
    }
}

/// Whether `s` writes `n` in decimal as usual: in digits, at least one, and without leading zeros.
pub open spec fn writes(s: Seq<char>, n: int) -> bool {
    &&& s.len() >= 1
    &&& forall|i: int| 0 <= i < s.len() ==> '0' <= #[trigger] s[i] <= '9'
    &&& s.len() > 1 ==> s[0] != '0'
    &&& number_of(s) == n
}

/// Whether `a` is `s` at the right of a column of at least `width` characters, with nothing but
/// `fill` before it.
pub open spec fn is_at_right(a: Seq<char>, s: Seq<char>, width: int, fill: char) -> bool {
    &&& a.len() == if s.len() < width {
        width
    } else {
        s.len() as int
    }
    &&& forall|i: int| 0 <= i < a.len() - s.len() ==> #[trigger] a[i] == fill
    &&& a.skip(a.len() - s.len()) == s
}

/// Whether `a` is `s` at the left of a column of at least `width` characters, with nothing but
/// spaces after it.
pub open spec fn is_at_left(a: Seq<char>, s: Seq<char>, width: int) -> bool {
    &&& a.len() == if s.len() < width {
        width
    } else {
        s.len() as int
    }
    &&& a.take(s.len() as int) == s
    &&& forall|i: int| s.len() <= i < a.len() ==> #[trigger] a[i] == ' '
}

/// Whether `a` shows `n` in decimal at the right of a column of at least `width` characters, with
/// nothing but `fill` before it.
pub open spec fn shows(a: Seq<char>, n: int, width: int, fill: char) -> bool {
    exists|s: Seq<char>| #[trigger] writes(s, n) && is_at_right(a, s, width, fill)
}

/// Each element of the texts is the text of the string in the same place.
pub proof fn law_texts(v: Seq<String>)
    ensures
        texts(v).len() == v.len(),
        forall|i: int| 0 <= i < v.len() ==> #[trigger] texts(v)[i] == v[i]@,
{
}

/// Decimal text is made of digits, has no leading zeros and makes up the number that it was made
/// from.
pub proof fn law_decimal_writes(n: nat)
    ensures
        writes(decimal(n), n as int),
    decreases n,
{
    if n < 10 {
        let s = decimal(n);
        assert(s.drop_last() =~= seq![]);
        assert(number_of(s.drop_last()) == 0);
        assert(s.last() == digit(n));
    } else {
        law_decimal_writes(n / 10);
        let rest = decimal(n / 10);
        let s = decimal(n);
        assert(s.drop_last() =~= rest);
        assert(s.last() == digit(n % 10));
        assert(s[0] == rest[0]);
        if rest.len() == 1 {
            assert(rest.drop_last() =~= seq![]);
            assert(number_of(rest.drop_last()) == 0);
        }
    }
}

proof fn lemma_not_zero(s: Seq<char>)
    requires
        s.len() >= 1,
        forall|i: int| 0 <= i < s.len() ==> '0' <= #[trigger] s[i] <= '9',
        s[0] != '0',
    ensures
        number_of(s) >= 1,
    decreases s.len(),
{
    if s.len() > 1 {
        let rest = s.drop_last();
        assert forall|i: int| 0 <= i < rest.len() implies '0' <= #[trigger] rest[i] <= '9' by {
            assert(rest[i] == s[i]);
        }
        lemma_not_zero(rest);
    } else {
        assert(s.last() == s[0]);
    }
}

proof fn lemma_without_last_digit(s: Seq<char>, n: int)
    requires
        writes(s, n),
    ensures
        s.len() > 1 ==> writes(s.drop_last(), n / 10) && n >= 10,
        s.len() == 1 ==> n < 10,
        s.last() == digit((n % 10) as nat),
{
    let rest = s.drop_last();
    let last = s.last();
    assert('0' <= s[s.len() - 1] <= '9');
    if s.len() > 1 {
        assert forall|i: int| 0 <= i < rest.len() implies '0' <= #[trigger] rest[i] <= '9' by {
            assert(rest[i] == s[i]);
        }
        assert(rest[0] == s[0]);
        lemma_not_zero(rest);
    } else {
        assert(rest =~= seq![]);
        assert(number_of(rest) == 0);
    }
}

/// There is one usual way to write a number.
pub proof fn law_one_way_to_write(s: Seq<char>, t: Seq<char>, n: int)
    requires
        writes(s, n),
        writes(t, n),
    ensures
        s == t,
    decreases s.len(),
{
    lemma_without_last_digit(s, n);
    lemma_without_last_digit(t, n);
    if s.len() > 1 {
        law_one_way_to_write(s.drop_last(), t.drop_last(), n / 10);
        assert(s =~= s.drop_last().push(s.last()));
        assert(t =~= t.drop_last().push(t.last()));
    } else {
        assert(s =~= t);
    }
}

/// Text in a column is the text with nothing but fill before it, and no wider than needed.
pub proof fn law_aligned_right(s: Seq<char>, width: nat, fill: char)
    ensures
        is_at_right(aligned_right(s, width, fill), s, width as int, fill),
{
    let a = aligned_right(s, width, fill);
    assert(a.skip(a.len() - s.len()) =~= s);
}

/// Text in a column is the text with nothing but spaces after it, and no wider than needed.
pub proof fn law_aligned_left(s: Seq<char>, width: nat)
    ensures
        is_at_left(aligned_left(s, width), s, width as int),
{
    assert(aligned_left(s, width).take(s.len() as int) =~= s);
}

/// A column shows a number in one way only: with the digits that make up the number.
pub proof fn law_column(a: Seq<char>, n: nat, width: nat, fill: char)
    ensures
        shows(a, n as int, width as int, fill) <==> a == aligned_right(decimal(n), width, fill),
{
    law_decimal_writes(n);
    law_aligned_right(decimal(n), width, fill);
    if shows(a, n as int, width as int, fill) {
        let s = choose|s: Seq<char>| #[trigger]
            writes(s, n as int) && is_at_right(a, s, width as int, fill);
        law_one_way_to_write(s, decimal(n), n as int);
        lemma_at_right(a, s, width, fill);
    }
}

proof fn lemma_at_right(a: Seq<char>, s: Seq<char>, width: nat, fill: char)
    requires
        is_at_right(a, s, width as int, fill),
    ensures
        a == aligned_right(s, width, fill),
{
    let b = aligned_right(s, width, fill);
    let k = a.len() - s.len();
    assert forall|i: int| 0 <= i < a.len() implies a[i] == b[i] by {
        if i >= k {
            assert(a.skip(k)[i - k] == a[i]);
        }
    }
    assert(a =~= b);
}

/// Text in a left-aligned column is in it in one way only.
pub proof fn law_left_column(a: Seq<char>, s: Seq<char>, width: nat)
    ensures
        is_at_left(a, s, width as int) <==> a == aligned_left(s, width),
{
    law_aligned_left(s, width);
    if is_at_left(a, s, width as int) {
        let b = aligned_left(s, width);
        assert forall|i: int| 0 <= i < a.len() implies a[i] == b[i] by {
            if i < s.len() {
                assert(a.take(s.len() as int)[i] == a[i]);
            }
        }
        assert(a =~= b);
    }
}

/// Whether `a` is made of spaces and, after them, at least one digit.
spec fn ends_in_digits(a: Seq<char>) -> bool {
    &&& a.len() >= 1
    &&& '0' <= a.last() <= '9'
    &&& forall|i: int| 0 <= i < a.len() ==> #[trigger] a[i] == ' ' || '0' <= a[i] <= '9'
    &&& forall|i: int, j: int|
        0 <= i < j < a.len() && '0' <= #[trigger] a[i] <= '9' ==> '0' <= #[trigger] a[j] <= '9'
}

proof fn lemma_column_ends_in_digits(n: nat, width: nat)
    ensures
        ends_in_digits(aligned_right(decimal(n), width, ' ')),
{
    let s = decimal(n);
    let a = aligned_right(s, width, ' ');
    law_decimal_writes(n);
    let k = a.len() - s.len();
    assert forall|i: int| 0 <= i < a.len() implies #[trigger] a[i] == ' ' || '0' <= a[i] <= '9' by {
        if i >= k {
            assert(a[i] == s[i - k]);
        }
    }
    assert forall|i: int, j: int|
        0 <= i < j < a.len() && '0' <= #[trigger] a[i] <= '9' implies '0' <= #[trigger] a[j]
        <= '9' by {
        assert(i >= k);
        assert(a[j] == s[j - k]);
    }
    assert(a.last() == s[s.len() - 1]);
}

proof fn lemma_not_shorter(a: Seq<char>, x: Seq<char>, b: Seq<char>, y: Seq<char>)
    requires
        ends_in_digits(a),
        ends_in_digits(b),
        x.len() > 0,
        !('0' <= x[0] <= '9'),
        a + x == b + y,
    ensures
        b.len() <= a.len(),
{
    if a.len() < b.len() {
        let k = a.len() as int;
        assert((a + x)[k - 1] == a[k - 1] && (b + y)[k - 1] == b[k - 1]);
        assert((a + x)[k] == x[0] && (b + y)[k] == b[k]);
        assert('0' <= b[k - 1] <= '9');
        assert('0' <= b[k] <= '9');
    }
}

/// A number in a column is told apart from what follows it, and from every other number.
pub proof fn law_column_identifies_number(
    m: nat,
    x: Seq<char>,
    n: nat,
    y: Seq<char>,
    width: nat,
)
    requires
        x.len() > 0,
        !('0' <= x[0] <= '9'),
        y.len() > 0,
        !('0' <= y[0] <= '9'),
        aligned_right(decimal(m), width, ' ') + x == aligned_right(decimal(n), width, ' ') + y,
    ensures
        m == n,
        x == y,
{
    let a = aligned_right(decimal(m), width, ' ');
    let b = aligned_right(decimal(n), width, ' ');
    lemma_column_ends_in_digits(m, width);
    lemma_column_ends_in_digits(n, width);
    lemma_not_shorter(a, x, b, y);
    lemma_not_shorter(b, y, a, x);
    assert(a =~= (a + x).take(a.len() as int));
    assert(b =~= (b + y).take(b.len() as int));
    assert(x =~= (a + x).skip(a.len() as int));
    assert(y =~= (b + y).skip(b.len() as int));
    law_same_column_same_number(m, n, width, ' ');
}

/// Two numbers that look alike in a column are the same, whether it is filled with spaces or with
/// zeros.
pub proof fn law_same_column_same_number(m: nat, n: nat, width: nat, fill: char)
    requires
        aligned_right(decimal(m), width, fill) == aligned_right(decimal(n), width, fill),
        fill == ' ' || fill == '0',
    ensures
        m == n,
{
    let a = aligned_right(decimal(m), width, fill);
    let s = decimal(m);
    let t = decimal(n);
    law_decimal_writes(m);
    law_decimal_writes(n);
    law_aligned_right(s, width, fill);
    law_aligned_right(t, width, fill);
    lemma_not_longer(a, s, t, fill);
    lemma_not_longer(a, t, s, fill);
}

/// Where all but the number `s` at its right is fill, no longer number is at the right.
proof fn lemma_not_longer(a: Seq<char>, s: Seq<char>, t: Seq<char>, fill: char)
    requires
        writes(s, number_of(s) as int),
        writes(t, number_of(t) as int),
        s.len() <= a.len(),
        t.len() <= a.len(),
        a.skip(a.len() - s.len()) == s,
        a.skip(a.len() - t.len()) == t,
        forall|i: int| 0 <= i < a.len() - s.len() ==> #[trigger] a[i] == fill,
        fill == ' ' || fill == '0',
    ensures
        t.len() <= s.len(),
{
    assert(t[0] == a[a.len() - t.len()]);
}

} // verus!
