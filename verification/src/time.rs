//! Times of the week.
use vstd::prelude::*;
use crate::text;

verus! {

/// The name of day `d` of the week, from Sunday = 0.
pub open spec fn day_text(d: int) -> Seq<char> {
    if d == 0 {
        "Sun"@
    } else if d == 1 {
        "Mon"@
    } else if d == 2 {
        "Tue"@
    } else if d == 3 {
        "Wed"@
    } else if d == 4 {
        "Thu"@
    } else if d == 5 {
        "Fri"@
    } else {
        "Sat"@
    }
}

/// `n` in decimal with leading zeros, `width` digits wide.
pub open spec fn digits(n: int, width: nat) -> Seq<char> {
    text::aligned_right(text::decimal(n as nat), width, '0')
}

/// The day of the week `ms` milliseconds after the start of a Sunday.
pub open spec fn day(ms: int) -> int {
    ms / 86_400_000 % 7
}

/// The hour of the day.
pub open spec fn hour(ms: int) -> int {
    ms / 3_600_000 % 24
}

/// The minute of the hour.
pub open spec fn minute(ms: int) -> int {
    ms / 60_000 % 60
}

/// The second of the minute.
pub open spec fn second(ms: int) -> int {
    ms / 1_000 % 60
}

/// The millisecond of the second.
pub open spec fn millisecond(ms: int) -> int {
    ms % 1_000
}

/// The time of the week `ms` milliseconds after the start of a Sunday, as "Day HH:MM:SS.mmm".
pub open spec fn time_text(ms: int) -> Seq<char> {
    day_text(day(ms)) + " "@ + digits(hour(ms), 2) + ":"@ + digits(minute(ms), 2) + ":"@ + digits(
        second(ms),
        2,
    ) + "."@ + digits(millisecond(ms), 3)
}

/// Returns the name of day `d` of the week, from Sunday = 0.
fn day_name(d: u32) -> (r: &'static str)
    requires
        d < 7,
    ensures
        r@ == day_text(d as int),
{
    match d {
        0 => "Sun",
        1 => "Mon",
        2 => "Tue",
        3 => "Wed",
        4 => "Thu",
        5 => "Fri",
        _ => "Sat",
    }
}

/// Formats a time of the week, in milliseconds since Sunday 00:00:00.000, as "Day HH:MM:SS.mmm".
pub fn format_time(ms: u32) -> (r: String)
    ensures
        r@ == time_text(ms as int),
{
    let time_of_day: u32 = ms % 86_400_000;
    let h: u32 = time_of_day / 3_600_000;
    let m: u32 = (time_of_day % 3_600_000) / 60_000;
    let s: u32 = (time_of_day % 60_000) / 1_000;
    let milli: u32 = time_of_day % 1_000;
    proof {
        lemma_time_of_day(ms as int);
        reveal_strlit("0");
    }
    let mut out: String = day_name(ms / 86_400_000 % 7).to_owned();
    out.append(" ");
    text::push_number(&mut out, h as u64, 2, "0");
    out.append(":");
    text::push_number(&mut out, m as u64, 2, "0");
    out.append(":");
    text::push_number(&mut out, s as u64, 2, "0");
    out.append(".");
    text::push_number(&mut out, milli as u64, 3, "0");
    out
}

/// Counting whole units of time in whole smaller units makes no difference.
proof fn lemma_units_nest(ms: int)
    requires
        0 <= ms,
    ensures
        ms / 1_000 / 60 == ms / 60_000,
        ms / 60_000 / 60 == ms / 3_600_000,
        ms / 3_600_000 / 24 == ms / 86_400_000,
{
}

/// The parts of the time of day depend on nothing but the milliseconds since midnight.
proof fn lemma_time_of_day(ms: int)
    requires
        0 <= ms,
    ensures
        ms % 86_400_000 / 3_600_000 == hour(ms),
        ms % 86_400_000 % 3_600_000 / 60_000 == minute(ms),
        ms % 86_400_000 % 60_000 / 1_000 == second(ms),
        ms % 86_400_000 % 1_000 == millisecond(ms),
{
    lemma_units_nest(ms);
}

/// The number of milliseconds of a week.
pub open spec fn week_len() -> int {
    604_800_000
}

/// The time `d` days, `h` hours, `m` minutes, `s` seconds and `milli` milliseconds after the start
/// of a Sunday.
pub open spec fn moment(d: int, h: int, m: int, s: int, milli: int) -> int {
    (((d * 24 + h) * 60 + m) * 60 + s) * 1_000 + milli
}

/// The parts of a time are in their usual ranges and together make up the time since the start of
/// the week.
pub proof fn law_parts_make_up_time(ms: int)
    requires
        0 <= ms,
    ensures
        0 <= day(ms) < 7,
        0 <= hour(ms) < 24,
        0 <= minute(ms) < 60,
        0 <= second(ms) < 60,
        0 <= millisecond(ms) < 1_000,
        moment(day(ms), hour(ms), minute(ms), second(ms), millisecond(ms)) == ms % week_len(),
{
    lemma_units_nest(ms);
    assert(ms / week_len() == ms / 86_400_000 / 7);
}

/// A time that is made up of parts has these parts, in whichever week it lies.
pub proof fn law_time_has_its_parts(week: int, d: int, h: int, m: int, s: int, milli: int)
    requires
        0 <= week,
        0 <= d < 7,
        0 <= h < 24,
        0 <= m < 60,
        0 <= s < 60,
        0 <= milli < 1_000,
    ensures
        ({
            let ms = week * week_len() + moment(d, h, m, s, milli);
            &&& day(ms) == d
            &&& hour(ms) == h
            &&& minute(ms) == m
            &&& second(ms) == s
            &&& millisecond(ms) == milli
        }),
{
    let ms = week * week_len() + moment(d, h, m, s, milli);
    let days = week * 7 + d;
    let hours = days * 24 + h;
    let minutes = hours * 60 + m;
    let seconds = minutes * 60 + s;
    assert(ms == seconds * 1_000 + milli);
    assert(ms / 1_000 == seconds);
    assert(ms / 60_000 == minutes);
    assert(ms / 3_600_000 == hours);
    assert(ms / 86_400_000 == days);
}

proof fn lemma_two_digits(n: int)
    requires
        0 <= n < 100,
    ensures
        digits(n, 2) == seq![text::digit((n / 10) as nat), text::digit((n % 10) as nat)],
{
    reveal_with_fuel(text::decimal, 2);
    assert(digits(n, 2) =~= seq![text::digit((n / 10) as nat), text::digit((n % 10) as nat)]);
}

proof fn lemma_three_digits(n: int)
    requires
        0 <= n < 1_000,
    ensures
        digits(n, 3) == seq![
            text::digit((n / 100) as nat),
            text::digit((n / 10 % 10) as nat),
            text::digit((n % 10) as nat),
        ],
{
    reveal_with_fuel(text::decimal, 3);
    assert(digits(n, 3) =~= seq![
        text::digit((n / 100) as nat),
        text::digit((n / 10 % 10) as nat),
        text::digit((n % 10) as nat),
    ]);
}

proof fn lemma_day_text(a: int, b: int)
    requires
        0 <= a < 7,
        0 <= b < 7,
    ensures
        day_text(a).len() == 3,
        day_text(a) == day_text(b) ==> a == b,
{
    reveal_strlit("Sun");
    reveal_strlit("Mon");
    reveal_strlit("Tue");
    reveal_strlit("Wed");
    reveal_strlit("Thu");
    reveal_strlit("Fri");
    reveal_strlit("Sat");
    if day_text(a) == day_text(b) {
        assert(day_text(a)[0] == day_text(b)[0]);
        assert(day_text(a)[1] == day_text(b)[1]);
    }
}

/// Parts of the usual widths stand at fixed places between their separators.
proof fn lemma_layout(d: Seq<char>, h: Seq<char>, m: Seq<char>, s: Seq<char>, milli: Seq<char>)
    requires
        d.len() == 3,
        h.len() == 2,
        m.len() == 2,
        s.len() == 2,
        milli.len() == 3,
    ensures
        ({
            let t = d + " "@ + h + ":"@ + m + ":"@ + s + "."@ + milli;
            &&& t.len() == 16
            &&& t.subrange(0, 3) == d
            &&& t[3] == ' '
            &&& t.subrange(4, 6) == h
            &&& t[6] == ':'
            &&& t.subrange(7, 9) == m
            &&& t[9] == ':'
            &&& t.subrange(10, 12) == s
            &&& t[12] == '.'
            &&& t.subrange(13, 16) == milli
        }),
{
    reveal_strlit(" ");
    reveal_strlit(":");
    reveal_strlit(".");
    let t = d + " "@ + h + ":"@ + m + ":"@ + s + "."@ + milli;
    assert(t.subrange(0, 3) =~= d);
    assert(t.subrange(4, 6) =~= h);
    assert(t.subrange(7, 9) =~= m);
    assert(t.subrange(10, 12) =~= s);
    assert(t.subrange(13, 16) =~= milli);
}

/// A formatted time is always 16 characters wide, with its parts and separators at fixed places.
pub proof fn law_time_text_layout(ms: int)
    requires
        0 <= ms,
    ensures
        time_text(ms).len() == 16,
        time_text(ms).subrange(0, 3) == day_text(day(ms)),
        time_text(ms)[3] == ' ',
        time_text(ms).subrange(4, 6) == digits(hour(ms), 2),
        time_text(ms)[6] == ':',
        time_text(ms).subrange(7, 9) == digits(minute(ms), 2),
        time_text(ms)[9] == ':',
        time_text(ms).subrange(10, 12) == digits(second(ms), 2),
        time_text(ms)[12] == '.',
        time_text(ms).subrange(13, 16) == digits(millisecond(ms), 3),
{
    law_parts_make_up_time(ms);
    lemma_day_text(day(ms), day(ms));
    lemma_two_digits(hour(ms));
    lemma_two_digits(minute(ms));
    lemma_two_digits(second(ms));
    lemma_three_digits(millisecond(ms));
    lemma_layout(
        day_text(day(ms)),
        digits(hour(ms), 2),
        digits(minute(ms), 2),
        digits(second(ms), 2),
        digits(millisecond(ms), 3),
    );
}

proof fn lemma_digit_injective(a: nat, b: nat)
    requires
        a < 10,
        b < 10,
        text::digit(a) == text::digit(b),
    ensures
        a == b,
{
}

proof fn lemma_two_digits_injective(a: int, b: int)
    requires
        0 <= a < 100,
        0 <= b < 100,
        digits(a, 2) == digits(b, 2),
    ensures
        a == b,
{
    lemma_two_digits(a);
    lemma_two_digits(b);
    assert(digits(a, 2)[0] == digits(b, 2)[0]);
    assert(digits(a, 2)[1] == digits(b, 2)[1]);
    lemma_digit_injective((a / 10) as nat, (b / 10) as nat);
    lemma_digit_injective((a % 10) as nat, (b % 10) as nat);
}

proof fn lemma_three_parts(n: int)
    requires
        0 <= n < 1_000,
    ensures
        n == 100 * (n / 100) + 10 * (n / 10 % 10) + n % 10,
        0 <= n / 100 < 10,
        0 <= n / 10 % 10 < 10,
        0 <= n % 10 < 10,
{
    assert(n / 10 / 10 == n / 100);
}

proof fn lemma_three_digits_injective(a: int, b: int)
    requires
        0 <= a < 1_000,
        0 <= b < 1_000,
        digits(a, 3) == digits(b, 3),
    ensures
        a == b,
{
    lemma_three_parts(a);
    lemma_three_parts(b);
    assert(a / 100 == b / 100 && a / 10 % 10 == b / 10 % 10 && a % 10 == b % 10) by {
        lemma_three_digits(a);
        lemma_three_digits(b);
        assert(digits(a, 3)[0] == digits(b, 3)[0]);
        assert(digits(a, 3)[1] == digits(b, 3)[1]);
        assert(digits(a, 3)[2] == digits(b, 3)[2]);
        lemma_digit_injective((a / 100) as nat, (b / 100) as nat);
        lemma_digit_injective((a / 10 % 10) as nat, (b / 10 % 10) as nat);
        lemma_digit_injective((a % 10) as nat, (b % 10) as nat);
    }
}

/// Two times have the same text exactly if they are the same time of the week.
pub proof fn law_time_text_identifies_time_of_week(a: int, b: int)
    requires
        0 <= a,
        0 <= b,
    ensures
        time_text(a) == time_text(b) <==> a % week_len() == b % week_len(),
{
    law_parts_make_up_time(a);
    law_parts_make_up_time(b);
    if time_text(a) == time_text(b) {
        law_time_text_layout(a);
        law_time_text_layout(b);
        lemma_day_text(day(a), day(b));
        lemma_two_digits_injective(hour(a), hour(b));
        lemma_two_digits_injective(minute(a), minute(b));
        lemma_two_digits_injective(second(a), second(b));
        lemma_three_digits_injective(millisecond(a), millisecond(b));
    }
    if a % week_len() == b % week_len() {
        let (d, h, m, s, x) = (day(a), hour(a), minute(a), second(a), millisecond(a));
        law_time_has_its_parts(b / week_len(), d, h, m, s, x);
        assert(b == b / week_len() * week_len() + moment(d, h, m, s, x));
    }
}

/// The time of the given day, hour, minute, second and millisecond of any week is written as
/// "Day HH:MM:SS.mmm", with these very numbers in decimal.
pub proof fn law_time_is_written_in_full(week: int, d: int, h: int, m: int, s: int, milli: int)
    requires
        0 <= week,
        0 <= d < 7,
        0 <= h < 24,
        0 <= m < 60,
        0 <= s < 60,
        0 <= milli < 1_000,
    ensures
        ({
            let t = time_text(
                week * 604_800_000 + d * 86_400_000 + h * 3_600_000 + m * 60_000 + s * 1_000
                    + milli,
            );
            &&& t.len() == 16
            &&& d == 0 ==> t[0] == 'S' && t[1] == 'u' && t[2] == 'n'
            &&& d == 1 ==> t[0] == 'M' && t[1] == 'o' && t[2] == 'n'
            &&& d == 2 ==> t[0] == 'T' && t[1] == 'u' && t[2] == 'e'
            &&& d == 3 ==> t[0] == 'W' && t[1] == 'e' && t[2] == 'd'
            &&& d == 4 ==> t[0] == 'T' && t[1] == 'h' && t[2] == 'u'
            &&& d == 5 ==> t[0] == 'F' && t[1] == 'r' && t[2] == 'i'
            &&& d == 6 ==> t[0] == 'S' && t[1] == 'a' && t[2] == 't'
            &&& t[3] == ' '
            &&& t[4] as int == '0' as int + h / 10 && t[5] as int == '0' as int + h % 10
            &&& t[6] == ':'
            &&& t[7] as int == '0' as int + m / 10 && t[8] as int == '0' as int + m % 10
            &&& t[9] == ':'
            &&& t[10] as int == '0' as int + s / 10 && t[11] as int == '0' as int + s % 10
            &&& t[12] == '.'
            &&& t[13] as int == '0' as int + milli / 100
            &&& t[14] as int == '0' as int + milli / 10 % 10
            &&& t[15] as int == '0' as int + milli % 10
        }),
{
    let ms = week * 604_800_000 + d * 86_400_000 + h * 3_600_000 + m * 60_000 + s * 1_000 + milli;
    assert(ms == week * week_len() + moment(d, h, m, s, milli));
    law_time_has_its_parts(week, d, h, m, s, milli);
    law_time_text_layout(ms);
    lemma_three_parts(milli);
    lemma_written_digits(h, m, s, milli);
    let t = time_text(ms);
    assert(t[0] == t.subrange(0, 3)[0] && t[1] == t.subrange(0, 3)[1] && t[2] == t.subrange(
        0,
        3,
    )[2]);
    assert(t[4] == t.subrange(4, 6)[0] && t[5] == t.subrange(4, 6)[1]);
    assert(t[7] == t.subrange(7, 9)[0] && t[8] == t.subrange(7, 9)[1]);
    assert(t[10] == t.subrange(10, 12)[0] && t[11] == t.subrange(10, 12)[1]);
    assert(t[13] == t.subrange(13, 16)[0] && t[14] == t.subrange(13, 16)[1] && t[15]
        == t.subrange(13, 16)[2]);
    reveal_strlit("Sun");
    reveal_strlit("Mon");
    reveal_strlit("Tue");
    reveal_strlit("Wed");
    reveal_strlit("Thu");
    reveal_strlit("Fri");
    reveal_strlit("Sat");
}

/// The digits of the parts of a time.
proof fn lemma_written_digits(h: int, m: int, s: int, milli: int)
    requires
        0 <= h < 24,
        0 <= m < 60,
        0 <= s < 60,
        0 <= milli < 1_000,
    ensures
        digits(h, 2)[0] as int == '0' as int + h / 10,
        digits(h, 2)[1] as int == '0' as int + h % 10,
        digits(m, 2)[0] as int == '0' as int + m / 10,
        digits(m, 2)[1] as int == '0' as int + m % 10,
        digits(s, 2)[0] as int == '0' as int + s / 10,
        digits(s, 2)[1] as int == '0' as int + s % 10,
        digits(milli, 3)[0] as int == '0' as int + milli / 100,
        digits(milli, 3)[1] as int == '0' as int + milli / 10 % 10,
        digits(milli, 3)[2] as int == '0' as int + milli % 10,
{
    lemma_two_digits(h);
    lemma_two_digits(m);
    lemma_two_digits(s);
    lemma_three_digits(milli);
    lemma_three_parts(milli);
}

} // verus!
