//! Dates of the proleptic Gregorian calendar, and how a moment is spelled in a file name.
use crate::order::bytes_smaller_at;
use vstd::prelude::*;
use vstd::utf8::*;

verus! {

/// A date and a time of day, in UTC.
pub struct Civil {
    pub year: int,
    pub month: int,
    pub day: int,
    pub hour: int,
    pub minute: int,
    pub second: int,
}

/// Whether the year has a 29th of February.
pub open spec fn is_leap(year: int) -> bool {
    year % 4 == 0 && (year % 100 != 0 || year % 400 == 0)
}

/// The days from the first day of year 0 to the first day of `year`.
pub open spec fn days_before_year(year: int) -> int {
    365 * year + (year + 3) / 4 - (year + 99) / 100 + (year + 399) / 400
}

/// The days of a month.
pub open spec fn days_in_month(year: int, month: int) -> int {
    if month == 2 {
        if is_leap(year) {
            29
        } else {
            28
        }
    } else if month == 4 || month == 6 || month == 9 || month == 11 {
        30
    } else {
        31
    }
}

/// The days of the year before the first day of `month`.
pub open spec fn days_before_month(year: int, month: int) -> int
    decreases month,
{
    if month <= 1 {
        0
    } else {
        days_before_month(year, month - 1) + days_in_month(year, month - 1)
    }
}

/// The day number of 1970-01-01, counted from the first day of year 0.
pub open spec fn epoch_day() -> int {
    719_528
}

impl Civil {
    /// Whether this names a second of some day.
    pub open spec fn is_valid(self) -> bool {
        &&& 1 <= self.month <= 12
        &&& 1 <= self.day <= days_in_month(self.year, self.month)
        &&& 0 <= self.hour < 24
        &&& 0 <= self.minute < 60
        &&& 0 <= self.second < 60
    }

    /// The days from 1970-01-01 to the date.
    pub open spec fn days(self) -> int {
        days_before_year(self.year) + days_before_month(self.year, self.month) + (self.day - 1)
            - epoch_day()
    }

    /// The seconds from 1970-01-01 00:00:00 to this second.
    pub open spec fn seconds(self) -> int {
        self.days() * 86_400 + self.hour * 3_600 + self.minute * 60 + self.second
    }
}

/// The date comes first, then the time of day, from the largest unit to the smallest.
pub open spec fn civil_lt(a: Civil, b: Civil) -> bool {
    ||| a.year < b.year
    ||| a.year == b.year && a.month < b.month
    ||| a.year == b.year && a.month == b.month && a.day < b.day
    ||| a.year == b.year && a.month == b.month && a.day == b.day && a.hour < b.hour
    ||| a.year == b.year && a.month == b.month && a.day == b.day && a.hour == b.hour && a.minute
        < b.minute
    ||| a.year == b.year && a.month == b.month && a.day == b.day && a.hour == b.hour && a.minute
        == b.minute && a.second < b.second
}

/// The decimal digit `n`.
pub open spec fn digit(n: int) -> char {
    (0x30 + n) as char
}

/// `n`, below 100, in two digits.
pub open spec fn two_digits(n: int) -> Seq<char> {
    seq![digit(n / 10), digit(n % 10)]
}

/// `n`, below 10000, in four digits.
pub open spec fn four_digits(n: int) -> Seq<char> {
    two_digits(n / 100) + two_digits(n % 100)
}

/// `n`, below 1000000, in six digits.
pub open spec fn six_digits(n: int) -> Seq<char> {
    two_digits(n / 10_000) + four_digits(n % 10_000)
}

/// `n`, below 1000000, in four digits or as many as it has.
pub open spec fn at_least_four_digits(n: int) -> Seq<char> {
    if n < 10_000 {
        four_digits(n)
    } else if n < 100_000 {
        seq![digit(n / 10_000)] + four_digits(n % 10_000)
    } else {
        six_digits(n)
    }
}

/// The year in four digits; one that has no four digits, or is negative, with its sign.
pub open spec fn year_text(year: int) -> Seq<char> {
    if 0 <= year < 10_000 {
        four_digits(year)
    } else if year < 0 {
        seq!['-'] + at_least_four_digits(-year)
    } else {
        seq!['+'] + at_least_four_digits(year)
    }
}

/// How a second of a day, and the nanoseconds past it, are spelled in a file name:
/// year, month, day, hour, minute and second, joined by dashes, then a dot and the microseconds.
pub open spec fn civil_text(c: Civil, nanos: int) -> Seq<char> {
    year_text(c.year) + seq!['-'] + two_digits(c.month) + seq!['-'] + two_digits(c.day) + seq!['-']
        + two_digits(c.hour) + seq!['-'] + two_digits(c.minute) + seq!['-'] + two_digits(c.second)
        + seq!['.'] + six_digits(nanos / 1_000)
}

/// `text` spells the moment that lies `secs` seconds and `nanos` nanoseconds after 1970.
pub open spec fn is_stamp(secs: int, nanos: int, text: Seq<char>) -> bool {
    exists|c: Civil|
        #![trigger c.is_valid()]
        c.is_valid() && c.seconds() == secs && text == civil_text(c, nanos)
}

/// `n` in decimal digits, without leading zeros.
pub open spec fn decimal(n: int) -> Seq<char>
    decreases n,
{
    if n < 10 {
        seq![digit(n)]
    } else {
        decimal(n / 10).push(digit(n % 10))
    }
}

/// A spelling, a dash and a number.
pub open spec fn with_number(stamp: Seq<char>, number: int) -> Seq<char> {
    stamp.push('-') + decimal(number)
}

/// How a moment is spelled in the name of one of the files begun then: the first has no number.
pub open spec fn numbered(stamp: Seq<char>, number: int) -> Seq<char> {
    if number == 0 {
        stamp
    } else {
        with_number(stamp, number)
    }
}

/// Different numbers have different digits.
proof fn decimal_is_unique(m: int, n: int)
    requires
        0 <= m,
        0 <= n,
        decimal(m) == decimal(n),
    ensures
        m == n,
    decreases m,
{
    let a = decimal(m);
    let b = decimal(n);
    decimal_has_digits(m);
    decimal_has_digits(n);
    if m < 10 && n >= 10 {
        decimal_has_digits(n / 10);
        assert(b.len() > 1);
    } else if m >= 10 && n < 10 {
        decimal_has_digits(m / 10);
        assert(a.len() > 1);
    } else if m >= 10 {
        assert(a.drop_last() =~= decimal(m / 10));
        assert(b.drop_last() =~= decimal(n / 10));
        decimal_is_unique(m / 10, n / 10);
        assert(a.last() == digit(m % 10) && b.last() == digit(n % 10));
        assert(a.last() as int == 0x30 + m % 10 && b.last() as int == 0x30 + n % 10);
    } else {
        assert(a[0] as int == 0x30 + m && b[0] as int == 0x30 + n);
    }
}

proof fn decimal_has_digits(n: int)
    requires
        0 <= n,
    ensures
        decimal(n).len() > 0,
        is_plain(decimal(n)),
    decreases n,
{
    if n >= 10 {
        decimal_has_digits(n / 10);
    }
}

/// Files begun at one moment have different numbers and so are spelled differently.
pub proof fn numbers_are_told_apart(stamp: Seq<char>, m: int, n: int)
    requires
        0 <= m,
        0 <= n,
        m != n,
    ensures
        numbered(stamp, m) != numbered(stamp, n),
{
    let a = numbered(stamp, m);
    let b = numbered(stamp, n);
    if a == b {
        if m > 0 && n > 0 {
            assert(a.skip(stamp.len() as int + 1) =~= decimal(m));
            assert(b.skip(stamp.len() as int + 1) =~= decimal(n));
            decimal_is_unique(m, n);
        } else {
            assert(a.len() == b.len());
        }
    }
}

/// The later of two years begins after the earlier has ended.
proof fn years_follow(a: int, b: int)
    requires
        a < b,
    ensures
        days_before_year(a) + 365 + (if is_leap(a) {
            1int
        } else {
            0int
        }) <= days_before_year(b),
{
}

/// The later of two months begins after the earlier has ended, and within the year.
proof fn months_follow(year: int, a: int, b: int)
    requires
        1 <= a <= b <= 12,
    ensures
        0 <= days_before_month(year, a),
        a < b ==> days_before_month(year, a) + days_in_month(year, a) <= days_before_month(year, b),
        days_before_month(year, b) + days_in_month(year, b) <= 365 + (if is_leap(year) {
            1int
        } else {
            0int
        }),
{
    reveal_with_fuel(days_before_month, 13);
}

/// The calendar runs forward: what it lists as earlier lies earlier.
pub proof fn calendar_is_monotone(a: Civil, b: Civil)
    requires
        a.is_valid(),
        b.is_valid(),
        civil_lt(a, b),
    ensures
        a.seconds() < b.seconds(),
{
    months_follow(a.year, a.month, a.month);
    months_follow(b.year, b.month, b.month);
    if a.year < b.year {
        years_follow(a.year, b.year);
        assert(a.days() + 1 <= b.days());
    } else if a.month < b.month {
        months_follow(a.year, a.month, b.month);
        assert(a.days() + 1 <= b.days());
    }
}

/// The texts agree before position `k`, and there `a` holds the smaller character.
spec fn smaller_at(a: Seq<char>, b: Seq<char>, k: int) -> bool {
    &&& 0 <= k < a.len()
    &&& k < b.len()
    &&& forall|i: int| 0 <= i < k ==> a[i] == b[i]
    &&& (a[k] as int) < (b[k] as int)
}

/// `a` holds the smaller character where the texts first differ.
spec fn smaller(a: Seq<char>, b: Seq<char>) -> bool {
    exists|k: int| smaller_at(a, b, k)
}

/// What stands before and behind a difference does not matter.
proof fn smaller_inside(before: Seq<char>, a: Seq<char>, b: Seq<char>, x: Seq<char>, y: Seq<char>)
    requires
        smaller(a, b),
    ensures
        smaller(before + a + x, before + b + y),
{
    let k = choose|k: int| smaller_at(a, b, k);
    let p = before + a + x;
    let q = before + b + y;
    assert forall|i: int| 0 <= i < before.len() + k implies p[i] == q[i] by {
        if i >= before.len() {
            assert(p[i] == a[i - before.len()]);
            assert(q[i] == b[i - before.len()]);
        }
    }
    assert(p[before.len() + k] == a[k]);
    assert(q[before.len() + k] == b[k]);
    assert(smaller_at(p, q, before.len() + k));
}

proof fn two_digits_ordered(m: int, n: int)
    requires
        0 <= m < n < 100,
    ensures
        smaller(two_digits(m), two_digits(n)),
{
    if m / 10 < n / 10 {
        assert(smaller_at(two_digits(m), two_digits(n), 0));
    } else {
        assert(smaller_at(two_digits(m), two_digits(n), 1));
    }
}

proof fn four_digits_ordered(m: int, n: int)
    requires
        0 <= m < n < 10_000,
    ensures
        smaller(four_digits(m), four_digits(n)),
{
    let none = Seq::<char>::empty();
    if m / 100 < n / 100 {
        two_digits_ordered(m / 100, n / 100);
        smaller_inside(
            none,
            two_digits(m / 100),
            two_digits(n / 100),
            two_digits(m % 100),
            two_digits(n % 100),
        );
        assert(none + two_digits(m / 100) + two_digits(m % 100) =~= four_digits(m));
        assert(none + two_digits(n / 100) + two_digits(n % 100) =~= four_digits(n));
    } else {
        two_digits_ordered(m % 100, n % 100);
        smaller_inside(two_digits(m / 100), two_digits(m % 100), two_digits(n % 100), none, none);
        assert(two_digits(m / 100) + two_digits(m % 100) + none =~= four_digits(m));
        assert(two_digits(n / 100) + two_digits(n % 100) + none =~= four_digits(n));
    }
}

proof fn six_digits_ordered(m: int, n: int)
    requires
        0 <= m < n < 1_000_000,
    ensures
        smaller(six_digits(m), six_digits(n)),
{
    let none = Seq::<char>::empty();
    if m / 10_000 < n / 10_000 {
        two_digits_ordered(m / 10_000, n / 10_000);
        smaller_inside(
            none,
            two_digits(m / 10_000),
            two_digits(n / 10_000),
            four_digits(m % 10_000),
            four_digits(n % 10_000),
        );
        assert(none + two_digits(m / 10_000) + four_digits(m % 10_000) =~= six_digits(m));
        assert(none + two_digits(n / 10_000) + four_digits(n % 10_000) =~= six_digits(n));
    } else {
        four_digits_ordered(m % 10_000, n % 10_000);
        smaller_inside(
            two_digits(m / 10_000),
            four_digits(m % 10_000),
            four_digits(n % 10_000),
            none,
            none,
        );
        assert(two_digits(m / 10_000) + four_digits(m % 10_000) + none =~= six_digits(m));
        assert(two_digits(n / 10_000) + four_digits(n % 10_000) + none =~= six_digits(n));
    }
}

/// What stands in a spelling before a field: the year is field 0, the microseconds are field 6.
spec fn upto(c: Civil, field: int) -> Seq<char> {
    let y = four_digits(c.year);
    let m = y + seq!['-'] + two_digits(c.month);
    let d = m + seq!['-'] + two_digits(c.day);
    let h = d + seq!['-'] + two_digits(c.hour);
    let n = h + seq!['-'] + two_digits(c.minute);
    if field == 0 {
        Seq::empty()
    } else if field == 1 {
        y + seq!['-']
    } else if field == 2 {
        m + seq!['-']
    } else if field == 3 {
        d + seq!['-']
    } else if field == 4 {
        h + seq!['-']
    } else if field == 5 {
        n + seq!['-']
    } else {
        n + seq!['-'] + two_digits(c.second) + seq!['.']
    }
}

/// A field of the spelling.
spec fn field_text(c: Civil, nanos: int, field: int) -> Seq<char> {
    if field == 0 {
        four_digits(c.year)
    } else if field == 1 {
        two_digits(c.month)
    } else if field == 2 {
        two_digits(c.day)
    } else if field == 3 {
        two_digits(c.hour)
    } else if field == 4 {
        two_digits(c.minute)
    } else if field == 5 {
        two_digits(c.second)
    } else {
        six_digits(nanos / 1_000)
    }
}

/// The spelling is what stands before a field, the field, and the rest.
proof fn split_at_field(c: Civil, nanos: int, field: int) -> (rest: Seq<char>)
    requires
        0 <= c.year < 10_000,
        0 <= field <= 6,
    ensures
        civil_text(c, nanos) == upto(c, field) + field_text(c, nanos, field) + rest,
{
    let text = civil_text(c, nanos);
    let len = upto(c, field).len() + field_text(c, nanos, field).len();
    let rest = text.skip(len as int);
    assert(text =~= upto(c, field) + field_text(c, nanos, field) + rest);
    rest
}

/// Where two spellings first differ, the earlier moment has the smaller character.
proof fn civil_text_ordered(a: Civil, x: int, b: Civil, y: int)
    requires
        a.is_valid(),
        b.is_valid(),
        0 <= a.year < 10_000,
        0 <= b.year < 10_000,
        0 <= x < 1_000_000_000,
        0 <= y < 1_000_000_000,
        civil_lt(a, b) || a == b && x / 1_000 < y / 1_000,
    ensures
        smaller(civil_text(a, x), civil_text(b, y)),
{
    let field: int = if a.year < b.year {
        four_digits_ordered(a.year, b.year);
        0
    } else if a.month < b.month {
        two_digits_ordered(a.month, b.month);
        1
    } else if a.day < b.day {
        two_digits_ordered(a.day, b.day);
        2
    } else if a.hour < b.hour {
        two_digits_ordered(a.hour, b.hour);
        3
    } else if a.minute < b.minute {
        two_digits_ordered(a.minute, b.minute);
        4
    } else if a.second < b.second {
        two_digits_ordered(a.second, b.second);
        5
    } else {
        six_digits_ordered(x / 1_000, y / 1_000);
        6
    };
    let p = split_at_field(a, x, field);
    let q = split_at_field(b, y, field);
    assert(upto(a, field) == upto(b, field));
    smaller_inside(upto(a, field), field_text(a, x, field), field_text(b, y, field), p, q);
}

/// The first second of the first year that can be spelled.
pub const FIRST_SECOND: i64 = -8_334_601_228_800;

/// The last second of the last year that can be spelled.
pub const LAST_SECOND: i64 = 8_210_266_876_799;

/// The first second of year 0.
pub const FIRST_FOUR_DIGIT_SECOND: i64 = -62_167_219_200;

/// The last second of year 9999.
pub const LAST_FOUR_DIGIT_SECOND: i64 = 253_402_300_799;

/// The first second of a year.
spec fn new_year(year: int) -> Civil {
    Civil { year, month: 1, day: 1, hour: 0, minute: 0, second: 0 }
}

/// A moment that lies between two new years has its year between theirs.
proof fn year_between(c: Civil, from: int, to: int)
    requires
        c.is_valid(),
        new_year(from).seconds() <= c.seconds() < new_year(to).seconds(),
    ensures
        from <= c.year < to,
{
    assert(new_year(from).is_valid() && new_year(to).is_valid());
    if c.year < from {
        calendar_is_monotone(c, new_year(from));
    }
    if c.year >= to && c != new_year(to) {
        calendar_is_monotone(new_year(to), c);
    }
}

proof fn year_range(c: Civil)
    requires
        c.is_valid(),
    ensures
        FIRST_SECOND <= c.seconds() <= LAST_SECOND ==> -262_143 <= c.year <= 262_142,
        FIRST_FOUR_DIGIT_SECOND <= c.seconds() <= LAST_FOUR_DIGIT_SECOND ==> 0 <= c.year < 10_000,
{
    if FIRST_SECOND <= c.seconds() <= LAST_SECOND {
        year_between(c, -262_143, 262_143);
    }
    if FIRST_FOUR_DIGIT_SECOND <= c.seconds() <= LAST_FOUR_DIGIT_SECOND {
        year_between(c, 0, 10_000);
    }
}

/// A moment has one spelling.
pub proof fn stamp_is_unique(secs: int, nanos: int, a: Seq<char>, b: Seq<char>)
    requires
        is_stamp(secs, nanos, a),
        is_stamp(secs, nanos, b),
    ensures
        a == b,
{
    let c = choose|c: Civil|
        #![trigger c.is_valid()]
        c.is_valid() && c.seconds() == secs && a == civil_text(c, nanos);
    let d = choose|d: Civil|
        #![trigger d.is_valid()]
        d.is_valid() && d.seconds() == secs && b == civil_text(d, nanos);
    if civil_lt(c, d) {
        calendar_is_monotone(c, d);
    } else if civil_lt(d, c) {
        calendar_is_monotone(d, c);
    }
}

/// The characters that spellings are made of.
pub open spec fn is_stamp_char(c: char) -> bool {
    '0' <= c <= '9' || c == '-' || c == '+' || c == '.'
}

/// The text consists of digits, signs and dots.
pub open spec fn is_plain(text: Seq<char>) -> bool {
    forall|i: int| 0 <= i < text.len() ==> is_stamp_char(#[trigger] text[i])
}

proof fn plain_digits(n: int)
    requires
        0 <= n < 1_000_000,
    ensures
        n < 100 ==> is_plain(two_digits(n)),
        n < 10_000 ==> is_plain(four_digits(n)),
        is_plain(six_digits(n)),
        is_plain(at_least_four_digits(n)),
{
}

proof fn plain_concat(a: Seq<char>, mark: char, b: Seq<char>)
    requires
        is_plain(a),
        is_stamp_char(mark),
        is_plain(b),
    ensures
        is_plain(a + seq![mark] + b),
{
}

proof fn civil_text_is_plain(c: Civil, nanos: int)
    requires
        c.is_valid(),
        -1_000_000 < c.year < 1_000_000,
        0 <= nanos < 1_000_000_000,
    ensures
        is_plain(civil_text(c, nanos)),
{
    plain_digits(if c.year < 0 {
        -c.year
    } else {
        c.year
    });
    plain_digits(c.month);
    plain_digits(c.day);
    plain_digits(c.hour);
    plain_digits(c.minute);
    plain_digits(c.second);
    plain_digits(nanos / 1_000);
    let y = year_text(c.year);
    assert(is_plain(y));
    plain_concat(y, '-', two_digits(c.month));
    let m = y + seq!['-'] + two_digits(c.month);
    plain_concat(m, '-', two_digits(c.day));
    let d = m + seq!['-'] + two_digits(c.day);
    plain_concat(d, '-', two_digits(c.hour));
    let h = d + seq!['-'] + two_digits(c.hour);
    plain_concat(h, '-', two_digits(c.minute));
    let n = h + seq!['-'] + two_digits(c.minute);
    plain_concat(n, '-', two_digits(c.second));
    let s = n + seq!['-'] + two_digits(c.second);
    plain_concat(s, '.', six_digits(nanos / 1_000));
}

/// A plain text is encoded one byte to a character.
pub proof fn plain_is_ascii(text: Seq<char>)
    requires
        is_plain(text),
    ensures
        is_ascii_chars(text),
        encode_utf8(text).len() == text.len(),
        forall|i: int| 0 <= i < text.len() ==> encode_utf8(text)[i] == text[i] as u8,
{
    assert forall|i: int| 0 <= i < text.len() implies '\0' <= #[trigger] text[i] <= '\u{7f}' by {
        assert(is_stamp_char(text[i]));
    }
    is_ascii_chars_encode_utf8(text);
}

/// A spelling consists of digits, signs and a dot, one byte to a character.
pub proof fn stamp_is_plain(secs: int, nanos: int, text: Seq<char>)
    requires
        is_stamp(secs, nanos, text),
        FIRST_SECOND <= secs <= LAST_SECOND,
        0 <= nanos < 1_000_000_000,
    ensures
        text.len() > 0,
        is_plain(text),
        encode_utf8(text).len() == text.len(),
        forall|i: int| 0 <= i < text.len() ==> encode_utf8(text)[i] == text[i] as u8,
{
    let c = choose|c: Civil|
        #![trigger c.is_valid()]
        c.is_valid() && c.seconds() == secs && text == civil_text(c, nanos);
    year_range(c);
    civil_text_is_plain(c, nanos);
    plain_is_ascii(text);
}

/// A spelling with a number consists of the same characters, and its bytes are those of the
/// spelling and of what follows it.
pub proof fn numbered_stamp_is_plain(secs: int, nanos: int, text: Seq<char>, number: int)
    requires
        is_stamp(secs, nanos, text),
        FIRST_SECOND <= secs <= LAST_SECOND,
        0 <= nanos < 1_000_000_000,
        0 <= number,
    ensures
        text.len() > 0,
        is_plain(numbered(text, number)),
        numbered(text, number).len() >= text.len(),
        encode_utf8(numbered(text, number)) == encode_utf8(text) + encode_utf8(
            numbered(text, number).skip(text.len() as int),
        ),
{
    stamp_is_plain(secs, nanos, text);
    let full = numbered(text, number);
    let rest = full.skip(text.len() as int);
    if number > 0 {
        decimal_has_digits(number);
        plain_concat(text, '-', decimal(number));
        assert(full =~= text + seq!['-'] + decimal(number));
    }
    assert forall|i: int| 0 <= i < rest.len() implies is_stamp_char(#[trigger] rest[i]) by {
        assert(rest[i] == full[text.len() + i]);
    }
    plain_is_ascii(full);
    plain_is_ascii(rest);
    let bytes = encode_utf8(full);
    assert forall|i: int| 0 <= i < bytes.len() implies bytes[i] == (encode_utf8(text) + encode_utf8(
        rest,
    ))[i] by {
        if i < text.len() {
            assert(full[i] == text[i]);
        } else {
            assert(full[i] == rest[i - text.len()]);
        }
    }
    assert(bytes =~= encode_utf8(text) + encode_utf8(rest));
}

/// The earlier of two moments with years of four digits is spelled with the smaller character where
/// the two first differ.
proof fn earlier_is_spelled_smaller(c: Civil, nanos: int, d: Civil, later_nanos: int)
    requires
        c.is_valid(),
        d.is_valid(),
        FIRST_FOUR_DIGIT_SECOND <= c.seconds() <= LAST_FOUR_DIGIT_SECOND,
        FIRST_FOUR_DIGIT_SECOND <= d.seconds() <= LAST_FOUR_DIGIT_SECOND,
        0 <= nanos < 1_000_000_000,
        0 <= later_nanos < 1_000_000_000,
        c.seconds() * 1_000_000 + nanos / 1_000 < d.seconds() * 1_000_000 + later_nanos / 1_000,
    ensures
        smaller(civil_text(c, nanos), civil_text(d, later_nanos)),
{
    year_range(c);
    year_range(d);
    assert(civil_lt(c, d) || c == d) by {
        if civil_lt(d, c) {
            calendar_is_monotone(d, c);
        }
    }
    civil_text_ordered(c, nanos, d, later_nanos);
}

/// Of two plain texts the one with the smaller character has the smaller byte there.
proof fn smaller_text_has_smaller_bytes(a: Seq<char>, b: Seq<char>)
    requires
        is_plain(a),
        is_plain(b),
        smaller(a, b),
    ensures
        exists|k: int| bytes_smaller_at(encode_utf8(a), encode_utf8(b), k),
{
    let k = choose|k: int| smaller_at(a, b, k);
    plain_is_ascii(a);
    plain_is_ascii(b);
    assert(is_stamp_char(a[k]));
    assert(is_stamp_char(b[k]));
    assert(bytes_smaller_at(encode_utf8(a), encode_utf8(b), k));
}

/// Of two moments with years of four digits, the one earlier by a microsecond or more has the
/// spelling with the smaller byte where the two first differ.
pub proof fn stamps_run_with_time(
    secs: int,
    nanos: int,
    text: Seq<char>,
    later_secs: int,
    later_nanos: int,
    later_text: Seq<char>,
)
    requires
        is_stamp(secs, nanos, text),
        is_stamp(later_secs, later_nanos, later_text),
        FIRST_FOUR_DIGIT_SECOND <= secs <= LAST_FOUR_DIGIT_SECOND,
        FIRST_FOUR_DIGIT_SECOND <= later_secs <= LAST_FOUR_DIGIT_SECOND,
        0 <= nanos < 1_000_000_000,
        0 <= later_nanos < 1_000_000_000,
        secs * 1_000_000 + nanos / 1_000 < later_secs * 1_000_000 + later_nanos / 1_000,
    ensures
        exists|k: int| bytes_smaller_at(encode_utf8(text), encode_utf8(later_text), k),
{
    let c = choose|c: Civil|
        #![trigger c.is_valid()]
        c.is_valid() && c.seconds() == secs && text == civil_text(c, nanos);
    let d = choose|d: Civil|
        #![trigger d.is_valid()]
        d.is_valid() && d.seconds() == later_secs && later_text == civil_text(d, later_nanos);
    earlier_is_spelled_smaller(c, nanos, d, later_nanos);
    stamp_is_plain(secs, nanos, text);
    stamp_is_plain(later_secs, later_nanos, later_text);
    smaller_text_has_smaller_bytes(text, later_text);
}

} // verus!
