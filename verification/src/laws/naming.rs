//! Names of log files, and time.
use crate::calendar::{
    civil_text, decimal, digit, four_digits, six_digits, stamp_is_unique, two_digits, Civil,
    FIRST_SECOND, LAST_SECOND,
};
use crate::errors::NewFileError;
use crate::path::{names_single, LogPath, SEPARATOR};
use crate::storage::{
    compressed_ext, compressed_suffix, log_file_name, uncompressed_ext, NewFile, Storage,
};
use crate::time::{numbered_stamp, TimeDelta, Timestamp};
use std::io;
use vstd::prelude::*;
use vstd::utf8::*;

verus! {

/// A storage has the directory it was made with and no prefix; a prefix that is set is the prefix,
/// and the directory stays.
pub proof fn storage_is_as_it_was_made(
    root_dir: LogPath,
    made: Storage,
    before: Storage,
    prefix: String,
    after: Storage,
)
    requires
        call_ensures(Storage::new, (root_dir,), made),
        call_ensures(Storage::prefix, (before, prefix), after),
    ensures
        made.root_dir == root_dir,
        made.prefix@.len() == 0,
        after.root_dir == before.root_dir,
        after.prefix == prefix,
{
}

/// A log file is named by the prefix, the moment as it is spelled and `.log`, read inside the
/// directory of the storage. It begins at that moment and has no number.
pub proof fn file_is_named_after_its_moment(
    storage: Storage,
    began: Timestamp,
    stamp: &str,
    name: &[u8],
    path: LogPath,
    res: NewFile,
)
    requires
        call_ensures(Storage::new_file_at, (&storage, began, stamp), res),
        call_ensures(LogPath::join, (&storage.root_dir, name), path),
        name@ == encode_utf8(storage.prefix@) + encode_utf8(stamp@) + seq![
            0x2eu8,
            0x6cu8,
            0x6fu8,
            0x67u8,
        ],
    ensures
        res.path@ == path@,
        res.began == began,
        res.number == 0,
{
    assert(name@ =~= log_file_name(storage.prefix@, stamp@));
}

/// Where neither the prefix nor the spelling holds a separator, the file lies in the directory of
/// the storage.
pub proof fn file_lies_in_the_root(storage: Storage, began: Timestamp, stamp: &str, res: NewFile)
    requires
        call_ensures(Storage::new_file_at, (&storage, began, stamp), res),
        !encode_utf8(storage.prefix@).contains(0x2fu8),
        !encode_utf8(stamp@).contains(0x2fu8),
    ensures
        res.path@ == storage.root_dir@.push(
            encode_utf8(storage.prefix@) + encode_utf8(stamp@) + seq![
                0x2eu8,
                0x6cu8,
                0x6fu8,
                0x67u8,
            ],
        ),
{
    let prefix = encode_utf8(storage.prefix@);
    let spelled = encode_utf8(stamp@);
    let name = prefix + spelled + seq![0x2eu8, 0x6cu8, 0x6fu8, 0x67u8];
    assert(name =~= log_file_name(storage.prefix@, stamp@));
    assert forall|i: int| 0 <= i < name.len() implies name[i] != SEPARATOR by {
        if i < prefix.len() {
            assert(prefix.contains(prefix[i]));
        } else if i < prefix.len() + spelled.len() {
            assert(spelled.contains(spelled[i - prefix.len()]));
        }
    }
    names_single(name);
    assert(name.len() > 1 && seq![0x2eu8].len() == 1);
    assert(name[0] != SEPARATOR && name[1] != SEPARATOR);
    assert(res.path@ =~= storage.root_dir@.push(name));
}

/// A number goes behind the spelling of the moment; the file is otherwise named as the one without.
pub proof fn number_goes_behind_the_moment(
    storage: Storage,
    began: Timestamp,
    stamp: &str,
    n: u64,
    text: String,
    spelled: &str,
    plain: NewFile,
    res: NewFile,
)
    requires
        call_ensures(Storage::numbered_file_at, (&storage, began, stamp, n), res),
        call_ensures(numbered_stamp, (stamp, n), text),
        spelled@ == text@,
        call_ensures(Storage::new_file_at, (&storage, began, spelled), plain),
    ensures
        res.path@ == plain.path@,
        res.began == began,
        res.number == n,
{
}

/// A number below ten is one digit behind a dash; any other is spelled as its tenth part, with one
/// digit more.
pub proof fn numbers_are_decimal(
    stamp: &str,
    number: u64,
    tenth: u64,
    text: String,
    shorter: String,
)
    requires
        call_ensures(numbered_stamp, (stamp, number), text),
        call_ensures(numbered_stamp, (stamp, tenth), shorter),
        tenth == number / 10,
    ensures
        number < 10 ==> text@ == stamp@ + seq!['-', (0x30 + number) as char],
        number >= 10 ==> text@ == shorter@.push((0x30 + number % 10) as char),
{
    if number < 10 {
        assert(text@ =~= stamp@ + seq!['-', (0x30 + number) as char]);
    } else {
        assert(decimal(number as int) == decimal(tenth as int).push(
            (0x30 + number % 10) as char,
        ));
        assert(text@ =~= shorter@.push((0x30 + number % 10) as char));
    }
}

/// A file that is opened at a moment is named after the spelling of that moment, without a number.
pub proof fn opened_file_is_named_after_its_moment(
    storage: Storage,
    began: Timestamp,
    text: String,
    stamp: &str,
    named: NewFile,
    res: NewFile,
)
    requires
        call_ensures(Storage::open_new_file_at, (&storage, began), res),
        call_ensures(Timestamp::stamp, (began,), text),
        stamp@ == text@,
        call_ensures(Storage::new_file_at, (&storage, began, stamp), named),
    ensures
        res.path@ == named.path@,
        res.began == began,
        res.number == 0,
{
    let own = choose|own: Seq<char>| res.is_named(storage, own);
    stamp_is_unique(began.secs as int, began.nanos as int, own, stamp@);
}

/// In place of a file whose name is taken comes the one with the next number, named after the same
/// moment. Where no number is left, the error is passed on.
pub proof fn next_name_has_the_next_number(
    storage: Storage,
    file: NewFile,
    error: io::Error,
    text: String,
    stamp: &str,
    n: u64,
    named: NewFile,
    res: Result<NewFile, NewFileError>,
)
    requires
        call_ensures(NewFile::next_name, (file, &storage, error), res),
        call_ensures(Timestamp::stamp, (file.began,), text),
        stamp@ == text@,
        call_ensures(Storage::numbered_file_at, (&storage, file.began, stamp, n), named),
        n == file.number + 1 || file.number == u64::MAX,
    ensures
        file.number == u64::MAX ==> res == Err::<NewFile, NewFileError>(
            NewFileError::Open(file.path, error),
        ),
        file.number < u64::MAX ==> (res matches Ok(next) && next.began == file.began && next.number
            == file.number + 1 && next.path@ == named.path@),
{
    if let Ok(next) = res {
        let own = choose|own: Seq<char>| next.is_named(storage, own);
        stamp_is_unique(file.began.secs as int, file.began.nanos as int, own, stamp@);
    }
}

/// Uncompressed files end in `log`, compressed ones in `log.gz`.
pub proof fn extensions_are_log_and_gz(log: &'static [u8], gz: &'static [u8], both: &'static [u8])
    requires
        call_ensures(uncompressed_ext, (), log),
        call_ensures(compressed_suffix, (), gz),
        call_ensures(compressed_ext, (), both),
    ensures
        log@ == seq![0x6cu8, 0x6fu8, 0x67u8],
        gz@ == seq![0x67u8, 0x7au8],
        both@ == log@ + seq![0x2eu8] + gz@,
{
    assert(both@ =~= log@ + seq![0x2eu8] + gz@);
}

/// The four digits of a number.
proof fn digits_of_four(n: int)
    requires
        0 <= n < 10_000,
    ensures
        four_digits(n).len() == 4,
        four_digits(n)[0] == (0x30 + n / 1_000) as char,
        four_digits(n)[1] == (0x30 + n / 100 % 10) as char,
        four_digits(n)[2] == (0x30 + n / 10 % 10) as char,
        four_digits(n)[3] == (0x30 + n % 10) as char,
{
    assert(n / 100 / 10 == n / 1_000);
    assert(n % 100 / 10 == n / 10 % 10);
    assert(n % 100 % 10 == n % 10);
}

/// Six digits add up to the number.
proof fn digits_of_six(n: int)
    requires
        0 <= n < 1_000_000,
    ensures
        six_digits(n).len() == 6,
        forall|i: int| 0 <= i < 6 ==> '0' <= #[trigger] six_digits(n)[i] <= '9',
        (six_digits(n)[0] as int - 0x30) * 100_000 + (six_digits(n)[1] as int - 0x30) * 10_000 + (
        six_digits(n)[2] as int - 0x30) * 1_000 + (six_digits(n)[3] as int - 0x30) * 100 + (
        six_digits(n)[4] as int - 0x30) * 10 + (six_digits(n)[5] as int - 0x30) == n,
{
    let high = n / 10_000;
    let low = n % 10_000;
    let text = six_digits(n);
    assert(text[0] == digit(high / 10) && text[1] == digit(high % 10));
    assert(text[2] == digit(low / 100 / 10) && text[3] == digit(low / 100 % 10));
    assert(text[4] == digit(low % 100 / 10) && text[5] == digit(low % 100 % 10));
}

/// Where the pieces of a spelled moment stand.
proof fn pieces_of_a_moment(
    y: Seq<char>,
    month: Seq<char>,
    day: Seq<char>,
    hour: Seq<char>,
    minute: Seq<char>,
    second: Seq<char>,
    micros: Seq<char>,
)
    requires
        y.len() == 4,
        month.len() == 2,
        day.len() == 2,
        hour.len() == 2,
        minute.len() == 2,
        second.len() == 2,
        micros.len() == 6,
    ensures
        ({
            let text = y + seq!['-'] + month + seq!['-'] + day + seq!['-'] + hour + seq!['-']
                + minute + seq!['-'] + second + seq!['.'] + micros;
            &&& text.len() == 26
            &&& text.subrange(0, 4) == y
            &&& text[4] == '-'
            &&& text.subrange(5, 7) == month
            &&& text[7] == '-'
            &&& text.subrange(8, 10) == day
            &&& text[10] == '-'
            &&& text.subrange(11, 13) == hour
            &&& text[13] == '-'
            &&& text.subrange(14, 16) == minute
            &&& text[16] == '-'
            &&& text.subrange(17, 19) == second
            &&& text[19] == '.'
            &&& text.subrange(20, 26) == micros
        }),
{
    let text = y + seq!['-'] + month + seq!['-'] + day + seq!['-'] + hour + seq!['-'] + minute
        + seq!['-'] + second + seq!['.'] + micros;
    assert(text.subrange(0, 4) =~= y);
    assert(text.subrange(5, 7) =~= month);
    assert(text.subrange(8, 10) =~= day);
    assert(text.subrange(11, 13) =~= hour);
    assert(text.subrange(14, 16) =~= minute);
    assert(text.subrange(17, 19) =~= second);
    assert(text.subrange(20, 26) =~= micros);
}

/// The characters of a spelled moment.
proof fn characters_of_a_moment(date: Civil, nanos: int, text: Seq<char>)
    requires
        text == civil_text(date, nanos),
        0 <= date.year < 10_000,
        0 <= nanos < 1_000_000_000,
    ensures
        text.len() == 26,
        text.subrange(0, 4) == seq![
            (0x30 + date.year / 1_000) as char,
            (0x30 + date.year / 100 % 10) as char,
            (0x30 + date.year / 10 % 10) as char,
            (0x30 + date.year % 10) as char,
        ],
        text[4] == '-' && text[7] == '-' && text[10] == '-',
        text.subrange(5, 7) == seq![
            (0x30 + date.month / 10) as char,
            (0x30 + date.month % 10) as char,
        ],
        text.subrange(8, 10) == seq![
            (0x30 + date.day / 10) as char,
            (0x30 + date.day % 10) as char,
        ],
        text.subrange(11, 13) == seq![
            (0x30 + date.hour / 10) as char,
            (0x30 + date.hour % 10) as char,
        ],
        text[13] == '-' && text[16] == '-' && text[19] == '.',
        text.subrange(14, 16) == seq![
            (0x30 + date.minute / 10) as char,
            (0x30 + date.minute % 10) as char,
        ],
        text.subrange(17, 19) == seq![
            (0x30 + date.second / 10) as char,
            (0x30 + date.second % 10) as char,
        ],
        forall|i: int| 20 <= i < 26 ==> '0' <= #[trigger] text[i] <= '9',
        (text[20] as int - 0x30) * 100_000 + (text[21] as int - 0x30) * 10_000 + (text[22] as int
            - 0x30) * 1_000 + (text[23] as int - 0x30) * 100 + (text[24] as int - 0x30) * 10 + (
        text[25] as int - 0x30) == nanos / 1_000,
{
    let micros = nanos / 1_000;
    let digits = six_digits(micros);
    pieces_of_a_moment(
        four_digits(date.year),
        two_digits(date.month),
        two_digits(date.day),
        two_digits(date.hour),
        two_digits(date.minute),
        two_digits(date.second),
        digits,
    );
    digits_of_four(date.year);
    digits_of_six(micros);
    assert forall|i: int| 20 <= i < 26 implies #[trigger] text[i] == digits[i - 20] by {
        assert(text.subrange(20, 26)[i - 20] == text[i]);
    }
    assert(text[20] == digits[0] && text[21] == digits[1] && text[22] == digits[2]);
    assert(text[23] == digits[3] && text[24] == digits[4] && text[25] == digits[5]);
}

/// A moment is spelled as its date and time of day, each number in its place, with the microseconds
/// cut off and not rounded. This holds of years with four digits.
pub proof fn moment_is_spelled_as_its_date(began: Timestamp, date: Civil, text: String)
    requires
        call_ensures(Timestamp::stamp, (began,), text),
        date.is_valid(),
        date.seconds() == began.secs,
        0 <= date.year < 10_000,
        began.nanos < 1_000_000_000,
    ensures
        text@.len() == 26,
        text@.subrange(0, 4) == seq![
            (0x30 + date.year / 1_000) as char,
            (0x30 + date.year / 100 % 10) as char,
            (0x30 + date.year / 10 % 10) as char,
            (0x30 + date.year % 10) as char,
        ],
        text@[4] == '-' && text@[7] == '-' && text@[10] == '-',
        text@.subrange(5, 7) == seq![
            (0x30 + date.month / 10) as char,
            (0x30 + date.month % 10) as char,
        ],
        text@.subrange(8, 10) == seq![
            (0x30 + date.day / 10) as char,
            (0x30 + date.day % 10) as char,
        ],
        text@.subrange(11, 13) == seq![
            (0x30 + date.hour / 10) as char,
            (0x30 + date.hour % 10) as char,
        ],
        text@[13] == '-' && text@[16] == '-' && text@[19] == '.',
        text@.subrange(14, 16) == seq![
            (0x30 + date.minute / 10) as char,
            (0x30 + date.minute % 10) as char,
        ],
        text@.subrange(17, 19) == seq![
            (0x30 + date.second / 10) as char,
            (0x30 + date.second % 10) as char,
        ],
        forall|i: int| 20 <= i < 26 ==> '0' <= #[trigger] text@[i] <= '9',
        (text@[20] as int - 0x30) * 100_000 + (text@[21] as int - 0x30) * 10_000 + (text@[22] as int
            - 0x30) * 1_000 + (text@[23] as int - 0x30) * 100 + (text@[24] as int - 0x30) * 10 + (
        text@[25] as int - 0x30) == began.nanos as int / 1_000,
{
    stamp_is_unique(
        began.secs as int,
        began.nanos as int,
        text@,
        civil_text(date, began.nanos as int),
    );
    characters_of_a_moment(date, began.nanos as int, text@);
}

/// A span has passed once the clock has moved on by at least so much, to the nanosecond.
pub proof fn span_has_passed(now: Timestamp, began: Timestamp, span: TimeDelta, res: bool)
    requires
        call_ensures(Timestamp::is_past, (now, began, span), res),
    ensures
        res <==> (now.secs - began.secs) * 1_000_000_000 + (now.nanos - began.nanos) >= span.secs
            * 1_000_000_000 + span.nanos,
{
}

/// A span is as long as it was made, and its nanoseconds are fewer than a second.
pub proof fn span_is_as_long_as_made(secs: i64, nanos: i32, res: TimeDelta)
    requires
        call_ensures(TimeDelta::new, (secs, nanos), res),
    ensures
        res.secs * 1_000_000_000 + res.nanos == secs * 1_000_000_000 + nanos,
        res.nanos < 1_000_000_000,
{
}

/// The clock shows a moment of the calendar.
pub proof fn clock_shows_a_moment(res: Timestamp)
    requires
        call_ensures(Timestamp::now, (), res),
    ensures
        FIRST_SECOND <= res.secs <= LAST_SECOND,
        res.nanos < 1_000_000_000,
{
}

} // verus!
