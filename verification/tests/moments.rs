use rotating_file::calendar::{FIRST_SECOND, LAST_SECOND};
use rotating_file::path::LogPath;
use rotating_file::storage::{compressed_ext, compressed_suffix, uncompressed_ext};
use rotating_file::time::{numbered_stamp, TimeDelta, Timestamp};
use rotating_file::Storage;

fn at(secs: i64, nanos: u32) -> Timestamp {
    Timestamp { secs, nanos }
}

fn span(secs: i64, nanos: u32) -> TimeDelta {
    TimeDelta { secs, nanos }
}

fn text(path: &LogPath) -> String {
    String::from_utf8(path.to_bytes()).unwrap()
}

#[test]
fn stamps_spell_the_moment() {
    assert_eq!(at(0, 0).stamp(), "1970-01-01-00-00-00.000000");
    assert_eq!(at(1_000_000_000, 0).stamp(), "2001-09-09-01-46-40.000000");
    assert_eq!(at(951_782_399, 0).stamp(), "2000-02-28-23-59-59.000000");
    assert_eq!(at(951_782_400, 0).stamp(), "2000-02-29-00-00-00.000000");
    assert_eq!(at(-1, 0).stamp(), "1969-12-31-23-59-59.000000");
}

#[test]
fn stamps_cut_off_below_the_microsecond() {
    assert_eq!(at(0, 1_999).stamp(), "1970-01-01-00-00-00.000001");
    assert_eq!(at(0, 999_999_999).stamp(), "1970-01-01-00-00-00.999999");
}

#[test]
fn stamps_of_long_years_have_a_sign() {
    assert_eq!(at(253_402_300_799, 0).stamp(), "9999-12-31-23-59-59.000000");
    assert_eq!(at(253_402_300_800, 0).stamp(), "+10000-01-01-00-00-00.000000");
    assert_eq!(at(-62_167_219_200, 0).stamp(), "0000-01-01-00-00-00.000000");
    assert_eq!(at(-62_167_219_201, 0).stamp(), "-0001-12-31-23-59-59.000000");
    assert_eq!(at(FIRST_SECOND, 0).stamp(), "-262143-01-01-00-00-00.000000");
    assert_eq!(at(LAST_SECOND, 0).stamp(), "+262142-12-31-23-59-59.000000");
}

#[test]
fn stamps_run_with_time() {
    let moments = [
        at(-62_167_219_200, 0),
        at(-1, 999_999_000),
        at(0, 0),
        at(0, 1_000),
        at(59, 0),
        at(60, 0),
        at(86_400, 0),
        at(951_782_400, 0),
        at(253_402_300_799, 999_999_999),
    ];
    for pair in moments.windows(2) {
        assert!(pair[0].stamp() < pair[1].stamp());
    }
}

#[test]
fn now_is_after_the_year_2020() {
    let now = Timestamp::now();
    assert!(now.secs > 1_577_836_800);
    assert!(now.secs <= LAST_SECOND);
    assert!(now.nanos < 1_000_000_000);
}

#[test]
fn a_span_is_past_when_it_is_reached() {
    let began = at(100, 500_000_000);
    assert!(!at(101, 499_999_999).is_past(began, span(1, 0)));
    assert!(at(101, 500_000_000).is_past(began, span(1, 0)));
    assert!(at(102, 0).is_past(began, span(1, 0)));
    assert!(!at(102, 0).is_past(began, span(1, 500_000_001)));
    assert!(at(100, 0).is_past(began, span(-1, 500_000_000)));
    assert!(!at(100, 0).is_past(began, span(0, 0)));
    assert!(!at(i64::MIN, 0).is_past(at(i64::MAX, 0), span(0, 0)));
    assert!(at(i64::MAX, 0).is_past(at(i64::MIN, 0), span(i64::MAX, 0)));
}

#[test]
fn spans_are_rounded_down() {
    assert_eq!(TimeDelta::new(1, 5), span(1, 5));
    assert_eq!(TimeDelta::new(-1, -500_000_000), span(-2, 500_000_000));
    assert_eq!(TimeDelta::new(0, -1), span(-1, 999_999_999));
    assert_eq!(TimeDelta::new(-3, 0), span(-3, 0));
}

#[test]
fn extensions_as_bytes() {
    assert_eq!(compressed_suffix(), b"gz");
    assert_eq!(uncompressed_ext(), b"log");
    assert_eq!(compressed_ext(), b"log.gz");
}

#[test]
fn new_file_is_named_after_its_moment() {
    let began = at(1_000_000_000, 250_000_000);
    let storage = Storage::new(LogPath::from_bytes(b"./target/tmp1"));
    let file = storage.new_file_at(began, &began.stamp());
    assert_eq!(text(&file.path), "./target/tmp1/2001-09-09-01-46-40.250000.log");
    assert_eq!(file.began, began);

    let storage = storage.prefix("test-logs-".to_string());
    let file = storage.new_file_at(began, &began.stamp());
    assert_eq!(text(&file.path), "./target/tmp1/test-logs-2001-09-09-01-46-40.250000.log");

    let storage = storage.prefix("sub/é-".to_string());
    let file = storage.new_file_at(began, &began.stamp());
    assert_eq!(text(&file.path), "./target/tmp1/sub/é-2001-09-09-01-46-40.250000.log");
}

#[test]
fn numbers_follow_the_stamp() {
    assert_eq!(numbered_stamp("S", 0), "S-0");
    assert_eq!(numbered_stamp("S", 9), "S-9");
    assert_eq!(numbered_stamp("S", 10), "S-10");
    assert_eq!(numbered_stamp("S", 1_020), "S-1020");
    let began = at(1_000_000_000, 0);
    let storage = Storage::new(LogPath::from_bytes(b"logs"));
    let file = storage.numbered_file_at(began, &began.stamp(), 12);
    assert_eq!(text(&file.path), "logs/2001-09-09-01-46-40.000000-12.log");
    assert_eq!((file.began, file.number), (began, 12));
    let file = storage.open_new_file_at(began);
    assert_eq!(text(&file.path), "logs/2001-09-09-01-46-40.000000.log");
    assert_eq!(file.number, 0);
}

#[test]
fn opened_file_is_begun_now() {
    let storage = Storage::new(LogPath::from_bytes(b"/logs")).prefix("p-".to_string());
    let before = Timestamp::now();
    let file = storage.open_new_file();
    let after = Timestamp::now();
    assert!((before.secs, before.nanos) <= (file.began.secs, file.began.nanos));
    assert!((file.began.secs, file.began.nanos) <= (after.secs, after.nanos));
    assert_eq!(text(&file.path), format!("/logs/p-{}.log", file.began.stamp()));
    assert!(file.path.has_extension(b"log"));
}

#[test]
fn files_are_listed_by_age() {
    let storage = Storage::new(LogPath::from_bytes(b"logs")).prefix("p.".to_string());
    let moments = [at(0, 0), at(0, 1_000), at(999_999_999, 0), at(1_000_000_000, 0)];
    for pair in moments.windows(2) {
        let older = storage.new_file_at(pair[0], &pair[0].stamp()).path;
        let newer = storage.new_file_at(pair[1], &pair[1].stamp()).path;
        assert!(older.precedes(&newer));
        let newer = newer.with_extension(compressed_ext());
        assert!(older.with_extension(compressed_ext()).precedes(&newer));
    }
}
