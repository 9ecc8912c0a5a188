use rotating_file::path::LogPath;
use rotating_file::state::State;
use rotating_file::time::TimeDelta;
use rotating_file::work::{Work, WorkId};
use rotating_file::{Limits, Storage};

fn path(text: &str) -> LogPath {
    LogPath::from_bytes(text.as_bytes())
}

fn listing(state: &State) -> Vec<String> {
    state.files().iter().map(|file| String::from_utf8(file.to_bytes()).unwrap()).collect()
}

#[test]
fn state_is_ordered_and_holds_nothing_twice() {
    let mut state = State::default();
    assert_eq!(state.len(), 0);
    assert!(state.first().is_none());
    for name in ["logs/c.gz", "logs/a.gz", "logs/b.gz", "logs//a.gz", "logs/c.gz"] {
        state.found_file(path(name));
    }
    assert_eq!(listing(&state), ["logs/a.gz", "logs/b.gz", "logs/c.gz"]);
    assert_eq!(state.len(), 3);
    assert!(state.first().unwrap().same_as(&path("logs/a.gz")));
}

#[test]
fn listing_is_unique() {
    let names = ["z", "y", "x", "w"];
    let mut forward = State::default();
    let mut backward = State::default();
    for name in names {
        forward.found_file(path(name));
    }
    for name in names.iter().rev() {
        backward.found_file(path(name));
    }
    assert_eq!(listing(&forward), listing(&backward));
    assert_eq!(listing(&forward), ["w", "x", "y", "z"]);
}

#[test]
fn removal_keeps_the_others() {
    let mut state = State::default();
    for name in ["a", "b", "c"] {
        state.found_file(path(name));
    }
    state.remove(&path("b"));
    assert_eq!(listing(&state), ["a", "c"]);
    state.remove(&path("b"));
    assert_eq!(listing(&state), ["a", "c"]);
    state.remove(&path("a"));
    state.remove(&path("c"));
    assert_eq!(state.len(), 0);
}

#[test]
fn compression_replaces_the_file() {
    let mut state = State::default();
    state.found_file(path("a.log"));
    state.found_file(path("b.log.gz"));
    state.file_compressed(path("a.log"), path("a.log.gz"));
    assert_eq!(listing(&state), ["a.log.gz", "b.log.gz"]);
    state.file_compressed(path("c.log"), path("c.log.gz"));
    assert_eq!(listing(&state), ["a.log.gz", "b.log.gz", "c.log.gz"]);
    state.file_compressed(path("c.log"), path("c.log.gz"));
    assert_eq!(state.len(), 3);
}

#[test]
fn work_has_distinct_ids() {
    let mut work: Work<&str> = Work::new();
    assert_eq!(work.next_id(), WorkId(0));
    let first = work.enqueue_compression("first");
    let second = work.enqueue_compression("second");
    assert_eq!((first, second), (WorkId(0), WorkId(1)));
    assert_eq!(work.next_id(), WorkId(2));
    assert_eq!(work.len(), 2);
}

#[test]
fn finished_work_is_forgotten() {
    let mut work: Work<&str> = Work::new();
    let first = work.enqueue_compression("first");
    let second = work.enqueue_compression("second");
    work.enqueue_compression("third");
    work.compression_finished(second);
    work.compression_finished(second);
    assert_eq!(work.len(), 2);
    assert_eq!(work.drain_handles(), ["first", "third"]);
    assert_eq!(work.len(), 0);
    work.compression_finished(first);
    assert_eq!(work.enqueue_compression("fourth"), WorkId(3));
}

#[test]
fn limits_are_set_one_by_one() {
    let none = Limits::default();
    assert_eq!((none.size, none.age, none.files), (None, None, None));
    let age = TimeDelta { secs: 60, nanos: 0 };
    let limits = Limits::default().size(1024).age(age).files(2);
    assert_eq!((limits.size, limits.age, limits.files), (Some(1024), Some(age), Some(2)));
    let limits = limits.size(10);
    assert_eq!((limits.size, limits.age, limits.files), (Some(10), Some(age), Some(2)));
}

#[test]
fn storage_has_no_prefix_by_default() {
    let storage = Storage::new(path("logs"));
    assert_eq!(storage.prefix, "");
    assert!(storage.root_dir.same_as(&path("logs")));
    let storage = storage.prefix("app-".to_string());
    assert_eq!(storage.prefix, "app-");
    assert!(storage.root_dir.same_as(&path("logs")));
}
