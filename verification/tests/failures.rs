use rotating_file::compress::{CompressStep, Compression};
use rotating_file::errors::{
    CollectFilesError, CompressError, CutError, ExportError, NewError, NewFileError, RotateError,
};
use rotating_file::export::{Export, ExportStep};
use rotating_file::init::DirEntry;
use rotating_file::path::LogPath;
use rotating_file::rotate::Rotation;
use rotating_file::rotating_file::{Attempt, Opening};
use rotating_file::time::Timestamp;
use rotating_file::write::Writing;
use rotating_file::{Limits, RotatingFile, Storage};
use std::io;

fn path(text: &str) -> LogPath {
    LogPath::from_bytes(text.as_bytes())
}

fn text(path: &LogPath) -> String {
    String::from_utf8(path.to_bytes()).unwrap()
}

fn broken(what: &str) -> io::Error {
    io::Error::new(io::ErrorKind::Other, what.to_string())
}

fn rotating(limits: Limits) -> RotatingFile<u32> {
    let storage = Storage::new(path("logs"));
    let file = storage.root_dir_created(Ok(())).unwrap();
    match RotatingFile::try_init(storage, limits, file, Ok(())) {
        Ok(file) => file,
        Err(_) => panic!("the first file was opened"),
    }
}

#[test]
fn root_dir_cannot_be_created() {
    let storage = Storage::new(path("logs"));
    match storage.root_dir_created(Err(broken("no"))) {
        Err(NewError::CreateRootDir(dir, error)) => {
            assert_eq!(text(&dir), "logs");
            assert_eq!(error.to_string(), "no");
        }
        _ => panic!("expected an error"),
    }
}

#[test]
fn first_file_cannot_be_opened() {
    let storage = Storage::new(path("logs"));
    let file = storage.open_new_file();
    let name = text(&file.path);
    let res: Result<RotatingFile<u32>, NewError> =
        RotatingFile::try_init(storage, Limits::default(), file, Err(broken("no")));
    match res {
        Err(NewError::NewFile(NewFileError::Open(path, error))) => {
            assert_eq!(text(&path), name);
            assert_eq!(error.to_string(), "no");
        }
        _ => panic!("expected an error"),
    }
}

#[test]
fn root_dir_cannot_be_read() {
    let mut file = rotating(Limits::default());
    let (queue, res) = file.collect_existing_files(Err(broken("no")));
    assert!(queue.is_empty());
    match res {
        Err(CollectFilesError::ReadDir(dir, error)) => {
            assert_eq!(text(&dir), "logs");
            assert_eq!(error.to_string(), "no");
        }
        _ => panic!("expected an error"),
    }
}

#[test]
fn entries_before_a_failure_are_collected() {
    let entry = |name: &str| Ok(DirEntry { path: path(name), is_file: Ok(true) });
    let mut file = rotating(Limits::default());
    let (queue, res) = file.collect_existing_files(Ok(vec![
        entry("logs/a.log.gz"),
        entry("logs/b.log"),
        Err(broken("entry")),
        entry("logs/c.log.gz"),
        entry("logs/d.log"),
    ]));
    assert_eq!(queue.iter().map(text).collect::<Vec<_>>(), ["logs/b.log"]);
    assert_eq!(file.state.files().iter().map(text).collect::<Vec<_>>(), ["logs/a.log.gz"]);
    match res {
        Err(CollectFilesError::ReadDirEntry(error)) => assert_eq!(error.to_string(), "entry"),
        _ => panic!("expected an error"),
    }
}

#[test]
fn metadata_cannot_be_read() {
    let mut file = rotating(Limits::default());
    let (queue, res) = file.collect_existing_files(Ok(vec![Ok(DirEntry {
        path: path("logs/a.log"),
        is_file: Err(broken("metadata")),
    })]));
    assert!(queue.is_empty());
    match res {
        Err(CollectFilesError::AccessMetadata(name, error)) => {
            assert_eq!(text(&name), "logs/a.log");
            assert_eq!(error.to_string(), "metadata");
        }
        _ => panic!("expected an error"),
    }
}

#[test]
fn rotation_fails_with_the_step() {
    let mut file = rotating(Limits::default().files(1));
    file.state.found_file(path("logs/0000.log.gz"));
    let current = text(&file.current.path);

    match Rotation::Flush.resume(&mut file, Err(broken("flush"))) {
        Err(RotateError::Flush(name, error)) => {
            assert_eq!(text(&name), current);
            assert_eq!(error.to_string(), "flush");
        }
        _ => panic!("expected an error"),
    }
    match Rotation::Sync.resume(&mut file, Err(broken("sync"))) {
        Err(RotateError::Sync(name, error)) => {
            assert_eq!(text(&name), current);
            assert_eq!(error.to_string(), "sync");
        }
        _ => panic!("expected an error"),
    }
    let remove = match Rotation::Sync.resume(&mut file, Ok(())) {
        Ok(step) => step,
        Err(_) => panic!("the sync succeeded"),
    };
    match remove.resume(&mut file, Err(broken("remove"))) {
        Err(RotateError::Remove(name, error)) => {
            assert_eq!(text(&name), "logs/0000.log.gz");
            assert_eq!(error.to_string(), "remove");
        }
        _ => panic!("expected an error"),
    }
    assert_eq!(file.state.len(), 1);
    let open = Rotation::Compress.started(&mut file, 7);
    match open.opened(&mut file, Opening::Failed(broken("open"))) {
        Err(RotateError::NewFile(NewFileError::Open(name, error))) => {
            assert!(name.has_extension(b"log"));
            assert_eq!(error.to_string(), "open");
        }
        _ => panic!("expected an error"),
    }
    assert_eq!(text(&file.current.path), current);
    assert_eq!(file.work.len(), 1);
}

#[test]
fn last_number_is_not_followed() {
    let mut file = rotating(Limits::default().size(1));
    let began = file.current.began;
    let last = || file.storage.numbered_file_at(began, &began.stamp(), u64::MAX);
    let name = text(&last().path);
    assert_eq!(name, format!("logs/{}-18446744073709551615.log", began.stamp()));

    let taken = || Opening::Exists(broken("taken"));
    let (a, b, c, d) = (last(), last(), last(), last());
    assert!(matches!(Rotation::Open(a).opened(&mut file, taken()),
        Err(RotateError::NewFile(NewFileError::Open(path, error)))
            if text(&path) == name && error.to_string() == "taken"));
    assert!(matches!(Writing::Rotate(Rotation::Open(b)).opened(&mut file, taken()),
        Err(error) if error.to_string() == "taken"));
    let mut export = file.export(path("out.gz"));
    export.step = ExportStep::Rotate(Rotation::Open(c));
    assert!(matches!(export.opened(&mut file, taken()),
        Err(ExportError::Rotate(RotateError::NewFile(NewFileError::Open(path, _))))
            if text(&path) == name));
    assert!(matches!(file.storage.first_name_taken(d, broken("taken")),
        Err(NewError::NewFile(NewFileError::Open(path, _))) if text(&path) == name));
    file.current.bytes_written = 1;
    assert!(file.should_rotate(1, began));
}

#[test]
fn taken_name_leads_to_the_next_number() {
    let mut file = rotating(Limits::default());
    let began = file.current.began;
    let first = file.storage.open_new_file_at(began);
    assert_eq!(text(&first.path), format!("logs/{}.log", began.stamp()));
    let second = file.storage.first_name_taken(first, broken("taken")).unwrap();
    assert_eq!(text(&second.path), format!("logs/{}-1.log", began.stamp()));
    assert_eq!((second.began, second.number), (began, 1));
    let third = match Rotation::Open(second).opened(&mut file, Opening::Exists(broken("taken"))) {
        Ok(Rotation::Open(third)) => third,
        _ => panic!("expected another file"),
    };
    assert_eq!(text(&third.path), format!("logs/{}-2.log", began.stamp()));
    assert_eq!((third.began, third.number), (began, 2));
    let taken = Opening::CompressedExists(broken("taken"));
    let fourth = match Writing::Rotate(Rotation::Open(third)).opened(&mut file, taken) {
        Ok(Writing::Rotate(Rotation::Open(fourth))) => fourth,
        _ => panic!("expected another file"),
    };
    assert_eq!(text(&fourth.path), format!("logs/{}-3.log", began.stamp()));
    let mut export = file.export(path("out.gz"));
    export.step = ExportStep::Rotate(Rotation::Open(fourth));
    let export = export.opened(&mut file, Opening::Exists(broken("taken"))).unwrap();
    match export.step {
        ExportStep::Rotate(Rotation::Open(fifth)) => {
            assert_eq!(text(&fifth.path), format!("logs/{}-4.log", began.stamp()));
            assert!(matches!(Rotation::Open(fifth).opened(&mut file, Opening::Created),
                Ok(Rotation::Done)));
        }
        _ => panic!("expected another file"),
    }
    assert_eq!(file.current.number, 4);
}

#[test]
fn attempts_are_judged() {
    assert!(matches!(Opening::Created.judge(), Attempt::Tried(Ok(()))));
    assert!(matches!(Opening::Exists(broken("a")).judge(),
        Attempt::Taken(error) if error.to_string() == "a"));
    assert!(matches!(Opening::CompressedExists(broken("b")).judge(),
        Attempt::Taken(error) if error.to_string() == "b"));
    assert!(matches!(Opening::Failed(broken("c")).judge(),
        Attempt::Tried(Err(error)) if error.to_string() == "c"));
}

#[test]
fn write_passes_the_cause_of_a_failed_rotation_on() {
    let mut file = rotating(Limits::default().size(10));
    file.current.bytes_written = 10;
    let step = Writing::start_at(&file, 1, Timestamp { secs: 0, nanos: 0 });
    match step.resume(&mut file, Err(broken("flush"))) {
        Err(error) => assert_eq!(error.to_string(), "flush"),
        Ok(_) => panic!("expected an error"),
    }
    assert_eq!(file.current.bytes_written, 10);
}

#[test]
fn failed_write_is_not_counted() {
    let mut file = rotating(Limits::default());
    assert_eq!(file.write(Ok(5)).unwrap(), 5);
    assert_eq!(file.write(Err(broken("full"))).unwrap_err().to_string(), "full");
    assert_eq!(file.current.bytes_written, 5);
}

/// A compression of `logs/a.log`, which holds `data`, taken on by so many steps.
fn compression_after(steps: usize) -> Compression {
    let mut pieces = vec![Vec::new(), b"data".to_vec()];
    let mut compression = Compression::start(path("logs/a.log"));
    for _ in 0..steps {
        compression = if let CompressStep::Read(_) = compression.step {
            compression.read(Ok(pieces.pop().unwrap())).unwrap()
        } else {
            compression.resume(Ok(())).unwrap()
        };
    }
    compression
}

fn failed_compression(steps: usize) -> CompressError {
    match compression_after(steps).resume(Err(broken("no"))) {
        Err(error) => error,
        Ok(_) => panic!("expected an error"),
    }
}

#[test]
fn compression_fails_with_the_step() {
    assert!(matches!(failed_compression(0),
        CompressError::OpenInput(name, error) if text(&name) == "logs/a.log"
            && error.to_string() == "no"));
    assert!(matches!(failed_compression(1),
        CompressError::OpenOutput(name, _) if text(&name) == "logs/a.log.gz"));
    assert!(matches!(compression_after(2).step, CompressStep::Read(_)));
    assert!(matches!(failed_compression(3),
        CompressError::Write(name, _) if text(&name) == "logs/a.log.gz"));
    assert!(matches!(compression_after(4).step, CompressStep::Read(_)));
    assert!(matches!(failed_compression(5),
        CompressError::FlushGZip(name, _) if text(&name) == "logs/a.log.gz"));
    assert!(matches!(compression_after(6).step, CompressStep::Finish(_)));
    assert!(matches!(failed_compression(7),
        CompressError::SyncFile(name, _) if text(&name) == "logs/a.log.gz"));
    assert!(matches!(failed_compression(8),
        CompressError::Remove(name, _) if text(&name) == "logs/a.log"));
    assert!(matches!(failed_compression(9),
        CompressError::SyncDir(name, _) if text(&name) == "logs"));
    assert!(matches!(compression_after(10).step, CompressStep::Done));
}

#[test]
fn unreadable_input_is_a_write_error() {
    for steps in [2, 4] {
        assert!(matches!(compression_after(steps).read(Err(broken("no"))),
            Err(CompressError::Write(name, error)) if text(&name) == "logs/a.log.gz"
                && error.to_string() == "no"));
    }
}

#[test]
fn failure_to_finish_the_stream_is_passed_over() {
    match compression_after(6).resume(Err(broken("no"))) {
        Ok(after) => assert!(matches!(after.step, CompressStep::SyncFile)),
        Err(_) => panic!("the outcome is not looked at"),
    }
}

fn export_at(step: ExportStep<u32>) -> Export<u32> {
    Export {
        dest: path("out.gz"),
        step,
        waiting: Vec::new(),
        files: vec![path("logs/a.log.gz"), path("logs/b.log.gz")],
        files_copied: 1,
        bytes_copied: 100,
    }
}

#[test]
fn export_fails_with_the_step() {
    let mut file = rotating(Limits::default());
    let current = text(&file.current.path);
    let rotate = file.export(path("out.gz"));
    assert!(matches!(rotate.rotated(&mut file, Err(broken("no"))),
        Err(ExportError::Rotate(RotateError::Flush(name, _))) if text(&name) == current));
    let failure = CompressError::Remove(path("logs/a.log"), broken("no"));
    assert!(matches!(export_at(ExportStep::Join(3)).joined(Err(failure)),
        Err(ExportError::Compression(CompressError::Remove(name, _)))
            if text(&name) == "logs/a.log"));
    assert!(matches!(export_at(ExportStep::CreateOutput).resume(&file, Err(broken("no"))),
        Err(ExportError::CreateOutput(name, _)) if text(&name) == "out.gz"));
    assert!(matches!(export_at(ExportStep::OpenInput).resume(&file, Err(broken("no"))),
        Err(ExportError::OpenInput(name, _)) if text(&name) == "logs/b.log.gz"));
    assert!(matches!(export_at(ExportStep::Copy).copied(Err(broken("no"))),
        Err(ExportError::Copy(from, to, _))
            if text(&from) == "logs/b.log.gz" && text(&to) == "out.gz"));
    assert!(matches!(export_at(ExportStep::Flush).resume(&file, Err(broken("no"))),
        Err(ExportError::Flush(name, _)) if text(&name) == "out.gz"));
    assert!(matches!(export_at(ExportStep::Sync).resume(&file, Err(broken("no"))),
        Err(ExportError::Sync(name, _)) if text(&name) == "out.gz"));
}

#[test]
fn errors_are_wrapped() {
    let open = || NewFileError::Open(path("a"), broken("open"));
    assert!(matches!(NewError::from(open()), NewError::NewFile(NewFileError::Open(_, _))));
    assert!(matches!(RotateError::from(open()), RotateError::NewFile(NewFileError::Open(_, _))));
    assert_eq!(io::Error::from(open()).to_string(), "open");
    assert!(matches!(
        NewError::from(CollectFilesError::ReadDirEntry(broken("entry"))),
        NewError::CollectExistingFiles(CollectFilesError::ReadDirEntry(_))
    ));
    let flush = || RotateError::Flush(path("a"), broken("flush"));
    assert!(matches!(CutError::from(flush()), CutError::Rotate(RotateError::Flush(_, _))));
    assert!(matches!(ExportError::from(flush()), ExportError::Rotate(RotateError::Flush(_, _))));
    assert!(matches!(
        ExportError::from(CompressError::SyncDir(path("a"), broken("sync"))),
        ExportError::Compression(CompressError::SyncDir(_, _))
    ));
    assert_eq!(io::Error::from(flush()).to_string(), "flush");
    let sync = RotateError::Sync(path("a"), broken("sync"));
    assert_eq!(io::Error::from(sync).to_string(), "sync");
    let remove = RotateError::Remove(path("a"), broken("remove"));
    assert_eq!(io::Error::from(remove).to_string(), "remove");
    assert_eq!(io::Error::from(RotateError::NewFile(open())).to_string(), "open");
}
