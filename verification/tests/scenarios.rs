use flate2::read::GzDecoder;
use flate2::write::GzEncoder;
use rotating_file::compress::{CompressStep, Compression};
use rotating_file::errors::{CompressError, ExportError};
use rotating_file::export::ExportStep;
use rotating_file::init::{DirEntry, Found};
use rotating_file::path::LogPath;
use rotating_file::rotate::Rotation;
use rotating_file::rotating_file::{Attempt, Opening};
use rotating_file::time::{TimeDelta, Timestamp};
use rotating_file::work::WorkId;
use rotating_file::write::Writing;
use rotating_file::{Limits, RotatingFile, Storage};
use std::collections::BTreeMap;
use std::io::{self, Read, Write};

const TEXT: &str = "The quick brown fox jumps over the lazy dog";

fn path(text: &str) -> LogPath {
    LogPath::from_bytes(text.as_bytes())
}

fn text(path: &LogPath) -> String {
    String::from_utf8(path.to_bytes()).unwrap()
}

fn unzip(bytes: &[u8]) -> Vec<u8> {
    let mut data = Vec::new();
    flate2::read::MultiGzDecoder::new(bytes).read_to_end(&mut data).unwrap();
    data
}

/// A disk in memory with a clock, and a rotating file on it. A compression waits until it is run;
/// its handle is the path of its input file.
struct Machine {
    disk: BTreeMap<String, Vec<u8>>,
    clock: Timestamp,
    file: RotatingFile<String>,
    pending: Vec<(WorkId, String)>,
}

fn create(disk: &mut BTreeMap<String, Vec<u8>>, path: &LogPath) -> Opening {
    let name = text(path);
    if disk.contains_key(&name) {
        return Opening::Exists(io::Error::from(io::ErrorKind::AlreadyExists));
    }
    if disk.contains_key(&format!("{}.gz", name)) {
        return Opening::CompressedExists(io::Error::from(io::ErrorKind::AlreadyExists));
    }
    disk.insert(name, Vec::new());
    Opening::Created
}

const START: Timestamp = Timestamp { secs: 1_000_000_000, nanos: 0 };

impl Machine {
    fn new(storage: Storage, limits: Limits, disk: BTreeMap<String, Vec<u8>>) -> Machine {
        Machine::new_at(storage, limits, disk, START)
    }

    fn new_at(
        storage: Storage,
        limits: Limits,
        mut disk: BTreeMap<String, Vec<u8>>,
        clock: Timestamp,
    ) -> Machine {
        let mut first = storage.open_new_file_at(clock);
        while let Attempt::Taken(error) = create(&mut disk, &first.path).judge() {
            first = storage.first_name_taken(first, error).unwrap();
        }
        let file = match RotatingFile::try_init(storage, limits, first, Ok(())) {
            Ok(file) => file,
            Err(_) => panic!("the first file was opened"),
        };
        let mut machine = Machine { disk, clock, file, pending: Vec::new() };
        let entries = machine
            .disk
            .keys()
            .map(|name| Ok(DirEntry { path: path(name), is_file: Ok(true) }))
            .collect();
        let (queue, res) = machine.file.collect_existing_files(Ok(entries));
        assert!(res.is_ok());
        for found in queue {
            let handle = text(&found);
            let id = machine.file.enqueue_compression(handle.clone());
            machine.pending.push((id, handle));
        }
        machine
    }

    fn rotation_outcome(&mut self, step: &Rotation) -> io::Result<()> {
        match step {
            Rotation::Remove(oldest) => {
                self.disk.remove(&text(oldest)).expect("the file to delete exists");
                Ok(())
            }
            _ => Ok(()),
        }
    }

    fn start_compression(&mut self) -> String {
        let handle = text(&self.file.current_compression().in_path);
        assert_eq!(handle, text(&self.file.current.path));
        self.pending.push((self.file.work.next_id(), handle.clone()));
        handle
    }

    fn write(&mut self, data: &[u8]) {
        let mut step = Writing::start_at(&self.file, data.len(), self.clock);
        while let Writing::Rotate(rotation) = &step {
            if let Rotation::Compress = rotation {
                let handle = self.start_compression();
                step = step.started_at(&mut self.file, handle, self.clock);
            } else if let Rotation::Open(next) = rotation {
                let opening = create(&mut self.disk, &next.path);
                step = step.opened(&mut self.file, opening).unwrap();
            } else {
                let outcome = self.rotation_outcome(rotation);
                step = step.resume(&mut self.file, outcome).unwrap();
            }
        }
        let current = text(&self.file.current.path);
        self.disk.get_mut(&current).unwrap().extend_from_slice(data);
        self.file.write(Ok(data.len())).unwrap();
    }

    fn write_line(&mut self) {
        self.write(format!("{}\n", TEXT).as_bytes());
    }

    fn tick(&mut self) {
        self.clock = later(self.clock, 1);
    }

    fn compress(&mut self, input: &str) -> Result<Compression, CompressError> {
        let mut compression = Compression::start(path(input));
        let out = text(&compression.out_path);
        let mut position = 0;
        loop {
            let outcome = match &compression.step {
                CompressStep::OpenInput if !self.disk.contains_key(input) => {
                    Err(io::Error::from(io::ErrorKind::NotFound))
                }
                CompressStep::OpenOutput => {
                    self.disk.insert(out.clone(), Vec::new());
                    Ok(())
                }
                CompressStep::Read(_) => {
                    let data = &self.disk[input];
                    let end = data.len().min(position + 16);
                    compression = compression.read(Ok(data[position..end].to_vec()))?;
                    position = end;
                    continue;
                }
                CompressStep::Write(_, bytes) | CompressStep::Flush(_, bytes) => {
                    self.disk.get_mut(&out).unwrap().extend_from_slice(bytes);
                    Ok(())
                }
                CompressStep::Finish(end) => {
                    self.disk.get_mut(&out).unwrap().extend_from_slice(end);
                    Ok(())
                }
                CompressStep::RemoveInput => {
                    self.disk.remove(input);
                    Ok(())
                }
                CompressStep::SyncDir(dir) => {
                    assert!(dir.same_as(&path(input).parent().unwrap()));
                    Ok(())
                }
                CompressStep::Done => return Ok(compression),
                _ => Ok(()),
            };
            compression = compression.resume(outcome)?;
        }
    }

    fn run(&mut self, id: WorkId, input: &str) -> Result<(), CompressError> {
        let result = match self.compress(input) {
            Ok(compression) => {
                compression.record(id, &mut self.file);
                Ok(())
            }
            Err(error) => {
                self.file.work.compression_finished(id);
                Err(error)
            }
        };
        result
    }

    fn run_pending(&mut self) {
        for (id, input) in std::mem::take(&mut self.pending) {
            assert!(self.run(id, &input).is_ok());
        }
    }

    fn export(&mut self, dest: &str) -> Result<u64, ExportError> {
        let mut export = self.file.export(path(dest));
        loop {
            let outcome = match &export.step {
                ExportStep::Rotate(Rotation::Compress) => {
                    let handle = self.start_compression();
                    export = export.started_at(&mut self.file, handle, self.clock);
                    continue;
                }
                ExportStep::Rotate(Rotation::Open(next)) => {
                    let opening = create(&mut self.disk, &next.path);
                    export = export.opened(&mut self.file, opening)?;
                    continue;
                }
                ExportStep::Rotate(rotation) => {
                    let outcome = self.rotation_outcome(rotation);
                    export = export.rotated(&mut self.file, outcome)?;
                    continue;
                }
                ExportStep::Join(handle) => {
                    let at = self.pending.iter().position(|(_, input)| input == handle).unwrap();
                    let (id, input) = self.pending.remove(at);
                    let result = self.run(id, &input);
                    export = export.joined(result)?;
                    continue;
                }
                ExportStep::Copy => {
                    let from = text(&export.files[export.files_copied]);
                    let data = self.disk[&from].clone();
                    self.disk.get_mut(dest).unwrap().extend_from_slice(&data);
                    export = export.copied(Ok(data.len() as u64))?;
                    continue;
                }
                ExportStep::CreateOutput if self.disk.contains_key(dest) => {
                    Err(io::Error::from(io::ErrorKind::AlreadyExists))
                }
                ExportStep::CreateOutput => {
                    self.disk.insert(dest.to_string(), Vec::new());
                    Ok(())
                }
                ExportStep::Done => return Ok(export.bytes_copied),
                _ => Ok(()),
            };
            export = export.resume(&self.file, outcome)?;
        }
    }

    fn names(&self) -> Vec<String> {
        self.disk.keys().cloned().collect()
    }

    fn listed(&self) -> Vec<String> {
        self.file.state.files().iter().map(text).collect()
    }
}

fn machine(limits: Limits) -> Machine {
    Machine::new(Storage::new(path("./target/tmp")), limits, BTreeMap::new())
}

fn later(time: Timestamp, secs: i64) -> Timestamp {
    Timestamp { secs: time.secs + secs, nanos: time.nanos }
}

#[test]
fn rotate_by_size() {
    let root = || Storage::new(path("./target/tmp1"));
    let mut machine = Machine::new(root(), Limits::default().size(1024), BTreeMap::new());
    let timestamp = machine.clock.stamp();
    for _ in 0..23 {
        machine.write_line();
    }
    assert!(machine.disk.contains_key(&format!("./target/tmp1/{}.log", timestamp)));
    assert!(!machine.disk.contains_key(&format!("./target/tmp1/{}-1.log", timestamp)));
    assert_eq!(machine.file.current.bytes_written, 23 * 44);

    let clock = later(machine.clock, 1);
    let mut machine =
        Machine::new_at(root(), Limits::default().size(1024), BTreeMap::new(), clock);
    let timestamp = machine.clock.stamp();
    for _ in 0..24 {
        machine.write_line();
    }
    assert!(machine.disk.contains_key(&format!("./target/tmp1/{}.log", timestamp)));
    assert_eq!(
        machine.disk[&format!("./target/tmp1/{}-1.log", timestamp)],
        format!("{}\n", TEXT).into_bytes()
    );
    assert_eq!(machine.disk.len(), 2);
    assert_eq!(machine.file.current.bytes_written, 44);
}

#[test]
fn rotate_by_time() {
    let age = TimeDelta { secs: 1, nanos: 0 };
    let mut machine = machine(Limits::default().age(age));
    machine.clock = Timestamp { secs: START.secs, nanos: 999_999_999 };
    machine.write(b"a");
    assert_eq!(machine.names().len(), 1);
    machine.clock = later(START, 1);
    let timestamp1 = machine.clock.stamp();
    machine.write(b"b");
    machine.tick();
    let timestamp2 = machine.clock.stamp();
    machine.write(b"c");
    assert_eq!(machine.disk[&format!("./target/tmp/{}.log", timestamp1)], b"b");
    assert_eq!(machine.disk[&format!("./target/tmp/{}.log", timestamp2)], b"c");
}

#[test]
fn rotate_by_size_and_gzip() {
    let mut machine = machine(Limits::default().size(1024));
    let timestamp = machine.clock.stamp();
    for _ in 0..24 {
        machine.write_line();
    }
    machine.export("out.gz").unwrap();
    let first = format!("./target/tmp/{}.log.gz", timestamp);
    let second = format!("./target/tmp/{}-1.log.gz", timestamp);
    assert_eq!(unzip(&machine.disk[&first]), format!("{}\n", TEXT).repeat(23).into_bytes());
    assert_eq!(unzip(&machine.disk[&second]), format!("{}\n", TEXT).into_bytes());
    assert!(!machine.disk.contains_key(&format!("./target/tmp/{}.log", timestamp)));
    assert!(machine.disk.contains_key(&format!("./target/tmp/{}-2.log", timestamp)));
    assert_eq!(machine.file.work.len(), 0);
}

#[test]
fn rotate_by_time_and_gzip() {
    let mut machine = machine(Limits::default().age(TimeDelta { secs: 1, nanos: 0 }));
    let timestamp1 = machine.clock.stamp();
    machine.write_line();
    machine.tick();
    let timestamp2 = machine.clock.stamp();
    machine.write_line();
    machine.export("out.gz").unwrap();
    let line = format!("{}\n", TEXT).into_bytes();
    assert_eq!(unzip(&machine.disk[&format!("./target/tmp/{}.log.gz", timestamp1)]), line);
    assert_eq!(unzip(&machine.disk[&format!("./target/tmp/{}.log.gz", timestamp2)]), line);
}

#[test]
fn rotate_by_max_files() {
    let age = TimeDelta { secs: 1, nanos: 0 };
    let mut machine = machine(Limits::default().age(age).files(2));
    let name = |clock: Timestamp| format!("./target/tmp/{}.log", clock.stamp());
    let first = name(machine.clock);
    machine.write_line();
    assert_eq!(machine.names(), [first.clone()]);

    machine.tick();
    let second = name(machine.clock);
    machine.write_line();
    machine.run_pending();
    assert_eq!(machine.names(), [format!("{}.gz", first), second.clone()]);

    machine.tick();
    let third = name(machine.clock);
    machine.write_line();
    machine.run_pending();
    assert_eq!(machine.names(), [format!("{}.gz", second), third]);
}

#[test]
fn third_file_of_one_moment_has_number_two() {
    let mut machine = machine(Limits::default().size(1024));
    let timestamp = machine.clock.stamp();
    for _ in 0..47 {
        machine.write_line();
    }
    assert!(machine.disk.contains_key(&format!("./target/tmp/{}.log", timestamp)));
    assert!(machine.disk.contains_key(&format!("./target/tmp/{}-1.log", timestamp)));
    let third = &machine.disk[&format!("./target/tmp/{}-2.log", timestamp)];
    assert_eq!(third.len(), TEXT.len() + 1);
}

#[test]
fn numbers_go_past_one_digit() {
    let mut machine = machine(Limits::default().size(1));
    for _ in 0..13 {
        machine.write(b"x");
    }
    let last = format!("./target/tmp/{}-12.log", machine.clock.stamp());
    assert_eq!(text(&machine.file.current.path), last);
    assert_eq!(machine.file.current.number, 12);
    assert_eq!(machine.disk.len(), 13);
}

#[test]
fn clean_up_existing_all() {
    let timestamp1 = START.stamp();
    let old = format!("./target/tmp10/test-logs-{}.test.log", timestamp1);
    let mut disk = BTreeMap::new();
    disk.insert(old.clone(), format!("{}\n", TEXT).into_bytes());
    let age = TimeDelta { secs: 1, nanos: 0 };
    let storage = Storage::new(path("./target/tmp10"));
    let limits = Limits::default().age(age).files(2);
    let mut machine = Machine::new_at(storage, limits, disk, later(START, 1));
    machine.run_pending();
    let found = format!("{}.gz", old);
    assert_eq!(machine.listed(), [found.clone()]);
    let name = |clock: Timestamp| format!("./target/tmp10/{}.log", clock.stamp());
    let second = name(machine.clock);
    machine.write_line();
    assert!(machine.disk.contains_key(&found));
    assert!(machine.disk.contains_key(&second));

    machine.tick();
    let third = name(machine.clock);
    machine.write_line();
    machine.run_pending();
    assert!(!machine.disk.contains_key(&found));
    assert_eq!(machine.names(), [format!("{}.gz", second), third]);
}

#[test]
fn oldest_files_are_deleted_first() {
    let mut disk = BTreeMap::new();
    for name in ["d", "b", "a", "c"] {
        disk.insert(format!("./target/tmp/{}.gz", name), Vec::new());
    }
    let storage = Storage::new(path("./target/tmp"));
    let mut machine = Machine::new(storage, Limits::default().size(1).files(4), disk);
    assert_eq!(machine.file.state.len(), 4);
    machine.write(b"x");
    machine.write(b"y");
    assert_eq!(machine.listed(), ["./target/tmp/c.gz", "./target/tmp/d.gz"]);
    assert_eq!(machine.names().len(), 4);
}

#[test]
fn nothing_is_deleted_within_the_limit() {
    let mut machine = machine(Limits::default().size(1).files(3));
    machine.write(b"x");
    machine.write(b"y");
    machine.run_pending();
    assert_eq!((machine.file.state.len(), machine.file.work.len()), (1, 0));
    machine.write(b"z");
    assert_eq!(machine.file.state.len(), 1);
    assert_eq!(machine.names().len(), 3);
    machine.run_pending();
    machine.write(b"!");
    assert_eq!(machine.file.state.len(), 1);
    assert_eq!(machine.names().len(), 3);
}

#[test]
fn files_that_are_not_compressed_are_spared() {
    let mut machine = machine(Limits::default().size(1).files(1));
    for _ in 0..3 {
        machine.write(b"x");
    }
    assert_eq!(machine.names().len(), 3);
    assert_eq!(machine.file.work.len(), 2);
    machine.run_pending();
    assert_eq!(machine.file.state.len(), 2);
    machine.write(b"x");
    assert_eq!(machine.file.state.len(), 0);
    assert_eq!(machine.names().len(), 2);
}

#[test]
fn oversized_write_goes_to_a_fresh_file() {
    let mut machine = machine(Limits::default().size(10));
    machine.write(&[0; 11]);
    assert_eq!(machine.names().len(), 2);
    assert_eq!(machine.file.current.bytes_written, 11);
    machine.write(&[0; 10]);
    assert_eq!(machine.file.current.bytes_written, 10);
    machine.write(&[]);
    assert_eq!(machine.names().len(), 3);
}

#[test]
fn should_rotate_at_the_limits() {
    let mut file = machine(Limits::default().size(100)).file;
    let began = file.current.began;
    file.current.bytes_written = 60;
    assert!(!file.should_rotate(40, began));
    assert!(file.should_rotate(41, began));
    assert!(file.should_rotate(usize::MAX, began));
    assert!(!file.should_rotate(0, later(began, 1_000_000)));
    file.limits = Limits::default();
    assert!(!file.should_rotate(usize::MAX, later(began, 1_000_000)));
    file.limits = Limits::default().age(TimeDelta { secs: 2, nanos: 0 });
    assert!(!file.should_rotate(0, later(began, 1)));
    assert!(file.should_rotate(0, later(began, 2)));
}

#[test]
fn write_without_limits_goes_to_the_current_file() {
    let file = machine(Limits::default()).file;
    assert!(matches!(Writing::start(&file, 1_000_000), Writing::Write));
    let file = machine(Limits::default().age(TimeDelta { secs: 0, nanos: 0 })).file;
    assert!(matches!(Writing::start(&file, 0), Writing::Rotate(Rotation::Flush)));
}

#[test]
fn rotation_takes_its_steps_in_order() {
    let mut file = machine(Limits::default()).file;
    let first = text(&file.current.path);
    let step = Rotation::start();
    assert!(matches!(step, Rotation::Flush));
    let step = step.resume(&mut file, Ok(())).unwrap();
    assert!(matches!(step, Rotation::Sync));
    let step = step.resume(&mut file, Ok(())).unwrap();
    assert!(matches!(step, Rotation::Compress));
    let step = step.resume(&mut file, Ok(())).unwrap();
    assert!(matches!(step, Rotation::Compress));
    let step = step.started(&mut file, first.clone());
    assert!(matches!(&step, Rotation::Open(next) if text(&next.path) > first && next.number == 0));
    assert_eq!(file.work.len(), 1);
    let step = step.resume(&mut file, Ok(())).unwrap();
    assert!(matches!(step, Rotation::Done));
    assert!(text(&file.current.path) > first);
    assert!(matches!(step.resume(&mut file, Ok(())), Ok(Rotation::Done)));
}

#[test]
fn existing_files_are_told_apart() {
    let file = machine(Limits::default()).file;
    assert!(matches!(file.find(&path("d/a.log.gz"), true), Found::Compressed));
    assert!(matches!(file.find(&path("d/a.gz"), true), Found::Compressed));
    assert!(matches!(file.find(&path("d/a.log"), true), Found::Uncompressed));
    assert!(matches!(file.find(&path("d/a.txt"), true), Found::Other));
    assert!(matches!(file.find(&path("d/log"), true), Found::Other));
    assert!(matches!(file.find(&path("d/.gz"), true), Found::Other));
    assert!(matches!(file.find(&path("d/a.log.gz"), false), Found::Other));
    assert!(matches!(file.find(&file.current.path, true), Found::Other));
}

#[test]
fn collection_ignores_the_order_of_entries() {
    let names = ["d/c.log.gz", "d/a.log", "d/b.log.gz", "d/x", "d/a.log.gz"];
    let collect = |names: &[&str]| {
        let mut file = machine(Limits::default()).file;
        let entries = names
            .iter()
            .map(|name| Ok(DirEntry { path: path(name), is_file: Ok(true) }))
            .collect();
        let (queue, res) = file.collect_existing_files(Ok(entries));
        assert!(res.is_ok());
        let queue: Vec<String> = queue.iter().map(text).collect();
        let listed: Vec<String> = file.state.files().iter().map(text).collect();
        (queue, listed)
    };
    let mut backward = names;
    backward.reverse();
    assert_eq!(collect(&names), collect(&backward));
    assert_eq!(collect(&names).0, ["d/a.log"]);
    assert_eq!(collect(&names).1, ["d/a.log.gz", "d/b.log.gz", "d/c.log.gz"]);
}

#[test]
fn compression_takes_its_steps_in_order() {
    let step = Compression::start(path("logs/a.log"));
    assert_eq!(text(&step.out_path), "logs/a.log.gz");
    assert!(matches!(step.step, CompressStep::OpenInput));
    let step = step.resume(Ok(())).unwrap();
    assert!(matches!(step.step, CompressStep::OpenOutput));
    let step = step.resume(Ok(())).unwrap();
    assert!(matches!(step.step, CompressStep::Read(_)));
    let step = step.read(Ok(TEXT.as_bytes().to_vec())).unwrap();
    assert!(matches!(step.step, CompressStep::Write(_, _)));
    let step = step.resume(Ok(())).unwrap();
    assert!(matches!(step.step, CompressStep::Read(_)));
    let step = step.resume(Ok(())).unwrap();
    assert!(matches!(step.step, CompressStep::Read(_)));
    let step = step.read(Ok(Vec::new())).unwrap();
    assert!(matches!(step.step, CompressStep::Flush(_, _)));
    let step = step.resume(Ok(())).unwrap();
    assert!(matches!(step.step, CompressStep::Finish(_)));
    let step = step.resume(Ok(())).unwrap();
    assert!(matches!(step.step, CompressStep::SyncFile));
    let step = step.resume(Ok(())).unwrap();
    assert!(matches!(step.step, CompressStep::RemoveInput));
    let step = step.resume(Ok(())).unwrap();
    assert!(matches!(&step.step, CompressStep::SyncDir(dir) if text(dir) == "logs"));
    let step = step.resume(Ok(())).unwrap();
    assert!(matches!(step.step, CompressStep::Done));
}

/// What a compression writes of data that it reads in pieces: for each piece, for the flush, and at
/// the end.
fn encode(pieces: &[&[u8]]) -> (Vec<Vec<u8>>, Vec<u8>, Vec<u8>) {
    let mut compression = Compression::start(path("logs/a.log"));
    compression = compression.resume(Ok(())).unwrap().resume(Ok(())).unwrap();
    let mut written = Vec::new();
    for piece in pieces {
        compression = compression.read(Ok(piece.to_vec())).unwrap();
        match &compression.step {
            CompressStep::Write(_, out) => written.push(out.clone()),
            _ => panic!("a piece is written"),
        }
        compression = compression.resume(Ok(())).unwrap();
    }
    compression = compression.read(Ok(Vec::new())).unwrap();
    let flushed = match &compression.step {
        CompressStep::Flush(_, out) => out.clone(),
        _ => panic!("the encoder is flushed at the end"),
    };
    compression = compression.resume(Ok(())).unwrap();
    match compression.step {
        CompressStep::Finish(end) => (written, flushed, end),
        _ => panic!("the stream is finished"),
    }
}

#[test]
fn gzip_is_read_back() {
    let large: Vec<u8> = (0..300_000u32).map(|i| (i * i % 251) as u8).collect();
    for data in [b"".as_slice(), b"a".as_slice(), TEXT.as_bytes(), large.as_slice()] {
        for size in [1_000, 8_192, 1_000_000] {
            let pieces: Vec<&[u8]> = data.chunks(size).collect();
            let (written, flushed, end) = encode(&pieces);
            assert_eq!(written.len(), pieces.len());
            let upto_flush = [written.concat(), flushed].concat();
            let bytes = [upto_flush.clone(), end].concat();
            assert_eq!(bytes[..3], [0x1f, 0x8b, 8]);
            let mut read = Vec::new();
            GzDecoder::new(bytes.as_slice()).read_to_end(&mut read).unwrap();
            assert_eq!(read, data);
            let mut whole = vec![0; data.len()];
            GzDecoder::new(upto_flush.as_slice()).read_exact(&mut whole).unwrap();
            assert_eq!(whole, data);
            let (again, flushed, end) = encode(&pieces);
            assert_eq!([again.concat(), flushed, end].concat(), bytes);
        }
    }
}

#[test]
fn compression_writes_as_an_encoder_on_the_file_does() {
    let large: Vec<u8> = (0..200_000u32).map(|i| (i.wrapping_mul(i) >> 7) as u8).collect();
    let pieces: Vec<&[u8]> = large.chunks(8_192).collect();
    let (written, flushed, end) = encode(&pieces);
    let mut encoder = GzEncoder::new(Vec::new(), flate2::Compression::default());
    let mut given = 0;
    for (piece, out) in pieces.iter().zip(&written) {
        encoder.write_all(piece).unwrap();
        given += out.len();
        assert_eq!(encoder.get_ref().len(), given);
    }
    encoder.flush().unwrap();
    given += flushed.len();
    assert_eq!(encoder.get_ref().len(), given);
    assert_eq!(encoder.finish().unwrap(), [written.concat(), flushed, end].concat());
}

#[test]
fn compression_keeps_the_number_of_files() {
    let mut machine = machine(Limits::default().size(1));
    machine.write(b"x");
    machine.write(b"y");
    let on_disk = |machine: &Machine| machine.file.state.len() + machine.file.work.len() + 1;
    assert_eq!(on_disk(&machine), 2);
    assert_eq!(machine.disk.len(), 2);
    machine.run_pending();
    assert_eq!(on_disk(&machine), 2);
    assert_eq!(machine.disk.len(), 2);
}

#[test]
fn failed_compression_leaves_the_listing() {
    let mut machine = machine(Limits::default());
    let id = machine.file.enqueue_compression("gone".to_string());
    assert!(matches!(machine.run(id, "./target/tmp/gone.log"),
        Err(CompressError::OpenInput(name, _)) if text(&name) == "./target/tmp/gone.log"));
    assert_eq!(machine.file.state.len(), 0);
    assert_eq!(machine.file.work.len(), 0);
}

#[test]
fn export_gathers_all_log_data_in_order() {
    let mut machine = machine(Limits::default().size(3));
    for data in [b"one", b"two", b"six"] {
        machine.write(data);
        machine.tick();
    }
    let current = text(&machine.file.current.path);
    let bytes = machine.export("out.gz").unwrap();
    assert_eq!(unzip(&machine.disk["out.gz"]), b"onetwosix");
    assert_eq!(bytes, machine.disk["out.gz"].len() as u64);
    assert_eq!(machine.file.state.len(), 3);
    assert_eq!(machine.file.work.len(), 0);
    assert!(machine.listed().contains(&format!("{}.gz", current)));
    assert_eq!(machine.file.current.bytes_written, 0);
}

#[test]
fn export_goes_on_where_the_last_ended() {
    let mut machine = machine(Limits::default().size(3));
    for data in [b"one", b"two"] {
        machine.write(data);
        machine.tick();
    }
    let first = machine.export("first.gz").unwrap();
    machine.tick();
    for data in [b"six", b"ten"] {
        machine.write(data);
        machine.tick();
    }
    let second = machine.export("second.gz").unwrap();
    assert!(first < second);
    let (before, after) = machine.disk["second.gz"].split_at(first as usize);
    assert_eq!(before, machine.disk["first.gz"]);
    assert_eq!(unzip(after), b"sixten");
}

#[test]
fn export_does_not_overwrite() {
    let mut machine = machine(Limits::default());
    machine.disk.insert("out.gz".to_string(), b"precious".to_vec());
    assert!(matches!(machine.export("out.gz"),
        Err(ExportError::CreateOutput(name, _)) if text(&name) == "out.gz"));
    assert_eq!(machine.disk["out.gz"], b"precious");
}

#[test]
fn export_of_nothing_is_empty() {
    let file = machine(Limits::default()).file;
    let mut export = file.export(path("out.gz"));
    export.step = ExportStep::CreateOutput;
    let export = export.resume(&file, Ok(())).unwrap();
    assert!(matches!(export.step, ExportStep::Flush));
    let export = export.resume(&file, Ok(())).unwrap();
    assert!(matches!(export.step, ExportStep::Sync));
    let export = export.resume(&file, Ok(())).unwrap();
    assert!(matches!(export.step, ExportStep::Done));
    assert_eq!(export.bytes_copied, 0);
}

#[test]
fn export_waits_for_every_compression() {
    let mut machine = machine(Limits::default());
    machine.file.enqueue_compression("a".to_string());
    machine.file.enqueue_compression("b".to_string());
    let mut export = machine.file.export(path("out.gz"));
    export = export.rotated(&mut machine.file, Ok(())).unwrap();
    export = export.rotated(&mut machine.file, Ok(())).unwrap();
    assert!(matches!(&export.step, ExportStep::Rotate(Rotation::Compress)));
    export = export.started(&mut machine.file, "c".to_string());
    assert!(matches!(&export.step, ExportStep::Rotate(Rotation::Open(_))));
    export = export.rotated(&mut machine.file, Ok(())).unwrap();
    assert_eq!(machine.file.work.len(), 0);
    for expected in ["c", "b", "a"] {
        assert!(matches!(&export.step, ExportStep::Join(handle) if handle == expected));
        export = export.joined(Ok(())).unwrap();
    }
    assert!(matches!(&export.step, ExportStep::CreateOutput));
}

#[test]
fn a_fresh_file_fits() {
    let mut file = machine(Limits::default().size(10)).file;
    let began = file.current.began;
    assert!(!file.should_rotate(10, began));
    assert!(file.should_rotate(11, began));
    file.write(Ok(1)).unwrap();
    assert!(file.should_rotate(10, began));
}
