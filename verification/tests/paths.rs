use rotating_file::order::{bytes_equal, bytes_precede};
use rotating_file::path::{append_bytes, LogPath};
use std::path::{Path, PathBuf};

const SPELLINGS: [&str; 24] = [
    "",
    "/",
    "//",
    ".",
    "./",
    "./a",
    "a/.",
    "a/./b",
    "a//b",
    "a/b/",
    "/a",
    "/a/b",
    "/./a",
    "..",
    "../a",
    "a/..",
    "logs",
    "logs/x.log",
    "logs/x.log.gz",
    "logs-a/x.log",
    "logs/.hidden",
    "logs/x.",
    "logs/a.b.c",
    "/var/log/app/2001-09-09-01-46-40.000000.log",
];

fn path(text: &str) -> LogPath {
    LogPath::from_bytes(text.as_bytes())
}

fn text(path: &LogPath) -> String {
    String::from_utf8(path.to_bytes()).unwrap()
}

#[test]
fn spelling_is_the_shortest() {
    assert_eq!(text(&path("")), "");
    assert_eq!(text(&path("/")), "/");
    assert_eq!(text(&path("//")), "/");
    assert_eq!(text(&path("./")), ".");
    assert_eq!(text(&path("a//b/./c/")), "a/b/c");
    assert_eq!(text(&path("/./a")), "/a");
    assert_eq!(text(&path("./target/tmp1")), "./target/tmp1");
}

#[test]
fn spelling_names_the_same_path() {
    for spelled in SPELLINGS {
        let once = path(spelled);
        assert!(path(&text(&once)).same_as(&once), "{}", spelled);
        assert_eq!(PathBuf::from(text(&once)), PathBuf::from(spelled));
    }
}

#[test]
fn paths_are_equal_as_in_std() {
    for a in SPELLINGS {
        for b in SPELLINGS {
            assert_eq!(
                path(a).same_as(&path(b)),
                Path::new(a) == Path::new(b),
                "{} {}",
                a,
                b
            );
        }
    }
}

#[test]
fn paths_are_ordered_as_in_std() {
    for a in SPELLINGS {
        for b in SPELLINGS {
            assert_eq!(
                path(a).precedes(&path(b)),
                Path::new(a) < Path::new(b),
                "{} {}",
                a,
                b
            );
        }
    }
}

#[test]
fn join_is_as_in_std() {
    let names = ["", "x.log", "./x.log", "/x.log", "sub/x.log", "../x.log", "sub//x.log/", "."];
    for dir in SPELLINGS {
        for name in names {
            let joined = path(dir).join(name.as_bytes());
            let expected = Path::new(dir).join(name);
            assert_eq!(PathBuf::from(text(&joined)), expected, "{} {}", dir, name);
        }
    }
}

#[test]
fn extension_is_as_in_std() {
    for spelled in SPELLINGS {
        let found = path(spelled).extension().map(|ext| String::from_utf8(ext).unwrap());
        let expected = Path::new(spelled).extension().map(|ext| ext.to_str().unwrap().to_string());
        assert_eq!(found, expected, "{}", spelled);
    }
}

#[test]
fn has_extension_takes_the_last_one() {
    assert!(path("logs/x.log.gz").has_extension(b"gz"));
    assert!(!path("logs/x.log.gz").has_extension(b"log"));
    assert!(!path("logs/x.log.gz").has_extension(b"log.gz"));
    assert!(path("logs/x.log").has_extension(b"log"));
    assert!(path("logs/x.").has_extension(b""));
    assert!(!path("logs/.log").has_extension(b"log"));
    assert!(!path("logs/..").has_extension(b"."));
}

#[test]
fn with_extension_is_as_in_std() {
    for spelled in SPELLINGS {
        let changed = path(spelled).with_extension(b"log.gz");
        let expected = Path::new(spelled).with_extension("log.gz");
        assert_eq!(PathBuf::from(text(&changed)), expected, "{}", spelled);
    }
}

#[test]
fn parent_is_as_in_std() {
    for spelled in SPELLINGS {
        let dir = path(spelled).parent().map(|dir| PathBuf::from(text(&dir)));
        let expected = Path::new(spelled).parent().map(PathBuf::from);
        assert_eq!(dir, expected, "{}", spelled);
    }
}

#[test]
fn clone_is_the_same_path() {
    let original = path("/var//log/./app");
    assert!(original.clone().same_as(&original));
    assert_eq!(text(&original.clone()), "/var/log/app");
}

#[test]
fn bytes_are_ordered_lexicographically() {
    let words: [&[u8]; 6] = [b"", b"a", b"ab", b"b", b"\xff", b"a\0"];
    for a in words {
        for b in words {
            assert_eq!(bytes_precede(a, b), a < b);
            assert_eq!(bytes_equal(a, b), a == b);
        }
    }
}

#[test]
fn bytes_are_appended() {
    let mut bytes = b"ab".to_vec();
    append_bytes(&mut bytes, b"");
    append_bytes(&mut bytes, b"cd");
    assert_eq!(bytes, b"abcd");
}
