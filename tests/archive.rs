use std::io::{Cursor, Write};

use gha_logs_miner::archive::{read_entries, text_lines_of};
use gha_logs_miner::pattern::Matcher;
use gha_logs_miner::scan::ENTRY_PATTERN;
use zip::write::SimpleFileOptions;
use zip::CompressionMethod;
use zip::ZipWriter;

fn bundle(entries: &[(&str, &[u8])]) -> Vec<u8> {
    let mut w = ZipWriter::new(Cursor::new(Vec::new()));
    for (name, bytes) in entries {
        let options = SimpleFileOptions::default().compression_method(CompressionMethod::Stored);
        w.start_file(name.to_string(), options).unwrap();
        w.write_all(bytes).unwrap();
    }
    w.finish().unwrap().into_inner()
}

#[test]
fn lines_split_on_newlines() {
    assert_eq!(text_lines_of(&b"a\nb\r\nc".to_vec()), vec!["a", "b", "c"]);
    assert_eq!(text_lines_of(&b"a\n".to_vec()), vec!["a"]);
    assert_eq!(text_lines_of(&b"a\n\n".to_vec()), vec!["a", ""]);
    assert_eq!(text_lines_of(&b"a\r".to_vec()), vec!["a\r"]);
    assert!(text_lines_of(&Vec::new()).is_empty());
}

#[test]
fn lines_skip_invalid_utf8() {
    assert_eq!(text_lines_of(&b"ok\n\xff\xfe\nstill \xc3\xa9".to_vec()), vec!["ok", "still \u{e9}"]);
}

fn selector() -> Matcher {
    Matcher::new(ENTRY_PATTERN).ok().unwrap()
}

/// Flips the first byte of the stored copy of `needle` inside `bundle`.
fn corrupt(mut bundle: Vec<u8>, needle: &[u8]) -> Vec<u8> {
    let at = bundle.windows(needle.len()).position(|w| w == needle).unwrap();
    bundle[at] ^= 0xff;
    bundle
}

#[test]
fn entries_read_in_archive_order() {
    let b = bundle(&[
        ("Nightwatch/1_Run Nightwatch.txt", b"Running: a\n    at x.js:1\n"),
        ("other.txt", b"z"),
        ("Nightwatch/2_Run Nightwatch.txt", b"OK 1 total assertions passed"),
    ]);
    let entries = match read_entries(b, &selector()) {
        Ok(e) => e,
        Err(e) => panic!("{}", e.message),
    };
    assert_eq!(entries.len(), 2);
    assert_eq!(entries[0].name, "Nightwatch/1_Run Nightwatch.txt");
    assert_eq!(entries[0].lines, vec!["Running: a", "    at x.js:1"]);
    assert_eq!(entries[1].name, "Nightwatch/2_Run Nightwatch.txt");
    assert_eq!(entries[1].lines, vec!["OK 1 total assertions passed"]);
}

#[test]
fn unreadable_selected_entry_fails_bundle() {
    let b = bundle(&[("Nightwatch/1_Run Nightwatch.txt", b"selected-content-xyz"), ("other.txt", b"z")]);
    assert!(read_entries(corrupt(b, b"selected-content-xyz"), &selector()).is_err());
}

#[test]
fn unreadable_unselected_entry_is_skipped() {
    let b = bundle(&[("Nightwatch/1_Run Nightwatch.txt", b"fine"), ("other.txt", b"unselected-content-xyz")]);
    match read_entries(corrupt(b, b"unselected-content-xyz"), &selector()) {
        Ok(entries) => {
            assert_eq!(entries.len(), 1);
            assert_eq!(entries[0].lines, vec!["fine"]);
        }
        Err(e) => panic!("{}", e.message),
    }
}

#[test]
fn corrupt_bundle_is_refused() {
    assert!(read_entries(b"not a zip archive".to_vec(), &selector()).is_err());
    assert!(read_entries(Vec::new(), &selector()).is_err());
}
