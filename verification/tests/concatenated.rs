//! Log files as text, and texts with the logs of several runs.

use flate2::{write::GzEncoder, Compression};
use miplog::input::{decode, split_concatenated, DecodeError};
use std::io::Write;

#[test]
fn split_finds_entries() {
    let text = "preamble ignored\n\
            @01 modified/foo.mps.gz ===========\n\
            foo log line\n\
            @05 7200\n\
            @01 modified/bar.mps.gz ===========\n\
            bar log line\n";
        let entries = split_concatenated(text);
        assert_eq!(entries.len(), 2);
        assert_eq!(entries[0].instance, "modified/foo.mps.gz");
        assert!(entries[0].text.contains("foo log line"));
        assert_eq!(entries[1].instance, "modified/bar.mps.gz");
        assert!(entries[1].text.contains("bar log line"));
    }

#[test]
fn split_empty_when_no_markers() {
    assert!(split_concatenated("random text\n").is_empty());
}

fn gzip(bytes: &[u8]) -> Vec<u8> {
    let mut gz = GzEncoder::new(Vec::new(), Compression::best());
    gz.write_all(bytes).unwrap();
    gz.finish().unwrap()
}

#[test]
fn gz_files_are_decompressed() {
    let text = "@01 a.mps ====\nGap 5 \u{20ac}\n";
    let packed = gzip(text.as_bytes());
    assert_eq!(decode(Some("gz"), packed.clone()).as_deref(), Ok(text));
    // Only the first member is read.
    let mut two = packed.clone();
    two.extend(gzip(b"more"));
    assert_eq!(decode(Some("gz"), two).as_deref(), Ok(text));
    // Any other extension means plain text, `GZ` too.
    assert_eq!(decode(Some("GZ"), packed.clone()), Err(DecodeError::NotUtf8));
    assert_eq!(decode(None, packed), Err(DecodeError::NotUtf8));
}

#[test]
fn plain_files_are_utf8() {
    let text = "Gap 5 \u{20ac}\n";
    assert_eq!(decode(None, text.as_bytes().to_vec()).as_deref(), Ok(text));
    assert_eq!(decode(Some("log"), Vec::new()).as_deref(), Ok(""));
    assert_eq!(decode(Some("log"), vec![b'a', 0xff]), Err(DecodeError::NotUtf8));
    assert_eq!(DecodeError::NotUtf8.message(), "stream did not contain valid UTF-8");
}

#[test]
fn broken_gz_files_are_refused() {
    assert_eq!(
        decode(Some("gz"), b"plain text, no gzip".to_vec()),
        Err(DecodeError::Gzip("invalid gzip header".to_string())),
    );
    let mut packed = gzip(b"some text");
    packed.truncate(packed.len() - 4);
    assert!(matches!(decode(Some("gz"), packed), Err(DecodeError::Gzip(_))));
    assert_eq!(decode(Some("gz"), gzip(&[0xc3, 0x28])), Err(DecodeError::NotUtf8));
}

#[test]
fn run_splits_into_itself() {
    let text = "intro\n@01 a ===\none\n @01 no marker\n@01 b ===\ntwo";
    let runs = split_concatenated(text);
    assert_eq!(runs.len(), 2);
    assert_eq!(runs[0].text, "@01 a ===\none\n @01 no marker\n");
    for run in &runs {
        let again = split_concatenated(&run.text);
        assert_eq!(again.len(), 1);
        assert_eq!(&again[0], run);
    }
}

#[test]
fn texts_side_by_side_give_the_runs_of_both() {
    let a = "intro\n@01 a ===\none\n";
    let b = "@01 b ===\ntwo\n@01 c ===\n";
    let mut runs = split_concatenated(a);
    runs.extend(split_concatenated(b));
    assert_eq!(split_concatenated(&format!("{a}{b}")), runs);
    assert_eq!(runs.len(), 3);
    // Without the end of the first text's last line the marker is none.
    assert_eq!(split_concatenated(&format!("@01 a ===\none{b}")).len(), 2);
}
