use std::io::Write;

use pup_rs::error::Error;
use pup_rs::extract::{classify, extract, is_supported_extension, ArchiveKind, ExtractOutput};

fn tar_with(entries: &[(&str, &[u8])]) -> Vec<u8> {
    let mut builder = tar::Builder::new(Vec::new());
    for (path, content) in entries {
        let mut header = tar::Header::new_gnu();
        header.set_size(content.len() as u64);
        header.set_mode(0o644);
        header.set_cksum();
        builder.append_data(&mut header, path, *content).unwrap();
    }
    builder.into_inner().unwrap()
}

fn gzip(data: &[u8]) -> Vec<u8> {
    let mut encoder = flate2::write::GzEncoder::new(Vec::new(), flate2::Compression::default());
    encoder.write_all(data).unwrap();
    encoder.finish().unwrap()
}

fn xz(data: &[u8]) -> Vec<u8> {
    let mut encoder = xz2::write::XzEncoder::new(Vec::new(), 6);
    encoder.write_all(data).unwrap();
    encoder.finish().unwrap()
}

#[test]
fn supported_extensions() {
    assert!(is_supported_extension("gz"));
    assert!(is_supported_extension("xz"));
    assert!(!is_supported_extension("zip"));
    assert!(!is_supported_extension("tar"));
}

#[test]
fn classify_by_suffix() {
    assert!(matches!(classify("a/b/file.tar.gz"), Ok(ArchiveKind::TarGz)));
    assert!(matches!(classify("file.gz"), Ok(ArchiveKind::SingleGz)));
    assert!(matches!(classify("file.tar.xz"), Ok(ArchiveKind::TarXz)));
    assert!(matches!(classify("file.xz"), Ok(ArchiveKind::SingleXz)));
}

#[test]
fn unsupported_extension_is_named() {
    match classify("release.zip") {
        Err(Error::FileTypeNotSupported(ext)) => assert_eq!(ext, "zip"),
        other => panic!("expected a file-type error, got {:?}", other),
    }
    assert!(matches!(
        classify("noextension"),
        Err(Error::FileTypeNotSupported(_))
    ));
}

#[test]
fn tar_gz_reports_top_level_entries() {
    let tar_bytes = tar_with(&[("a/b.txt", b"inner"), ("c.txt", b"outer")]);
    let archive = gzip(&tar_bytes);
    match extract("GE-Proton.tar.gz", &archive).unwrap() {
        ExtractOutput::Archive { entries, tar_bytes: tb } => {
            assert_eq!(entries, vec!["a".to_string(), "c.txt".to_string()]);
            assert_eq!(tb, tar_bytes);
        }
        other => panic!("expected a tar archive, got {:?}", other),
    }
}

#[test]
fn nested_entries_dedupe_into_one_top_level_name() {
    let tar_bytes = tar_with(&[
        ("dir/one.txt", b"1".as_slice()),
        ("dir/two.txt", b"2".as_slice()),
        ("dir/sub/three.txt", b"3".as_slice()),
    ]);
    let archive = gzip(&tar_bytes);
    match extract("files.tar.gz", &archive).unwrap() {
        ExtractOutput::Archive { entries, .. } => {
            assert_eq!(entries, vec!["dir".to_string()]);
        }
        other => panic!("expected a tar archive, got {:?}", other),
    }
}

#[test]
fn tar_xz_works_too() {
    let tar_bytes = tar_with(&[("proton/version", b"7-51")]);
    let archive = xz(&tar_bytes);
    match extract("GE-Proton.tar.xz", &archive).unwrap() {
        ExtractOutput::Archive { entries, .. } => {
            assert_eq!(entries, vec!["proton".to_string()]);
        }
        other => panic!("expected a tar archive, got {:?}", other),
    }
}

#[test]
fn single_gz_file_keeps_its_derived_name() {
    let archive = gzip(b"just text");
    match extract("dir/notes.txt.gz", &archive).unwrap() {
        ExtractOutput::Single { name, bytes } => {
            assert_eq!(name, "notes.txt");
            assert_eq!(bytes, b"just text");
        }
        other => panic!("expected a single file, got {:?}", other),
    }
}

#[test]
fn single_xz_file_round_trips() {
    let archive = xz(b"payload");
    match extract("data.xz", &archive).unwrap() {
        ExtractOutput::Single { name, bytes } => {
            assert_eq!(name, "data");
            assert_eq!(bytes, b"payload");
        }
        other => panic!("expected a single file, got {:?}", other),
    }
}

#[test]
fn corrupt_stream_is_an_io_error() {
    let garbage = vec![1u8, 2, 3, 4, 5];
    assert!(matches!(
        extract("broken.tar.gz", &garbage),
        Err(Error::IoError(_))
    ));
    assert!(matches!(
        extract("broken.xz", &garbage),
        Err(Error::IoError(_))
    ));
}
