use vstd::prelude::*;

verus! {

use crate::error::Error;
use crate::text::{
    after_last,
    before_last,
    ends_with,
    ends_with_str,
    first_segment,
    last_segment,
    after_last_str,
    before_last_str,
    last_segment_str,
    find_first_char,
    str_eq,
    contains_string,
    find_first,
    lemma_find_first,
};
use vstd::string::StringExecFns;
use std::io::Read;

// The archive extractor: format dispatch by file-extension suffix, in-memory
// decompression of gzip and LZMA streams, and the computation of the
// top-level entry names an archive produces.  Decompression and tar entry
// listing call outside crates; everything decided from their results is
// specified and proved here.  Writing the unpacked entries to disk is the
// surrounding program's concern.

/// What the gzip decoder yields for a byte stream: `None` when the stream
/// is not valid gzip, otherwise the decompressed bytes.  A function of the
/// bytes alone.
pub uninterp spec fn gunzip_of(data: Seq<u8>) -> Option<Seq<u8>>;

/// What the LZMA decoder yields for a byte stream: `None` when the stream
/// is not valid, otherwise the decompressed bytes.  A function of the bytes
/// alone.
pub uninterp spec fn unxz_of(data: Seq<u8>) -> Option<Seq<u8>>;

/// The entry paths a tar archive lists, in order: `None` when the bytes do
/// not parse as tar.  A function of the bytes alone.
pub uninterp spec fn tar_paths_of(data: Seq<u8>) -> Option<Seq<Seq<char>>>;

/// Relies on flate2::read::GzDecoder: decompresses the whole gzip stream
/// into memory; the result is a function of the input bytes alone.
#[verifier::external_body]
fn gunzip(data: &Vec<u8>) -> (r: Option<Vec<u8>>)
    ensures
        r is Some <==> gunzip_of(data@) is Some,
        r is Some ==> r->0@ == gunzip_of(data@)->0,
{
    let mut decoder = flate2::read::GzDecoder::new(data.as_slice());
    let mut buffer = Vec::new();
    match decoder.read_to_end(&mut buffer) {
        Ok(_) => Some(buffer),
        Err(_) => None,
    }
}

/// Relies on xz2::read::XzDecoder: decompresses the whole LZMA stream into
/// memory; the result is a function of the input bytes alone.
#[verifier::external_body]
fn unxz(data: &Vec<u8>) -> (r: Option<Vec<u8>>)
    ensures
        r is Some <==> unxz_of(data@) is Some,
        r is Some ==> r->0@ == unxz_of(data@)->0,
{
    let mut decoder = xz2::read::XzDecoder::new(data.as_slice());
    let mut buffer = Vec::new();
    match decoder.read_to_end(&mut buffer) {
        Ok(_) => Some(buffer),
        Err(_) => None,
    }
}

/// Relies on tar::Archive::entries: lists the entry paths of an in-memory
/// tar archive, in order; the listing is a function of the bytes alone.
#[verifier::external_body]
fn tar_entry_paths(data: &Vec<u8>) -> (r: Option<Vec<String>>)
    ensures
        r is Some <==> tar_paths_of(data@) is Some,
        r is Some ==> r->0@.map_values(|p: String| p@) == tar_paths_of(data@)->0,
{
    let mut archive = tar::Archive::new(data.as_slice());
    let entries = match archive.entries() {
        Ok(e) => e,
        Err(_) => return None,
    };
    let mut out: Vec<String> = Vec::new();
    for entry in entries {
        match entry.and_then(|e| e.path().map(|p| p.to_string_lossy().into_owned())) {
            Ok(p) => out.push(p),
            Err(_) => return None,
        }
    }
    Some(out)
}

/// The archive extensions the extractor understands.
pub fn is_supported_extension(extension: &str) -> (r: bool)
    ensures
        r == (extension@ == "gz"@ || extension@ == "xz"@),
{
    str_eq(extension, "gz") || str_eq(extension, "xz")
}

/// How an archive file is to be treated, decided from its name alone.
#[derive(Debug, Clone, Copy, PartialEq, Eq)]
pub enum ArchiveKind {
    /// A gzip stream holding a tar archive (`.tar.gz`).
    TarGz,
    /// A gzip stream holding a single file (`.gz` without `.tar`).
    SingleGz,
    /// An LZMA stream holding a tar archive (`.tar.xz`).
    TarXz,
    /// An LZMA stream holding a single file (`.xz` without `.tar`).
    SingleXz,
}

/// The extension a file name carries: what follows the last `.` of its
/// final path segment, or `None` when that segment has no `.`.
pub open spec fn extension_of(name: Seq<char>) -> Option<Seq<char>> {
    after_last(last_segment(name), '.')
}

/// The classification contract: which kind a name falls under, or which
/// extension was refused.
pub open spec fn spec_classify(name: Seq<char>) -> Result<ArchiveKind, Seq<char>> {
    match extension_of(name) {
        None => Err(Seq::<char>::empty()),
        Some(ext) => if ext == "gz"@ {
            if ends_with(name, ".tar.gz"@) {
                Ok(ArchiveKind::TarGz)
            } else {
                Ok(ArchiveKind::SingleGz)
            }
        } else if ext == "xz"@ {
            if ends_with(name, ".tar.xz"@) {
                Ok(ArchiveKind::TarXz)
            } else {
                Ok(ArchiveKind::SingleXz)
            }
        } else {
            Err(ext)
        },
    }
}

/// Decide how to treat an archive from its file name: gzip and LZMA
/// streams are understood, a tar archive inside is recognized by the
/// compound suffix, and any other extension is refused, named in the
/// error.
pub fn classify(name: &str) -> (r: Result<ArchiveKind, Error>)
    ensures
        match spec_classify(name@) {
            Ok(kind) => r matches Ok(k) && k == kind,
            Err(ext) => (r matches Err(Error::FileTypeNotSupported(e)) && e@ == ext),
        },
{
    let segment = last_segment_str(name);
    let ext = match after_last_str(segment.as_str(), '.') {
        None => {
            return Err(Error::FileTypeNotSupported(String::new()));
        },
        Some(e) => e,
    };
    if str_eq(ext.as_str(), "gz") {
        if ends_with_str(name, ".tar.gz") {
            Ok(ArchiveKind::TarGz)
        } else {
            Ok(ArchiveKind::SingleGz)
        }
    } else if str_eq(ext.as_str(), "xz") {
        if ends_with_str(name, ".tar.xz") {
            Ok(ArchiveKind::TarXz)
        } else {
            Ok(ArchiveKind::SingleXz)
        }
    } else {
        Err(Error::FileTypeNotSupported(ext))
    }
}

/// The top-level names of a list of entry paths: the first path segment of
/// each, keeping only first occurrences.
pub open spec fn spec_top_level(paths: Seq<Seq<char>>) -> Seq<Seq<char>>
    decreases paths.len(),
{
    if paths.len() == 0 {
        Seq::empty()
    } else {
        let rest = spec_top_level(paths.drop_last());
        let seg = first_segment(paths.last());
        if rest.contains(seg) {
            rest
        } else {
            rest.push(seg)
        }
    }
}

/// Reduce a list of extracted entry paths to the distinct top-level names
/// they fall under, in order of first appearance.
pub fn top_level_entries(paths: &Vec<String>) -> (r: Vec<String>)
    ensures
        r@.map_values(|p: String| p@) == spec_top_level(paths@.map_values(|p: String| p@)),
{
    let ghost all = paths@.map_values(|p: String| p@);
    let mut r: Vec<String> = Vec::new();
    let mut i: usize = 0;
    while i < paths.len()
        invariant
            i <= paths@.len(),
            all == paths@.map_values(|p: String| p@),
            r@.map_values(|p: String| p@) == spec_top_level(all.take(i as int)),
        decreases paths@.len() - i,
    {
        let p = &paths[i];
        proof {
            lemma_find_first(p@, '/');
        }
        let cut = find_first_char(p.as_str(), '/');
        let seg = p.as_str().substring_char(0, cut).to_owned();
        proof {
            assert(p@.subrange(0, find_first(p@, '/')) =~= first_segment(p@));
            assert(all.take(i + 1).drop_last() =~= all.take(i as int));
            assert(all.take(i + 1).last() == all[i as int]);
            assert(all[i as int] == p@);
        }
        let present = contains_string(&r, seg.as_str());
        proof {
            let rv = r@.map_values(|q: String| q@);
            assert(present == rv.contains(seg@)) by {
                if present {
                    let k = choose|k: int| 0 <= k < r@.len() && r@[k]@ == seg@;
                    assert(rv[k] == seg@);
                } else {
                    if rv.contains(seg@) {
                        let k = choose|k: int| 0 <= k < rv.len() && rv[k] == seg@;
                        assert(r@[k]@ == seg@);
                    }
                }
            }
        }
        if !present {
            r.push(seg);
            proof {
                assert(r@.map_values(|q: String| q@) =~= spec_top_level(all.take(i + 1)));
            }
        } else {
            proof {
                assert(r@.map_values(|q: String| q@) =~= spec_top_level(all.take(i + 1)));
            }
        }
        i += 1;
    }
    proof {
        assert(all.take(all.len() as int) =~= all);
    }
    r
}

/// The name the single-file case writes under: the final path segment of
/// the archive with its extension cut off.
pub open spec fn derived_name(name: Seq<char>) -> Seq<char> {
    match before_last(last_segment(name), '.') {
        Some(t) => t,
        None => last_segment(name),
    }
}

/// What extracting an archive yields, before anything touches the disk.
#[derive(Debug)]
pub enum ExtractOutput {
    /// A tar archive: the bytes to unpack under the destination, and the
    /// distinct top-level names its entries fall under.
    Archive { tar_bytes: Vec<u8>, entries: Vec<String> },
    /// A single file: the name to write it under, and its bytes.
    Single { name: String, bytes: Vec<u8> },
}

/// Extract an archive held in memory: sniff the format from the file name,
/// decompress, and either list the tar entries or derive the single file.
/// The caller writes the result under its destination directory; the
/// returned entry names are exactly the top-level names extraction
/// produces.
pub fn extract(name: &str, data: &Vec<u8>) -> (r: Result<ExtractOutput, Error>)
    ensures
        spec_classify(name@) matches Err(ext) ==> (r matches Err(Error::FileTypeNotSupported(e))
            && e@ == ext),
        spec_classify(name@) matches Ok(kind) ==> match kind {
            ArchiveKind::TarGz => match gunzip_of(data@) {
                None => r matches Err(Error::IoError(_)),
                Some(tb) => match tar_paths_of(tb) {
                    None => r matches Err(Error::IoError(_)),
                    Some(paths) => (r matches Ok(ExtractOutput::Archive { tar_bytes, entries })
                        && tar_bytes@ == tb && entries@.map_values(|p: String| p@)
                        == spec_top_level(paths)),
                },
            },
            ArchiveKind::TarXz => match unxz_of(data@) {
                None => r matches Err(Error::IoError(_)),
                Some(tb) => match tar_paths_of(tb) {
                    None => r matches Err(Error::IoError(_)),
                    Some(paths) => (r matches Ok(ExtractOutput::Archive { tar_bytes, entries })
                        && tar_bytes@ == tb && entries@.map_values(|p: String| p@)
                        == spec_top_level(paths)),
                },
            },
            ArchiveKind::SingleGz => match gunzip_of(data@) {
                None => r matches Err(Error::IoError(_)),
                Some(bytes) => (r matches Ok(ExtractOutput::Single { name: n, bytes: b }) && n@
                    == derived_name(name@) && b@ == bytes),
            },
            ArchiveKind::SingleXz => match unxz_of(data@) {
                None => r matches Err(Error::IoError(_)),
                Some(bytes) => (r matches Ok(ExtractOutput::Single { name: n, bytes: b }) && n@
                    == derived_name(name@) && b@ == bytes),
            },
        },
{
    let kind = match classify(name) {
        Ok(k) => k,
        Err(e) => {
            return Err(e);
        },
    };
    let decompressed = match kind {
        ArchiveKind::TarGz | ArchiveKind::SingleGz => match gunzip(data) {
            Some(b) => b,
            None => {
                return Err(Error::IoError(String::from_str("could not decompress gzip stream")));
            },
        },
        ArchiveKind::TarXz | ArchiveKind::SingleXz => match unxz(data) {
            Some(b) => b,
            None => {
                return Err(Error::IoError(String::from_str("could not decompress LZMA stream")));
            },
        },
    };
    match kind {
        ArchiveKind::TarGz | ArchiveKind::TarXz => {
            let paths = match tar_entry_paths(&decompressed) {
                Some(p) => p,
                None => {
                    return Err(Error::IoError(String::from_str("could not read tar entries")));
                },
            };
            let entries = top_level_entries(&paths);
            Ok(ExtractOutput::Archive { tar_bytes: decompressed, entries })
        },
        ArchiveKind::SingleGz | ArchiveKind::SingleXz => {
            let segment = last_segment_str(name);
            let n = match before_last_str(segment.as_str(), '.') {
                Some(t) => t,
                None => segment,
            };
            Ok(ExtractOutput::Single { name: n, bytes: decompressed })
        },
    }
}

} // verus!
