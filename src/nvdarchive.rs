use std::io::Read;
use vstd::prelude::*;
use vstd::utf8::{decode_utf8, valid_utf8};

use crate::codec::chars_of;
use crate::error::CpeError;

verus! {

/// The containers a dictionary comes in.
#[derive(Debug, Clone, Copy, PartialEq, Eq, Structural)]
pub enum ArchiveFormat {
    /// `.gz`: a whole-file gzip stream.
    Gzip,
    /// `.zip`: one raw deflate stream.
    Deflate,
    /// `.xml`: the document itself.
    PlainXml,
}

/// The position of the last `c` among the first `n` characters of `s`.
pub open spec fn last_index(s: Seq<char>, c: char, n: int) -> Option<int>
    decreases n,
{
    if n <= 0 {
        None
    } else if s[n - 1] == c {
        Some(n - 1)
    } else {
        last_index(s, c, n - 1)
    }
}

/// The length of the first `n` characters of `path` without trailing slashes.
pub open spec fn trimmed_len(path: Seq<char>, n: int) -> int
    decreases n,
{
    if n > 0 && path[n - 1] == '/' {
        trimmed_len(path, n - 1)
    } else {
        n
    }
}

/// The extension of a path: what follows the last dot of its last segment, where that
/// dot is not the segment's first character. Trailing slashes are ignored.
pub open spec fn extension_of(path: Seq<char>) -> Option<Seq<char>> {
    let m = trimmed_len(path, path.len() as int);
    let start = match last_index(path, '/', m) {
        Some(i) => i + 1,
        None => 0,
    };
    match last_index(path, '.', m) {
        Some(d) => if d > start {
            Some(path.subrange(d + 1, m))
        } else {
            None
        },
        None => None,
    }
}

/// The container that a path's extension names.
pub open spec fn format_of(path: Seq<char>) -> Option<ArchiveFormat> {
    match extension_of(path) {
        Some(e) => if e == seq!['g', 'z'] {
            Some(ArchiveFormat::Gzip)
        } else if e == seq!['z', 'i', 'p'] {
            Some(ArchiveFormat::Deflate)
        } else if e == seq!['x', 'm', 'l'] {
            Some(ArchiveFormat::PlainXml)
        } else {
            None
        },
        None => None,
    }
}

/// The container of the dictionary at `path`, by its extension; any other extension,
/// or none, is `UnsupportedArchiveFormat`.
pub fn archive_format(path: &str) -> (r: Result<ArchiveFormat, CpeError>)
    ensures
        match format_of(path@) {
            Some(f) => r == Ok::<ArchiveFormat, CpeError>(f),
            None => r == Err::<ArchiveFormat, CpeError>(CpeError::UnsupportedArchiveFormat),
        },
{
    let cs = chars_of(path);
    let mut m: usize = cs.len();
    while m > 0 && cs[m - 1] == '/'
        invariant
            m <= cs@.len(),
            cs@ == path@,
            trimmed_len(cs@, cs@.len() as int) == trimmed_len(cs@, m as int),
        decreases m,
    {
        m = m - 1;
    }
    let mut slash: Option<usize> = None;
    let mut dot: Option<usize> = None;
    let mut i: usize = 0;
    while i < m
        invariant
            i <= m <= cs@.len(),
            m == trimmed_len(cs@, cs@.len() as int),
            cs@ == path@,
            match slash {
                Some(k) => last_index(cs@, '/', i as int) == Some(k as int) && k < i,
                None => last_index(cs@, '/', i as int) is None,
            },
            match dot {
                Some(k) => last_index(cs@, '.', i as int) == Some(k as int) && k < i,
                None => last_index(cs@, '.', i as int) is None,
            },
        decreases m - i,
    {
        if cs[i] == '/' {
            slash = Some(i);
        }
        if cs[i] == '.' {
            dot = Some(i);
        }
        i = i + 1;
    }
    let start: usize = match slash {
        Some(k) => k + 1,
        None => 0,
    };
    let d = match dot {
        Some(d) => d,
        None => return Err(CpeError::UnsupportedArchiveFormat),
    };
    if d <= start {
        return Err(CpeError::UnsupportedArchiveFormat);
    }
    let ghost ext = cs@.subrange(d + 1, m as int);
    let n = m - d - 1;
    if n == 2 && cs[d + 1] == 'g' && cs[d + 2] == 'z' {
        assert(ext =~= seq!['g', 'z']);
        Ok(ArchiveFormat::Gzip)
    } else if n == 3 && cs[d + 1] == 'z' && cs[d + 2] == 'i' && cs[d + 3] == 'p' {
        assert(ext =~= seq!['z', 'i', 'p']);
        Ok(ArchiveFormat::Deflate)
    } else if n == 3 && cs[d + 1] == 'x' && cs[d + 2] == 'm' && cs[d + 3] == 'l' {
        assert(ext =~= seq!['x', 'm', 'l']);
        Ok(ArchiveFormat::PlainXml)
    } else {
        proof {
            let gz = seq!['g', 'z'];
            let zip = seq!['z', 'i', 'p'];
            let xml = seq!['x', 'm', 'l'];
            if ext == gz {
                assert(gz.len() == 2 && gz[0] == 'g' && gz[1] == 'z');
                assert(ext[0] == cs@[d + 1] && ext[1] == cs@[d + 2]);
            }
            if ext == zip {
                assert(zip.len() == 3 && zip[0] == 'z' && zip[1] == 'i' && zip[2] == 'p');
                assert(ext[0] == cs@[d + 1] && ext[1] == cs@[d + 2] && ext[2] == cs@[d + 3]);
            }
            if ext == xml {
                assert(xml.len() == 3 && xml[0] == 'x' && xml[1] == 'm' && xml[2] == 'l');
                assert(ext[0] == cs@[d + 1] && ext[1] == cs@[d + 2] && ext[2] == cs@[d + 3]);
            }
        }
        Err(CpeError::UnsupportedArchiveFormat)
    }
}

/// The bytes that the first gzip member of `data` decompresses to; `None` where it
/// is not a valid gzip stream.
pub uninterp spec fn gunzip(data: Seq<u8>) -> Option<Seq<u8>>;

/// The bytes that the raw deflate stream `data` decompresses to; `None` where it is
/// not a valid deflate stream.
pub uninterp spec fn inflate(data: Seq<u8>) -> Option<Seq<u8>>;

/// Relies on flate2::read::GzDecoder, read to the end: decompresses the gzip stream
/// in `data`, or fails on a corrupt one; the result depends on the bytes alone.
#[verifier::external_body]
fn gunzip_bytes(data: &Vec<u8>) -> (r: Option<Vec<u8>>)
    ensures
        match r {
            Some(v) => gunzip(data@) == Some(v@),
            None => gunzip(data@) is None,
        },
{
    let mut out = Vec::new();
    match flate2::read::GzDecoder::new(data.as_slice()).read_to_end(&mut out) {
        Ok(_) => Some(out),
        Err(_) => None,
    }
}

/// Relies on flate2::read::DeflateDecoder, read to the end: decompresses the raw
/// deflate stream in `data`, or fails on a corrupt one; the result depends on the
/// bytes alone.
#[verifier::external_body]
fn inflate_bytes(data: &Vec<u8>) -> (r: Option<Vec<u8>>)
    ensures
        match r {
            Some(v) => inflate(data@) == Some(v@),
            None => inflate(data@) is None,
        },
{
    let mut out = Vec::new();
    match flate2::read::DeflateDecoder::new(data.as_slice()).read_to_end(&mut out) {
        Ok(_) => Some(out),
        Err(_) => None,
    }
}

/// Relies on String::from_utf8: the text that `bytes` encode, or nothing when they
/// are not valid UTF-8.
#[verifier::external_body]
fn utf8_text(bytes: Vec<u8>) -> (r: Option<String>)
    ensures
        r is Some <==> valid_utf8(bytes@),
        r matches Some(s) ==> s@ == decode_utf8(bytes@),
{
    String::from_utf8(bytes).ok()
}

/// The text that decoded bytes stand for, or `IoFailure` when they are not UTF-8.
pub open spec fn text_outcome(r: Result<String, CpeError>, bytes: Seq<u8>) -> bool {
    if valid_utf8(bytes) {
        r matches Ok(s) && s@ == decode_utf8(bytes)
    } else {
        r == Err::<String, CpeError>(CpeError::IoFailure)
    }
}

/// Decodes the bytes of the dictionary file at `path` to its text, by the container
/// that the path's extension names. An unknown extension is
/// `UnsupportedArchiveFormat` whatever the bytes; a corrupt stream or text that is
/// not UTF-8 is `IoFailure`.
pub fn decompress_or_return(path: &str, data: &Vec<u8>) -> (r: Result<String, CpeError>)
    ensures
        match format_of(path@) {
            None => r == Err::<String, CpeError>(CpeError::UnsupportedArchiveFormat),
            Some(ArchiveFormat::Gzip) => match gunzip(data@) {
                Some(b) => text_outcome(r, b),
                None => r == Err::<String, CpeError>(CpeError::IoFailure),
            },
            Some(ArchiveFormat::Deflate) => match inflate(data@) {
                Some(b) => text_outcome(r, b),
                None => r == Err::<String, CpeError>(CpeError::IoFailure),
            },
            Some(ArchiveFormat::PlainXml) => text_outcome(r, data@),
        },
{
    let format = match archive_format(path) {
        Ok(f) => f,
        Err(e) => return Err(e),
    };
    let bytes = match format {
        ArchiveFormat::Gzip => match gunzip_bytes(data) {
            Some(b) => b,
            None => return Err(CpeError::IoFailure),
        },
        ArchiveFormat::Deflate => match inflate_bytes(data) {
            Some(b) => b,
            None => return Err(CpeError::IoFailure),
        },
        ArchiveFormat::PlainXml => data.clone(),
    };
    match utf8_text(bytes) {
        Some(s) => Ok(s),
        None => Err(CpeError::IoFailure),
    }
}

} // verus!
