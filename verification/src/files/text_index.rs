//! Bounded local text extraction. Never downloads attachments just to index
//! them, executes a document, or renders active HTML/SVG content.

use crate::text::{ends_with, has_char, opt, same, stands_at, starts_with};
use vstd::prelude::*;
use vstd::string::*;

verus! {

pub const MAX_TEXT_BYTES: usize = 1048576;

/// What the text of an attachment was read from.
pub struct TextSource {
    pub message: i64,
    pub mime: String,
    pub blob: Option<String>,
    pub part: Option<String>,
    pub section: Option<String>,
    pub path: Option<String>,
}

/// The model of a [`TextSource`].
pub struct Source {
    pub message: i64,
    pub mime: Seq<char>,
    pub blob: Option<Seq<char>>,
    pub part: Option<Seq<char>>,
    pub section: Option<Seq<char>>,
    pub path: Option<Seq<char>>,
}

impl View for TextSource {
    type V = Source;

    open spec fn view(&self) -> Source {
        Source {
            message: self.message,
            mime: self.mime@,
            blob: opt(self.blob),
            part: opt(self.part),
            section: opt(self.section),
            path: opt(self.path),
        }
    }
}

fn same_opt(a: &Option<String>, b: &Option<String>) -> (r: bool)
    ensures
        r == (opt(*a) == opt(*b)),
{
    match (a, b) {
        (Some(x), Some(y)) => same(x.as_str(), y.as_str()),
        (None, None) => true,
        _ => false,
    }
}

impl TextSource {
    pub fn is(&self, other: &TextSource) -> (r: bool)
        ensures
            r == (self@ == other@),
    {
        self.message == other.message && same(self.mime.as_str(), other.mime.as_str()) && same_opt(
            &self.blob,
            &other.blob,
        ) && same_opt(&self.part, &other.part) && same_opt(&self.section, &other.section)
            && same_opt(&self.path, &other.path)
    }
}

/// Whether a text that was read may still be stored. Reading the file yields to
/// synchronization/account removal: old bytes never go into the index of a replaced attachment or
/// a reused row.
pub fn may_store(current: Option<&TextSource>, expected: &TextSource) -> (r: bool)
    ensures
        r == (current is Some && current->0@ == expected@),
{
    match current {
        Some(now) => now.is(expected),
        None => false,
    }
}

/// Text that can be read without interpreting it.
pub open spec fn is_text(mime: Seq<char>) -> bool {
    stands_at(mime, "text/"@, 0) || mime == "application/json"@ || mime == "application/xml"@
        || mime == "application/javascript"@ || stands_at(
        mime,
        "+json"@,
        mime.len() - "+json"@.len(),
    ) || stands_at(mime, "+xml"@, mime.len() - "+xml"@.len())
}

pub fn supported(mime: &str) -> (r: bool)
    ensures
        r == is_text(mime@),
{
    starts_with(mime, "text/") || same(mime, "application/json") || same(mime, "application/xml")
        || same(mime, "application/javascript") || ends_with(mime, "+json") || ends_with(
        mime,
        "+xml",
    )
}

/// Whether the file at a path is what an attachment's text is read from.
pub fn may_index(source: &TextSource, path: &str) -> (r: bool)
    ensures
        r == (is_text(source@.mime) && source@.path == Some(path@)),
{
    let here = match &source.path {
        Some(p) => same(p.as_str(), path),
        None => false,
    };
    supported(source.mime.as_str()) && here
}

/// An encoding that a byte order mark tells.
#[derive(Clone, Copy, Debug, PartialEq, Eq, Structural)]
pub enum Charset {
    Utf8,
    Utf16Le,
    Utf16Be,
}

/// The encoding of bytes and the length of the byte order mark that they begin with; without a
/// mark they are UTF-8.
pub open spec fn charset_of(bytes: Seq<u8>) -> (Charset, int) {
    if seq![0xefu8, 0xbb, 0xbf].is_prefix_of(bytes) {
        (Charset::Utf8, 3)
    } else if seq![0xffu8, 0xfe].is_prefix_of(bytes) {
        (Charset::Utf16Le, 2)
    } else if seq![0xfeu8, 0xff].is_prefix_of(bytes) {
        (Charset::Utf16Be, 2)
    } else {
        (Charset::Utf8, 0)
    }
}

/// The encoding of bytes, by their byte order mark.
pub fn find_charset(bytes: &[u8]) -> (r: (Charset, usize))
    ensures
        (r.0, r.1 as int) == charset_of(bytes@),
        r.1 <= bytes@.len(),
{
    if bytes.len() >= 3 && bytes[0] == 0xef && bytes[1] == 0xbb && bytes[2] == 0xbf {
        (Charset::Utf8, 3)
    } else if bytes.len() >= 2 && bytes[0] == 0xff && bytes[1] == 0xfe {
        (Charset::Utf16Le, 2)
    } else if bytes.len() >= 2 && bytes[0] == 0xfe && bytes[1] == 0xff {
        (Charset::Utf16Be, 2)
    } else {
        (Charset::Utf8, 0)
    }
}

/// What `encoding_rs::Encoding::decode` reads from bytes in an encoding: the text, and whether
/// anything in it was malformed.
pub uninterp spec fn decoded(charset: Charset, bytes: Seq<u8>) -> (Seq<char>, bool);

/// Calls `encoding_rs::Encoding::decode`. The result depends on the encoding and the bytes alone.
#[verifier::external_body]
fn decode(charset: Charset, bytes: &[u8]) -> (r: (String, bool))
    ensures
        (r.0@, r.1) == decoded(charset, bytes@),
{
    let (text, _, errors) = match charset {
        Charset::Utf8 => encoding_rs::UTF_8.decode(bytes),
        Charset::Utf16Le => encoding_rs::UTF_16LE.decode(bytes),
        Charset::Utf16Be => encoding_rs::UTF_16BE.decode(bytes),
    };
    (text.into_owned(), errors)
}

/// What is read of a file: the text behind its byte order mark, and whether anything in it was
/// malformed.
pub open spec fn file_text(bytes: Seq<u8>) -> (Seq<char>, bool) {
    decoded(charset_of(bytes).0, bytes.skip(charset_of(bytes).1))
}

/// Whether decoded text is worth indexing: well-formed and without null characters.
pub fn indexable(text: &str, errors: bool) -> (r: bool)
    ensures
        r == (!errors && !text@.contains('\0')),
{
    !errors && !has_char(text, '\0')
}

/// The text of a file, where it is worth indexing.
pub fn index_text(bytes: &[u8]) -> (r: Option<String>)
    ensures
        opt(r) == (if !file_text(bytes@).1 && !file_text(bytes@).0.contains('\0') {
            Some(file_text(bytes@).0)
        } else {
            None
        }),
{
    let (charset, skip) = find_charset(bytes);
    let rest = vstd::slice::slice_subrange(bytes, skip, bytes.len());
    proof {
        assert(rest@ =~= bytes@.skip(skip as int));
    }
    let (text, errors) = decode(charset, rest);
    if indexable(text.as_str(), errors) {
        Some(text)
    } else {
        None
    }
}

} // verus!
