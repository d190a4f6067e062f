//! WebDAV (RFC 4918), ACL (RFC 3744), quota (RFC 4331), sync (RFC 6578).
//! Failed propstats never become successful metadata or permissions.

use crate::error::{fails, other, Result};
use crate::files::transport::{
    join_url, joined_url, parse_url, parsed_url, plain_methods, same_origin, shares_origin,
    url_refusal, valid_url, validated_url, Link, Request, Transport, UrlParts,
};
use crate::files::xml::{children_are_trees, first_of, prop, trees, Property, Tree};
use crate::files::{valid_name, validate_name, FileNode, Node, Rights};
use crate::text::{
    chars, is_control, lit, opt, parse_u64, parsed_u64, same, split, split_char,
    split_words, stands_at, starts_with, texts, trim, trim_end_char, trim_end_of, trimmed, words,
};
use vstd::prelude::*;
use vstd::string::*;
use vstd::utf8::{decode_utf8, encode_utf8, valid_utf8};

verus! {

/// The value of a hexadecimal digit.
pub open spec fn hex_value(b: u8) -> Option<int> {
    if 0x30 <= b <= 0x39 {
        Some(b - 0x30)
    } else if 0x41 <= b <= 0x46 {
        Some(b - 0x41 + 10)
    } else if 0x61 <= b <= 0x66 {
        Some(b - 0x61 + 10)
    } else {
        None
    }
}

/// Bytes with every percent sign that two hexadecimal digits follow read as the byte they write.
pub open spec fn percent_bytes(s: Seq<u8>) -> Seq<u8>
    decreases s.len(),
{
    if s.len() == 0 {
        Seq::empty()
    } else if s[0] == 0x25 && s.len() >= 3 && hex_value(s[1]) is Some && hex_value(s[2]) is Some {
        seq![(16 * hex_value(s[1])->0 + hex_value(s[2])->0) as u8] + percent_bytes(s.skip(3))
    } else {
        seq![s[0]] + percent_bytes(s.skip(1))
    }
}

/// A percent-encoded text, decoded; `None` where the bytes are not UTF-8.
pub open spec fn percent_decoded(s: Seq<char>) -> Option<Seq<char>> {
    let bytes = percent_bytes(encode_utf8(s));
    if valid_utf8(bytes) {
        Some(decode_utf8(bytes))
    } else {
        None
    }
}

/// Calls `percent_encoding::percent_decode_str` and `PercentDecode::decode_utf8`: the decoded
/// bytes as a text, where they are UTF-8.
#[verifier::external_body]
fn percent_decode(s: &str) -> (r: Option<String>)
    ensures
        opt(r) == percent_decoded(s@),
{
    percent_encoding::percent_decode_str(s).decode_utf8().ok().map(|v| v.into_owned())
}

/// What `percent_encoding::percent_decode_str` and `decode_utf8_lossy` make of a text.
pub uninterp spec fn percent_decoded_lossy(s: Seq<char>) -> Seq<char>;

/// Calls `percent_encoding::percent_decode_str` and `PercentDecode::decode_utf8_lossy`. The result
/// depends on the text alone; where the decoded bytes are UTF-8, it is the text that they write.
#[verifier::external_body]
fn percent_decode_lossy(s: &str) -> (r: String)
    ensures
        r@ == percent_decoded_lossy(s@),
        percent_decoded(s@) is Some ==> r@ == percent_decoded(s@)->0,
{
    percent_encoding::percent_decode_str(s).decode_utf8_lossy().into_owned()
}

/// A byte that the parser writes as three where it stands in a path, or in one segment of it.
pub open spec fn encoded_byte(b: u8, in_segment: bool) -> bool {
    b <= 0x08 || b == 0x0b || b == 0x0c || 0x0e <= b <= 0x20 || b >= 0x7f || b == 0x22 || b == 0x23
        || b == 0x3c || b == 0x3e || b == 0x3f || b == 0x60 || b == 0x7b || b == 0x7d || (in_segment
        && (b == 0x25 || b == 0x2f || b == 0x5c))
}

/// The most bytes that the parser takes to write a path, or one segment of it.
pub open spec fn written_length(bytes: Seq<u8>, in_segment: bool) -> nat
    decreases bytes.len(),
{
    if bytes.len() == 0 {
        0
    } else {
        written_length(bytes.drop_last(), in_segment) + if encoded_byte(bytes.last(), in_segment) {
            3nat
        } else {
            1nat
        }
    }
}

/// The most bytes that the parser takes to write segments, each behind a separator.
pub open spec fn segments_length(segments: Seq<Seq<char>>) -> nat
    decreases segments.len(),
{
    if segments.len() == 0 {
        0
    } else {
        segments_length(segments.drop_last()) + 1 + written_length(
            encode_utf8(segments.last()),
            true,
        )
    }
}

fn measure(text: &str, in_segment: bool) -> (r: u128)
    ensures
        r == written_length(encode_utf8(text@), in_segment),
        r <= 3 * usize::MAX,
{
    let bytes = text.as_bytes();
    let mut total: u128 = 0;
    let mut i: usize = 0;
    proof {
        assert(bytes@.take(0) =~= Seq::<u8>::empty());
    }
    while i < bytes.len()
        invariant
            i <= bytes.len(),
            total == written_length(bytes@.take(i as int), in_segment),
            total <= 3 * i,
        decreases bytes.len() - i,
    {
        let b: u8 = bytes[i];
        proof {
            assert(bytes@.take(i + 1).drop_last() =~= bytes@.take(i as int));
            assert(bytes@.take(i + 1).last() == b);
        }
        let encoded = b <= 0x08 || b == 0x0b || b == 0x0c || (0x0e <= b && b <= 0x20) || b >= 0x7f
            || b == 0x22 || b == 0x23 || b == 0x3c || b == 0x3e || b == 0x3f || b == 0x60 || b
            == 0x7b || b == 0x7d || (in_segment && (b == 0x25 || b == 0x2f || b == 0x5c));
        let taken: u128 = if encoded {
            3
        } else {
            1
        };
        total = total + taken;
        i = i + 1;
    }
    proof {
        assert(bytes@.take(bytes@.len() as int) =~= bytes@);
    }
    total
}

/// The bytes of a URL that the parser counts: up to its fragment, else up to its query, else all.
pub open spec fn counted_length(u: UrlParts) -> int {
    encode_utf8(u.text).len() - match (u.fragment, u.query) {
        (Some(f), _) => encode_utf8(f).len() + 1,
        (None, Some(q)) => encode_utf8(q).len() + 1,
        (None, None) => 0,
    }
}

/// Whether a URL has room for a path of that many bytes, behind its own or in place of it: the
/// parser counts in 32 bits, before the path is changed and after. A text that is no URL takes no
/// path at all.
pub open spec fn has_room(url: Seq<char>, length: nat, replaces: bool) -> bool {
    match parsed_url(url) {
        Some(u) => {
            let freed = if replaces {
                encode_utf8(u.path).len()
            } else {
                0
            };
            counted_length(u) <= u32::MAX && counted_length(u) - freed + length <= u32::MAX
        },
        None => true,
    }
}

fn check_room(url: &str, length: u128, replaces: bool) -> (r: bool)
    requires
        length <= u128::MAX / 2,
    ensures
        r == has_room(url@, length as nat, replaces),
        r && parsed_url(url@) is Some ==> length <= 4 * usize::MAX,
{
    match parse_url(url) {
        Some(link) => {
            let taken: usize = link.text.as_str().as_bytes().len();
            let tail: u128 = match &link.fragment {
                Some(f) => f.as_str().as_bytes().len() as u128 + 1,
                None => match &link.query {
                    Some(q) => q.as_str().as_bytes().len() as u128 + 1,
                    None => 0,
                },
            };
            let freed: usize = if replaces {
                link.path.as_str().as_bytes().len()
            } else {
                0
            };
            taken as u128 <= 0xffff_ffff + tail && taken as u128 + length <= 0xffff_ffff + tail
                + freed as u128
        },
        None => true,
    }
}

/// Whether a URL has room for segments, behind its path or in place of it.
pub(crate) fn room_for_segments(url: &str, segments: &Vec<String>, replaces: bool) -> (r: bool)
    ensures
        r == has_room(url@, segments_length(texts(segments@)), replaces),
{
    let ghost all = texts(segments@);
    let mut total: u128 = 0;
    let mut i: usize = 0;
    proof {
        assert(all.take(0) =~= Seq::<Seq<char>>::empty());
        assert(all.take(all.len() as int) =~= all);
    }
    while i < segments.len()
        invariant
            i <= segments.len(),
            all == texts(segments@),
            total == segments_length(all.take(i as int)),
            total <= 4 * usize::MAX,
            all.take(all.len() as int) == all,
        decreases segments.len() - i,
    {
        proof {
            assert(all.take(i + 1).drop_last() =~= all.take(i as int));
            assert(all.take(i + 1).last() == segments@[i as int]@);
        }
        total = total + 1 + measure(segments[i].as_str(), true);
        i = i + 1;
        if total > 4 * (usize::MAX as u128) {
            proof {
                segments_length_grows(all, i as int, all.len() as int);
            }
            return check_room(url, total, replaces);
        }
    }
    check_room(url, total, replaces)
}

proof fn segments_length_grows(segments: Seq<Seq<char>>, i: int, j: int)
    requires
        0 <= i <= j <= segments.len(),
    ensures
        segments_length(segments.take(i)) <= segments_length(segments.take(j)),
    decreases j - i,
{
    if i < j {
        assert(segments.take(j).drop_last() =~= segments.take(j - 1));
        segments_length_grows(segments, i, j - 1);
    }
}

/// A URL with other segments for its path; `None` where the text is no URL or has no path to
/// change.
pub uninterp spec fn with_segments(url: Seq<char>, segments: Seq<Seq<char>>) -> Option<Seq<char>>;

/// Calls `url::Url::path_segments_mut`, then `clear` and `extend` on the segments. The result
/// depends on the texts alone.
#[verifier::external_body]
fn set_segments(url: &str, segments: &Vec<String>) -> (r: Option<String>)
    requires
        has_room(url@, segments_length(texts(segments@)), true),
    ensures
        opt(r) == with_segments(url@, texts(segments@)),
{
    let mut url = url::Url::parse(url).ok()?;
    url.path_segments_mut().ok()?.clear().extend(segments);
    Some(url.into())
}

/// A URL with more segments behind its path; an empty last segment gives way to them. `None` where
/// the text is no URL or has no path to change.
pub uninterp spec fn with_more_segments(url: Seq<char>, segments: Seq<Seq<char>>) -> Option<
    Seq<char>,
>;

/// Calls `url::Url::path_segments_mut`, then `pop_if_empty` and `extend` on the segments. The
/// result depends on the texts alone.
#[verifier::external_body]
fn add_segments(url: &str, segments: &Vec<String>) -> (r: Option<String>)
    requires
        has_room(url@, segments_length(texts(segments@)), false),
    ensures
        opt(r) == with_more_segments(url@, texts(segments@)),
{
    let mut url = url::Url::parse(url).ok()?;
    url.path_segments_mut().ok()?.pop_if_empty().extend(segments);
    Some(url.into())
}

/// The most bytes that the parser takes to write a whole path.
pub open spec fn path_length(path: Seq<char>) -> nat {
    written_length(encode_utf8(path), false) + 2
}

/// A URL with another path; `None` where the text is no URL.
pub uninterp spec fn with_path(url: Seq<char>, path: Seq<char>) -> Option<Seq<char>>;

/// Calls `url::Url::set_path`. The result depends on the two texts alone.
#[verifier::external_body]
fn set_path(url: &str, path: &str) -> (r: Option<String>)
    requires
        has_room(url@, path_length(path@), true),
    ensures
        opt(r) == with_path(url@, path@),
{
    let mut url = url::Url::parse(url).ok()?;
    url.set_path(path);
    Some(url.into())
}

/// Whether a decoded segment is a name and no path of its own.
pub open spec fn plain_segment(s: Seq<char>) -> bool {
    forall|i: int|
        0 <= i < s.len() ==> s[i] != '/' && s[i] != '\\' && !crate::text::control(#[trigger] s[i])
}

fn is_plain_segment(s: &str) -> (r: bool)
    ensures
        r == plain_segment(s@),
{
    let v = chars(s);
    let mut i: usize = 0;
    while i < v.len()
        invariant
            v@ == s@,
            i <= v.len(),
            forall|j: int|
                0 <= j < i ==> s@[j] != '/' && s@[j] != '\\' && !crate::text::control(
                    #[trigger] s@[j],
                ),
        decreases v.len() - i,
    {
        if v[i] == '/' || v[i] == '\\' || is_control(v[i]) {
            proof {
                assert(s@[i as int] == v@[i as int]);
                assert(crate::text::control(s@[i as int]) || s@[i as int] == '/' || s@[i as int]
                    == '\\');
            }
            return false;
        }
        i = i + 1;
    }
    true
}

/// The segments of a path, decoded: all of them, or why one of them is refused.
pub open spec fn decoded_segments(parts: Seq<Seq<char>>) -> std::result::Result<
    Seq<Seq<char>>,
    Seq<char>,
>
    decreases parts.len(),
{
    if parts.len() == 0 {
        Ok(Seq::empty())
    } else {
        match decoded_segments(parts.drop_last()) {
            Err(m) => Err(m),
            Ok(before) => match percent_decoded(parts.last()) {
                None => Err("Invalid UTF-8 WebDAV path."@),
                Some(s) => if plain_segment(s) {
                    Ok(before.push(s))
                } else {
                    Err("Invalid encoded WebDAV path segment."@)
                },
            },
        }
    }
}

/// A URL in the form in which paths are compared: every segment decoded and encoded again. Servers
/// may encode the account's '@' even when the configured URL does not. Encoded separators are
/// rejected instead of being reinterpreted as a different hierarchy.
pub open spec fn canonical(url: UrlParts) -> std::result::Result<UrlParts, Seq<char>> {
    match decoded_segments(split(url.path, |c: char| c == '/').skip(1)) {
        Err(m) => Err(m),
        Ok(segments) => if !has_room(url.text, segments_length(segments), true) || with_segments(
            url.text,
            segments,
        ) is None || parsed_url(with_segments(url.text, segments)->0) is None {
            Err("Invalid WebDAV path."@)
        } else {
            Ok(parsed_url(with_segments(url.text, segments)->0)->0)
        },
    }
}

/// Bring a URL into the form in which paths are compared.
pub fn canonical_url(url: &Link) -> (r: Result<Link>)
    ensures
        match canonical(url@) {
            Ok(u) => r is Ok && r->Ok_0@ == u,
            Err(m) => fails(r, m),
        },
{
    let parts = split_char(url.path.as_str(), '/');
    let ghost all = texts(parts@).skip(1);
    let mut segments: Vec<String> = Vec::new();
    let mut i: usize = 1;
    proof {
        assert(all.take(0) == Seq::<Seq<char>>::empty());
        assert(texts(segments@) =~= Seq::<Seq<char>>::empty());
        assert(texts(parts@).len() == parts@.len());
    }
    while i < parts.len()
        invariant
            1 <= i <= parts.len(),
            all == texts(parts@).skip(1),
            all == split(url@.path, |c: char| c == '/').skip(1),
            decoded_segments(all.take(i - 1)) is Ok,
            decoded_segments(all.take(i - 1))->Ok_0 == texts(segments@),
        decreases parts.len() - i,
    {
        proof {
            assert(all.take(i as int).drop_last() == all.take(i - 1));
            assert(all.take(i as int).last() == parts@[i as int]@);
        }
        let decoded = match percent_decode(parts[i].as_str()) {
            Some(s) => s,
            None => {
                proof {
                    decoded_segments_stop(all, i as int);
                }
                return Err(other("Invalid UTF-8 WebDAV path."));
            },
        };
        if !is_plain_segment(decoded.as_str()) {
            proof {
                decoded_segments_stop(all, i as int);
            }
            return Err(other("Invalid encoded WebDAV path segment."));
        }
        let ghost before = texts(segments@);
        segments.push(decoded);
        proof {
            assert(texts(segments@) =~= before.push(decoded@));
        }
        i = i + 1;
    }
    proof {
        assert(all.take(all.len() as int) == all);
    }
    if !room_for_segments(url.text.as_str(), &segments, true) {
        return Err(other("Invalid WebDAV path."));
    }
    match set_segments(url.text.as_str(), &segments) {
        Some(text) => match parse_url(text.as_str()) {
            Some(link) => Ok(link),
            None => Err(other("Invalid WebDAV path.")),
        },
        None => Err(other("Invalid WebDAV path.")),
    }
}

proof fn decoded_segments_stop(parts: Seq<Seq<char>>, k: int)
    requires
        0 <= k <= parts.len(),
        decoded_segments(parts.take(k)) is Err,
    ensures
        decoded_segments(parts) == decoded_segments(parts.take(k)),
    decreases parts.len() - k,
{
    if k == parts.len() {
        assert(parts.take(k) == parts);
    } else {
        assert(parts.take(k + 1).drop_last() == parts.take(k));
        decoded_segments_stop(parts, k + 1);
    }
}

/// A WebDAV storage.
pub struct DavClient {
    pub transport: Transport,
    pub root: String,
    pub supports_locks: bool,
    pub supports_acl: bool,
    /// The locks that this session holds: the resource and the token, each resource once.
    pub locks: Vec<(String, String)>,
}

/// The root that an endpoint configures, or why it configures none: a canonical URL without a
/// query, ending in a separator.
pub open spec fn root_result(endpoint: Seq<char>) -> std::result::Result<Seq<char>, Seq<char>> {
    if !valid_url(endpoint) {
        Err(url_refusal(endpoint))
    } else {
        match canonical(parsed_url(endpoint)->0) {
            Err(m) => Err(m),
            Ok(u) => if u.query is Some {
                Err("WebDAV storage URLs cannot contain a query."@)
            } else if u.path.len() > 0 && u.path.last() == '/' {
                Ok(u.text)
            } else if !has_room(u.text, path_length(u.path + "/"@), true) || with_path(
                u.text,
                u.path + "/"@,
            ) is None {
                Err("Invalid WebDAV path."@)
            } else {
                Ok(with_path(u.text, u.path + "/"@)->0)
            },
        }
    }
}

/// Whether a compliance header names a class.
pub open spec fn complies(header: Seq<char>, class: Seq<char>) -> bool {
    let parts = split(header, |c: char| c == ',');
    exists|i: int| 0 <= i < parts.len() && trimmed(#[trigger] parts[i]) == class
}

fn has_class(header: &str, class: &str) -> (r: bool)
    ensures
        r == complies(header@, class@),
{
    let parts = split_char(header, ',');
    let ghost all = split(header@, |c: char| c == ',');
    let mut i: usize = 0;
    while i < parts.len()
        invariant
            i <= parts.len(),
            texts(parts@) == all,
            all == split(header@, |c: char| c == ','),
            forall|j: int| 0 <= j < i ==> trimmed(#[trigger] all[j]) != class@,
        decreases parts.len() - i,
    {
        proof {
            assert(all[i as int] == parts@[i as int]@);
        }
        if same(trim(parts[i].as_str()).as_str(), class) {
            return true;
        }
        i = i + 1;
    }
    false
}

/// The root that an endpoint configures.
pub fn root_url(endpoint: &str) -> (r: Result<String>)
    ensures
        match root_result(endpoint@) {
            Ok(u) => r is Ok && r->Ok_0@ == u,
            Err(m) => fails(r, m),
        },
{
    let link = match validated_url(endpoint) {
        Ok(l) => l,
        Err(e) => {
            return Err(e);
        },
    };
    let url = match canonical_url(&link) {
        Ok(u) => u,
        Err(e) => {
            return Err(e);
        },
    };
    if url.query.is_some() {
        return Err(other("WebDAV storage URLs cannot contain a query."));
    }
    let n: usize = url.path.as_str().unicode_len();
    if n > 0 && url.path.as_str().get_char(n - 1) == '/' {
        return Ok(url.text);
    }
    let path = url.path.clone().concat("/");
    if !check_room(url.text.as_str(), measure(path.as_str(), false) + 2, true) {
        return Err(other("Invalid WebDAV path."));
    }
    match set_path(url.text.as_str(), path.as_str()) {
        Some(text) => Ok(text),
        None => Err(other("Invalid WebDAV path.")),
    }
}

impl DavClient {
    /// Connect to an endpoint: the client, and the request that asks what the server supports.
    pub fn connect(endpoint: &str, user: &str, secret: &str) -> (r: Result<(DavClient, Request)>)
        ensures
            match root_result(endpoint@) {
                Err(m) => fails(r, m),
                Ok(root) => if !valid_url(root) {
                    fails(r, url_refusal(root))
                } else {
                    let c = r->Ok_0.0;
                    let q = r->Ok_0.1;
                    &&& r is Ok
                    &&& c.root@ == root
                    &&& Some(c.transport.origin@) == parsed_url(root)
                    &&& c.transport.user@ == user@
                    &&& c.transport.secret@ == secret@
                    &&& !c.supports_locks
                    &&& !c.supports_acl
                    &&& c.locks@.len() == 0
                    &&& q.method@ == "OPTIONS"@
                    &&& q.url@ == parsed_url(root)->0.text
                    &&& q.user@ == user@
                    &&& q.secret@ == secret@
                },
            },
    {
        let root = match root_url(endpoint) {
            Ok(u) => u,
            Err(e) => {
                return Err(e);
            },
        };
        let transport = match Transport::new(root.as_str(), user, secret) {
            Ok(t) => t,
            Err(e) => {
                return Err(e);
            },
        };
        proof {
            plain_methods();
        }
        let request = match transport.request("OPTIONS", root.as_str()) {
            Ok(q) => q,
            Err(e) => {
                return Err(e);
            },
        };
        let client = DavClient {
            transport,
            root,
            supports_locks: false,
            supports_acl: false,
            locks: Vec::new(),
        };
        Ok((client, request))
    }

    /// Take the compliance header of the answer.
    pub fn connected(&mut self, header: &str)
        ensures
            final(self).supports_locks == complies(header@, "2"@),
            final(self).supports_acl == complies(header@, "access-control"@),
            *final(self) == (DavClient {
                supports_locks: final(self).supports_locks,
                supports_acl: final(self).supports_acl,
                ..*old(self)
            }),
    {
        self.supports_locks = has_class(header, "2");
        self.supports_acl = has_class(header, "access-control");
    }
}

/// Why a reference is no resource of the storage, if it is none.
pub open spec fn href_result(root: Seq<char>, base: Seq<char>, value: Seq<char>) -> std::result::Result<
    Seq<char>,
    Seq<char>,
> {
    if !valid_url(base) {
        Err(url_refusal(base))
    } else if !valid_url(root) {
        Err(url_refusal(root))
    } else {
        let joined = joined_url(parsed_url(base)->0.text, value);
        if joined is None || parsed_url(joined->0) is None {
            Err("Invalid WebDAV href."@)
        } else {
            match canonical(parsed_url(joined->0)->0) {
                Err(m) => Err(m),
                Ok(u) => if within_root(parsed_url(root)->0, u) {
                    Ok(u.text)
                } else {
                    Err("WebDAV returned a resource outside the configured storage root."@)
                },
            }
        }
    }
}

/// Whether a URL lies within the storage: the same origin, no query or fragment, and a path that
/// is the root's or goes on from it.
pub open spec fn within_root(root: UrlParts, u: UrlParts) -> bool {
    &&& same_origin(u, root)
    &&& u.query is None
    &&& u.fragment is None
    &&& stands_at(u.path, root.path, 0) || u.path == trim_end_of(root.path, '/')
}

/// Whether a parsed URL lies within the storage.
pub fn is_within_root(root: &Link, url: &Link) -> (r: bool)
    ensures
        r == within_root(root@, url@),
{
    shares_origin(url, root) && url.query.is_none() && url.fragment.is_none() && (starts_with(
        url.path.as_str(),
        root.path.as_str(),
    ) || same(url.path.as_str(), trim_end_char(root.path.as_str(), '/').as_str()))
}

impl DavClient {
    /// The resource that a reference names, which must lie within the storage.
    pub fn href(&self, base: &str, value: &str) -> (r: Result<String>)
        ensures
            match href_result(self.root@, base@, value@) {
                Ok(u) => r is Ok && r->Ok_0@ == u,
                Err(m) => fails(r, m),
            },
    {
        let base = match validated_url(base) {
            Ok(l) => l,
            Err(e) => {
                return Err(e);
            },
        };
        let root = match validated_url(self.root.as_str()) {
            Ok(l) => l,
            Err(e) => {
                return Err(e);
            },
        };
        let joined = match join_url(base.text.as_str(), value) {
            Some(t) => t,
            None => {
                return Err(other("Invalid WebDAV href."));
            },
        };
        let link = match parse_url(joined.as_str()) {
            Some(l) => l,
            None => {
                return Err(other("Invalid WebDAV href."));
            },
        };
        let url = match canonical_url(&link) {
            Ok(u) => u,
            Err(e) => {
                return Err(e);
            },
        };
        if !is_within_root(&root, &url) {
            return Err(other("WebDAV returned a resource outside the configured storage root."));
        }
        Ok(url.text)
    }

    /// The URL of a child of a folder.
    pub fn child_url(&self, parent: &str, name: &str, directory: bool) -> (r: Result<String>)
        ensures
            match child_result(self.root@, parent@, name@, directory) {
                Ok(u) => r is Ok && r->Ok_0@ == u,
                Err(m) => fails(r, m),
            },
    {
        match validate_name(name) {
            Ok(_) => {},
            Err(e) => {
                return Err(e);
            },
        }
        let folder = match self.href(self.root.as_str(), parent) {
            Ok(u) => u,
            Err(e) => {
                return Err(e);
            },
        };
        let mut segments = vec![lit(name)];
        if directory {
            segments.push(String::new());
        }
        proof {
            assert(texts(segments@) =~= child_segments(name@, directory));
        }
        if !room_for_segments(folder.as_str(), &segments, false) {
            return Err(other("Invalid folder path."));
        }
        match add_segments(folder.as_str(), &segments) {
            Some(url) => self.href(self.root.as_str(), url.as_str()),
            None => Err(other("Invalid folder path.")),
        }
    }
}

/// The segments that lead from a folder to a child: its name, and an empty one behind that of a
/// folder.
pub open spec fn child_segments(name: Seq<char>, directory: bool) -> Seq<Seq<char>> {
    if directory {
        seq![name, Seq::empty()]
    } else {
        seq![name]
    }
}

/// The URL of a child of a folder, or why there is none.
pub open spec fn child_result(
    root: Seq<char>,
    parent: Seq<char>,
    name: Seq<char>,
    directory: bool,
) -> std::result::Result<Seq<char>, Seq<char>> {
    let segments = child_segments(name, directory);
    if !valid_name(name) {
        Err(crate::files::invalid_name_message())
    } else {
        match href_result(root, root, parent) {
            Err(m) => Err(m),
            Ok(folder) => if !has_room(folder, segments_length(segments), false)
                || with_more_segments(folder, segments) is None {
                Err("Invalid folder path."@)
            } else {
                href_result(root, root, with_more_segments(folder, segments)->0)
            },
        }
    }
}

/// Whatever a server names, what is worked on lies within the configured storage root: it shares
/// the root's origin and its path goes on from the root's, with neither query nor fragment.
pub proof fn resources_stay_within_the_root(root: Seq<char>, base: Seq<char>, value: Seq<char>)
    requires
        href_result(root, base, value) is Ok,
    ensures
        valid_url(root),
        exists|u: UrlParts| #[trigger]
            within_root(parsed_url(root)->0, u) && u.text == href_result(root, base, value)->Ok_0,
{
    let u = canonical(parsed_url(joined_url(parsed_url(base)->0.text, value)->0)->0)->Ok_0;
    assert(within_root(parsed_url(root)->0, u));
}

/// The code of a status line: its second word, where that is a number.
pub open spec fn status_code(line: Seq<char>) -> u16 {
    let w = words(line);
    if w.len() > 1 && parsed_u64(w[1]) is Some && parsed_u64(w[1])->0 <= u16::MAX {
        parsed_u64(w[1])->0 as u16
    } else {
        0
    }
}

pub fn status(value: &str) -> (r: u16)
    ensures
        r == status_code(value@),
{
    let w = split_words(value);
    proof {
        assert(texts(w@).len() == w@.len());
    }
    if w.len() < 2 {
        return 0;
    }
    proof {
        assert(texts(w@)[1] == w@[1]@);
    }
    match parse_u64(w[1].as_str()) {
        Some(n) => if n <= 0xffff {
            n as u16
        } else {
            0
        },
        None => 0,
    }
}

/// Whether an element has a status, and it is a success.
pub open spec fn succeeded(t: Tree) -> bool {
    t.worth("status"@) is Some && 200 <= status_code(t.worth("status"@)->0) < 300
}

/// Whether an element has a status, and it is no success.
pub open spec fn failed(t: Tree) -> bool {
    t.worth("status"@) is Some && !(200 <= status_code(t.worth("status"@)->0) < 300)
}

/// 1 where the element has a status of success, 2 where it has another, 0 where it has none.
fn outcome(p: &Property) -> (r: u8)
    ensures
        r == 1 <==> succeeded(p@),
        r == 2 <==> failed(p@),
{
    match p.value("status") {
        Some(s) => {
            let code: u16 = status(s.as_str());
            if 200 <= code && code < 300 {
                1
            } else {
                2
            }
        },
        None => 0,
    }
}

/// The properties of the propstats that succeeded, in order.
pub open spec fn granted_properties(list: Seq<Tree>) -> Seq<Tree>
    decreases list.len(),
{
    if list.len() == 0 {
        Seq::empty()
    } else {
        let before = granted_properties(list.drop_last());
        let stat = list.last();
        if stat.is("propstat"@) && succeeded(stat) && stat.kid("prop"@) is Some {
            before + stat.kid("prop"@)->0.children
        } else {
            before
        }
    }
}

/// Whether any propstat succeeded.
pub open spec fn any_granted(list: Seq<Tree>) -> bool {
    exists|i: int|
        0 <= i < list.len() && (#[trigger] list[i]).is("propstat"@) && succeeded(list[i])
}

/// The properties of a response that were readable. Those of a failed propstat are not among them.
pub fn successful_properties(response: &Property) -> (r: Result<Vec<Property>>)
    ensures
        if failed(response@) {
            fails(r, "A WebDAV resource could not be loaded."@)
        } else if !any_granted(response@.children) {
            fails(r, "No readable properties were returned for this resource."@)
        } else {
            r is Ok && trees(r->Ok_0@) == granted_properties(response@.children)
        },
{
    if outcome(response) == 2 {
        return Err(other("A WebDAV resource could not be loaded."));
    }
    let ghost all = response@.children;
    proof {
        children_are_trees(*response);
        assert(all.take(0) == Seq::<Tree>::empty());
    }
    let mut props: Vec<Property> = Vec::new();
    let mut success = false;
    let mut i: usize = 0;
    proof {
        assert(trees(props@) =~= Seq::<Tree>::empty());
    }
    while i < response.children.len()
        invariant
            i <= response.children.len(),
            all == response@.children,
            all == trees(response.children@),
            !failed(response@),
            trees(props@) == granted_properties(all.take(i as int)),
            success == any_granted(all.take(i as int)),
        decreases response.children.len() - i,
    {
        let stat = &response.children[i];
        proof {
            assert(all.take(i + 1).drop_last() == all.take(i as int));
            assert(all.take(i + 1).last() == stat@);
            assert(any_granted(all.take(i + 1)) == (any_granted(all.take(i as int)) || (stat@.is(
                "propstat"@,
            ) && succeeded(stat@)))) by {
                let now = all.take(i + 1);
                let was = all.take(i as int);
                if any_granted(was) {
                    let k = choose|k: int|
                        0 <= k < was.len() && (#[trigger] was[k]).is("propstat"@) && succeeded(
                            was[k],
                        );
                    assert(now[k] == was[k]);
                }
                if stat@.is("propstat"@) && succeeded(stat@) {
                    assert(now[i as int] == stat@);
                }
                if any_granted(now) {
                    let k = choose|k: int|
                        0 <= k < now.len() && (#[trigger] now[k]).is("propstat"@) && succeeded(
                            now[k],
                        );
                    if k < i {
                        assert(was[k] == now[k]);
                    }
                }
            }
        }
        if stat.is("propstat") && outcome(stat) == 1 {
            success = true;
            match stat.child("prop") {
                Some(p) => {
                    proof {
                        children_are_trees(*p);
                    }
                    let ghost held = trees(props@);
                    let mut k: usize = 0;
                    proof {
                        assert(held + p@.children.take(0) =~= held);
                    }
                    while k < p.children.len()
                        invariant
                            k <= p.children.len(),
                            p@.children == trees(p.children@),
                            trees(props@) == held + p@.children.take(k as int),
                        decreases p.children.len() - k,
                    {
                        let ghost now = trees(props@);
                        props.push(p.children[k].copy());
                        proof {
                            assert(trees(props@) =~= now.push(p@.children[k as int]));
                            assert(trees(props@) =~= held + p@.children.take(k + 1));
                        }
                        k = k + 1;
                    }
                    proof {
                        assert(p@.children.take(p@.children.len() as int) == p@.children);
                    }
                },
                None => {},
            }
        }
        i = i + 1;
    }
    proof {
        assert(all.take(all.len() as int) == all);
    }
    if !success {
        return Err(other("No readable properties were returned for this resource."));
    }
    Ok(props)
}

/// Failed propstats never become metadata or permissions: every property that is read stands in
/// the `prop` of a propstat of the response that succeeded.
pub proof fn failed_propstats_grant_nothing(list: Seq<Tree>, k: int)
    requires
        0 <= k < granted_properties(list).len(),
    ensures
        exists|i: int|
            0 <= i < list.len() && (#[trigger] list[i]).is("propstat"@) && succeeded(list[i])
                && list[i].kid("prop"@) is Some && list[i].kid("prop"@)->0.children.contains(
                granted_properties(list)[k],
            ),
    decreases list.len(),
{
    let before = granted_properties(list.drop_last());
    if k < before.len() {
        failed_propstats_grant_nothing(list.drop_last(), k);
        let i = choose|i: int|
            0 <= i < list.drop_last().len() && (#[trigger] list.drop_last()[i]).is("propstat"@)
                && succeeded(list.drop_last()[i]) && list.drop_last()[i].kid("prop"@) is Some
                && list.drop_last()[i].kid("prop"@)->0.children.contains(before[k]);
        assert(list[i] == list.drop_last()[i]);
        assert(granted_properties(list)[k] == before[k]);
    } else {
        let stat = list[list.len() - 1];
        let kids = stat.kid("prop"@)->0.children;
        assert(granted_properties(list)[k] == kids[k - before.len()]);
        assert(kids.contains(granted_properties(list)[k]));
    }
}

/// Why one response of a multistatus is no success, if it is none.
pub open spec fn response_problem(t: Tree) -> Option<Seq<char>> {
    if failed(t) {
        Some("Some WebDAV operations failed. Refresh before retrying."@)
    } else if exists|i: int|
        0 <= i < t.children.len() && (#[trigger] t.children[i]).is("propstat"@) && !succeeded(
            t.children[i],
        ) {
        Some("The server rejected a property change."@)
    } else {
        None
    }
}

/// Why the responses from position `i` on are no success, if they are none.
pub open spec fn multistatus_problem(list: Seq<Tree>, i: int) -> Option<Seq<char>>
    decreases list.len() - i,
{
    if i < 0 || i >= list.len() {
        None
    } else if list[i].is("response"@) && response_problem(list[i]) is Some {
        response_problem(list[i])
    } else {
        multistatus_problem(list, i + 1)
    }
}

fn check_response(response: &Property) -> (r: Result<()>)
    ensures
        match response_problem(response@) {
            Some(m) => fails(r, m),
            None => r is Ok,
        },
{
    if outcome(response) == 2 {
        return Err(other("Some WebDAV operations failed. Refresh before retrying."));
    }
    proof {
        children_are_trees(*response);
    }
    let mut i: usize = 0;
    while i < response.children.len()
        invariant
            i <= response.children.len(),
            !failed(response@),
            response@.children == trees(response.children@),
            forall|j: int|
                0 <= j < i ==> !((#[trigger] response@.children[j]).is("propstat"@) && !succeeded(
                    response@.children[j],
                )),
        decreases response.children.len() - i,
    {
        let stat = &response.children[i];
        proof {
            assert(response@.children[i as int] == stat@);
        }
        if stat.is("propstat") && outcome(stat) != 1 {
            return Err(other("The server rejected a property change."));
        }
        i = i + 1;
    }
    Ok(())
}

/// Whether every part of a multistatus succeeded.
pub fn check_multistatus(tree: &Property) -> (r: Result<()>)
    ensures
        if !tree@.is("multistatus"@) {
            fails(r, "Invalid WebDAV operation response."@)
        } else {
            match multistatus_problem(tree@.children, 0) {
                Some(m) => fails(r, m),
                None => r is Ok,
            }
        },
{
    if !tree.is("multistatus") {
        return Err(other("Invalid WebDAV operation response."));
    }
    proof {
        children_are_trees(*tree);
    }
    let mut i: usize = 0;
    while i < tree.children.len()
        invariant
            i <= tree.children.len(),
            tree@.is("multistatus"@),
            tree@.children == trees(tree.children@),
            multistatus_problem(tree@.children, 0) == multistatus_problem(
                tree@.children,
                i as int,
            ),
        decreases tree.children.len() - i,
    {
        let response = &tree.children[i];
        proof {
            assert(tree@.children[i as int] == response@);
        }
        if response.is("response") {
            match check_response(response) {
                Ok(_) => {},
                Err(e) => {
                    return Err(e);
                },
            }
        }
        i = i + 1;
    }
    Ok(())
}

/// The text of a property, without the whitespace around it.
pub open spec fn worth_of(props: Seq<Tree>, name: Seq<char>) -> Option<Seq<char>> {
    match first_of(props, name) {
        Some(t) => Some(trimmed(t.text)),
        None => None,
    }
}

/// Whether the user has a privilege: by name, or by having all.
pub open spec fn privileged(props: Seq<Tree>, name: Seq<char>) -> bool {
    match first_of(props, "current-user-privilege-set"@) {
        Some(t) => t.holds(name) || t.holds("all"@),
        None => false,
    }
}

/// Whether a property is there and holds an element.
pub open spec fn marked(props: Seq<Tree>, property: Seq<char>, name: Seq<char>) -> bool {
    match first_of(props, property) {
        Some(t) => t.holds(name),
        None => false,
    }
}

/// The last part of a resource's path.
pub open spec fn leaf(href: Seq<char>) -> Seq<char> {
    split(trim_end_of(href, '/'), |c: char| c == '/').last()
}

/// The last part of a path is what stands behind the last slash, but for slashes at the end.
pub proof fn leaves_stand_behind_the_last_slash(href: Seq<char>)
    ensures
        ({
            let path = trim_end_of(href, '/');
            let last = leaf(href);
            &&& last.len() <= path.len()
            &&& path.skip(path.len() - last.len()) == last
            &&& forall|i: int| 0 <= i < last.len() ==> #[trigger] last[i] != '/'
            &&& last.len() < path.len() ==> path[path.len() - last.len() - 1] == '/'
        }),
{
    split_ends(trim_end_of(href, '/'), |c: char| c == '/');
}

/// The last of the parts of a text stands at its end, behind the last break.
proof fn split_ends(s: Seq<char>, p: spec_fn(char) -> bool)
    ensures
        ({
            let last = split(s, p).last();
            &&& split(s, p).len() > 0
            &&& last.len() <= s.len()
            &&& s.skip(s.len() - last.len()) == last
            &&& forall|i: int| 0 <= i < last.len() ==> !p(#[trigger] last[i])
            &&& last.len() < s.len() ==> p(s[s.len() - last.len() - 1])
        }),
    decreases s.len(),
{
    if s.len() > 0 {
        let head = s.drop_last();
        split_ends(head, p);
        let before = split(head, p).last();
        let last = split(s, p).last();
        if p(s.last()) {
            assert(last =~= Seq::<char>::empty());
            assert(s.skip(s.len() as int) =~= last);
        } else {
            assert(last == before.push(s.last()));
            let k = s.len() - last.len();
            assert(head.skip(k) == before);
            assert(s.skip(k) =~= head.skip(k).push(s.last()));
        }
    } else {
        assert(split(s, p).last() =~= Seq::<char>::empty());
        assert(s.skip(0) =~= Seq::<char>::empty());
    }
}

/// The rights that the privileges of a resource grant.
pub open spec fn dav_rights(props: Seq<Tree>) -> Rights {
    Rights {
        may_read: privileged(props, "read"@),
        may_add_children: privileged(props, "bind"@) || privileged(props, "write"@),
        may_rename: false,
        may_delete: privileged(props, "unbind"@) || privileged(props, "write"@),
        may_modify_content: privileged(props, "write-content"@) || privileged(props, "write"@),
        may_share: privileged(props, "write-acl"@),
        may_write: false,
    }
}

/// What the readable properties of a resource say of it.
pub open spec fn dav_node(href: Seq<char>, props: Seq<Tree>) -> Node {
    let directory = marked(props, "resourcetype"@, "collection"@);
    let shown = worth_of(props, "displayname"@);
    Node {
        id: href,
        name: if shown is Some && shown->0.len() > 0 {
            shown->0
        } else {
            percent_decoded_lossy(leaf(href))
        },
        node_type: Some(
            if directory {
                "directory"@
            } else {
                "file"@
            },
        ),
        blob_id: if directory {
            None
        } else {
            Some(href)
        },
        size: match worth_of(props, "getcontentlength"@) {
            Some(n) => parsed_u64(n),
            None => None,
        },
        media_type: worth_of(props, "getcontenttype"@),
        modified: worth_of(props, "getlastmodified"@),
        created: worth_of(props, "creationdate"@),
        etag: worth_of(props, "getetag"@),
        locked: marked(props, "lockdiscovery"@, "activelock"@),
        my_rights: dav_rights(props),
        ..Node::blank()
    }
}

/// The place of the property of that name among the properties of a resource: it is a property of
/// WebDAV, and no earlier one has the name.
pub open spec fn is_place_of(props: Seq<Tree>, name: Seq<char>, i: int) -> bool {
    &&& 0 <= i < props.len()
    &&& props[i].namespace == "DAV:"@
    &&& props[i].name == name
    &&& forall|j: int|
        0 <= j < i ==> !((#[trigger] props[j]).namespace == "DAV:"@ && props[j].name == name)
}

/// Whether the properties of a resource tell a value under a name: the text of the property, without
/// the whitespace around it; nothing where there is no property of WebDAV by that name.
pub open spec fn tells(props: Seq<Tree>, name: Seq<char>, value: Option<Seq<char>>) -> bool {
    match value {
        Some(v) => exists|i: int|
            #[trigger] is_place_of(props, name, i) && v == trimmed(props[i].text),
        None => forall|i: int|
            0 <= i < props.len() ==> !((#[trigger] props[i]).namespace == "DAV:"@ && props[i].name
                == name),
    }
}

/// Whether the property of that name holds an element.
pub open spec fn lists(props: Seq<Tree>, name: Seq<char>, element: Seq<char>) -> bool {
    exists|i: int| #[trigger] is_place_of(props, name, i) && props[i].holds(element)
}

/// The first property of a name stands at its place.
proof fn first_stands_at_its_place(props: Seq<Tree>, name: Seq<char>)
    ensures
        match first_of(props, name) {
            Some(t) => exists|i: int| #[trigger] is_place_of(props, name, i) && t == props[i],
            None => forall|i: int|
                0 <= i < props.len() ==> !((#[trigger] props[i]).namespace == "DAV:"@
                    && props[i].name == name),
        },
    decreases props.len(),
{
    if props.len() > 0 {
        if props[0].is(name) {
            assert(is_place_of(props, name, 0));
        } else {
            let rest = props.skip(1);
            first_stands_at_its_place(rest, name);
            if first_of(rest, name) is Some {
                let k = choose|k: int|
                    #[trigger] is_place_of(rest, name, k) && first_of(rest, name)->0 == rest[k];
                assert forall|j: int| 0 <= j < k + 1 implies !((#[trigger] props[j]).namespace
                    == "DAV:"@ && props[j].name == name) by {
                    if j > 0 {
                        assert(rest[j - 1] == props[j]);
                    }
                }
                assert(rest[k] == props[k + 1]);
                assert(is_place_of(props, name, k + 1));
            } else {
                assert forall|i: int| 0 <= i < props.len() implies !((
                #[trigger] props[i]).namespace == "DAV:"@ && props[i].name == name) by {
                    if i > 0 {
                        assert(rest[i - 1] == props[i]);
                    }
                }
            }
        }
    }
}

/// A property has one place.
pub(crate) proof fn places_are_unique(props: Seq<Tree>, name: Seq<char>, i: int, j: int)
    requires
        is_place_of(props, name, i),
        is_place_of(props, name, j),
    ensures
        i == j,
{
    if i < j {
        assert(props[i].name == name);
    } else if j < i {
        assert(props[j].name == name);
    }
}

pub(crate) proof fn worth_is_told(props: Seq<Tree>, name: Seq<char>)
    ensures
        tells(props, name, worth_of(props, name)),
{
    first_stands_at_its_place(props, name);
}

proof fn mark_is_listed(props: Seq<Tree>, name: Seq<char>, element: Seq<char>)
    ensures
        marked(props, name, element) == lists(props, name, element),
{
    first_stands_at_its_place(props, name);
    if lists(props, name, element) {
        let i = choose|i: int|
            #[trigger] is_place_of(props, name, i) && props[i].holds(element);
        let t = first_of(props, name);
        assert(t is Some);
        let k = choose|k: int| #[trigger] is_place_of(props, name, k) && t->0 == props[k];
        places_are_unique(props, name, i, k);
    }
}

/// Each field of a resource is what the property of WebDAV that carries it tells, and each right is
/// granted by its privilege, by the privilege to write where that one holds it, or by all.
pub proof fn fields_come_from_their_properties(href: Seq<char>, props: Seq<Tree>)
    ensures
        ({
            let n = dav_node(href, props);
            let may = |p: Seq<char>|
                lists(props, "current-user-privilege-set"@, p) || lists(
                    props,
                    "current-user-privilege-set"@,
                    "all"@,
                );
            &&& n.id == href
            &&& tells(props, "getlastmodified"@, n.modified)
            &&& tells(props, "creationdate"@, n.created)
            &&& tells(props, "getetag"@, n.etag)
            &&& tells(props, "getcontenttype"@, n.media_type)
            &&& n.size is Some ==> exists|i: int|
                #[trigger] is_place_of(props, "getcontentlength"@, i) && n.size == parsed_u64(
                    trimmed(props[i].text),
                )
            &&& forall|i: int|
                #[trigger] is_place_of(props, "getcontentlength"@, i) ==> n.size == parsed_u64(
                    trimmed(props[i].text),
                )
            &&& forall|i: int|
                #[trigger] is_place_of(props, "displayname"@, i) && trimmed(props[i].text).len() > 0
                    ==> n.name == trimmed(props[i].text)
            &&& (forall|i: int|
                #[trigger] is_place_of(props, "displayname"@, i) ==> trimmed(props[i].text).len()
                    == 0) ==> n.name == percent_decoded_lossy(leaf(href))
            &&& n.node_type == Some(
                if lists(props, "resourcetype"@, "collection"@) {
                    "directory"@
                } else {
                    "file"@
                },
            )
            &&& n.blob_id == (if lists(props, "resourcetype"@, "collection"@) {
                None
            } else {
                Some(href)
            })
            &&& n.locked == lists(props, "lockdiscovery"@, "activelock"@)
            &&& n.my_rights.may_read == may("read"@)
            &&& n.my_rights.may_add_children == (may("bind"@) || may("write"@))
            &&& n.my_rights.may_delete == (may("unbind"@) || may("write"@))
            &&& n.my_rights.may_modify_content == (may("write-content"@) || may("write"@))
            &&& n.my_rights.may_share == may("write-acl"@)
            &&& !n.my_rights.may_rename && !n.my_rights.may_write
            &&& n.parent_id is None && n.accessed is None && n.role is None
            &&& !n.executable && n.is_subscribed is None && n.share_with is None
        }),
{
    worth_is_told(props, "getlastmodified"@);
    worth_is_told(props, "creationdate"@);
    worth_is_told(props, "getetag"@);
    worth_is_told(props, "getcontenttype"@);
    worth_is_told(props, "getcontentlength"@);
    worth_is_told(props, "displayname"@);
    mark_is_listed(props, "resourcetype"@, "collection"@);
    mark_is_listed(props, "lockdiscovery"@, "activelock"@);
    let privileges = "current-user-privilege-set"@;
    mark_is_listed(props, privileges, "all"@);
    mark_is_listed(props, privileges, "read"@);
    mark_is_listed(props, privileges, "bind"@);
    mark_is_listed(props, privileges, "unbind"@);
    mark_is_listed(props, privileges, "write"@);
    mark_is_listed(props, privileges, "write-content"@);
    mark_is_listed(props, privileges, "write-acl"@);
    let n = dav_node(href, props);
    assert forall|i: int| #[trigger] is_place_of(props, "getcontentlength"@, i) implies n.size
        == parsed_u64(trimmed(props[i].text)) by {
        let worth = worth_of(props, "getcontentlength"@);
        let k = choose|k: int|
            #[trigger] is_place_of(props, "getcontentlength"@, k) && worth->0 == trimmed(
                props[k].text,
            );
        places_are_unique(props, "getcontentlength"@, i, k);
    }
    assert forall|i: int| #[trigger]
        is_place_of(props, "displayname"@, i) && trimmed(props[i].text).len() > 0 implies n.name
        == trimmed(props[i].text) by {
        let worth = worth_of(props, "displayname"@);
        let k = choose|k: int|
            #[trigger] is_place_of(props, "displayname"@, k) && worth->0 == trimmed(props[k].text);
        places_are_unique(props, "displayname"@, i, k);
    }
}

/// The place of a property does not depend on the texts.
proof fn texts_move_no_place(props: Seq<Tree>, i: int, text: Seq<char>, name: Seq<char>)
    requires
        0 <= i < props.len(),
    ensures
        ({
            let after = props.update(i, Tree { text, ..props[i] });
            match first_of(props, name) {
                Some(t) => match first_of(after, name) {
                    Some(u) => if is_place_of(props, name, i) {
                        t == props[i] && u == after[i]
                    } else {
                        t == u
                    },
                    None => false,
                },
                None => first_of(after, name) is None && !is_place_of(props, name, i),
            }
        }),
    decreases props.len(),
{
    first_stands_at_its_place(props, name);
    let after = props.update(i, Tree { text, ..props[i] });
    let rest = props.skip(1);
    if !props[0].is(name) {
        if i > 0 {
            texts_move_no_place(rest, i - 1, text, name);
            assert(after.skip(1) =~= rest.update(i - 1, Tree { text, ..rest[i - 1] }));
            assert(is_place_of(props, name, i) == is_place_of(rest, name, i - 1)) by {
                assert forall|j: int| 0 <= j < rest.len() implies rest[j] == #[trigger] props[j
                    + 1] by {}
                if is_place_of(rest, name, i - 1) {
                    assert forall|j: int| 0 <= j < i implies !((#[trigger] props[j]).namespace
                        == "DAV:"@ && props[j].name == name) by {
                        if j > 0 {
                            assert(rest[j - 1] == props[j]);
                        }
                    }
                }
                if is_place_of(props, name, i) {
                    assert forall|j: int| 0 <= j < i - 1 implies !((#[trigger] rest[j]).namespace
                        == "DAV:"@ && rest[j].name == name) by {
                        assert(rest[j] == props[j + 1]);
                    }
                }
            }
        } else {
            assert(after.skip(1) =~= rest);
        }
    }
}

/// What an element holds does not depend on its own text.
proof fn texts_mark_nothing(t: Tree, text: Seq<char>, element: Seq<char>)
    ensures
        (Tree { text, ..t }).holds(element) == t.holds(element),
{
    let u = Tree { text, ..t };
    assert(u.children == t.children);
    assert(u.is(element) == t.is(element));
}

proof fn marks_ignore_texts(
    props: Seq<Tree>,
    i: int,
    text: Seq<char>,
    name: Seq<char>,
    element: Seq<char>,
)
    requires
        0 <= i < props.len(),
    ensures
        marked(props.update(i, Tree { text, ..props[i] }), name, element) == marked(
            props,
            name,
            element,
        ),
{
    texts_move_no_place(props, i, text, name);
    texts_mark_nothing(props[i], text, element);
}

/// A property with another text changes the one field that it carries, to that text without the
/// whitespace around it, and no other field; a property that carries none changes nothing.
pub proof fn properties_change_their_own_field(
    href: Seq<char>,
    props: Seq<Tree>,
    i: int,
    text: Seq<char>,
)
    requires
        0 <= i < props.len(),
    ensures
        ({
            let before = dav_node(href, props);
            let after = dav_node(href, props.update(i, Tree { text, ..props[i] }));
            if is_place_of(props, "getlastmodified"@, i) {
                after == (Node { modified: Some(trimmed(text)), ..before })
            } else if is_place_of(props, "creationdate"@, i) {
                after == (Node { created: Some(trimmed(text)), ..before })
            } else if is_place_of(props, "getetag"@, i) {
                after == (Node { etag: Some(trimmed(text)), ..before })
            } else if is_place_of(props, "getcontenttype"@, i) {
                after == (Node { media_type: Some(trimmed(text)), ..before })
            } else if is_place_of(props, "getcontentlength"@, i) {
                after == (Node { size: parsed_u64(trimmed(text)), ..before })
            } else if is_place_of(props, "displayname"@, i) {
                after == (Node {
                    name: if trimmed(text).len() > 0 {
                        trimmed(text)
                    } else {
                        percent_decoded_lossy(leaf(href))
                    },
                    ..before
                })
            } else {
                after == before
            }
        }),
{
    reveal_strlit("getlastmodified");
    reveal_strlit("creationdate");
    reveal_strlit("getetag");
    reveal_strlit("getcontenttype");
    reveal_strlit("getcontentlength");
    reveal_strlit("displayname");
    assert("getlastmodified"@.len() == 15 && "getlastmodified"@[0] == 'g');
    assert("creationdate"@.len() == 12);
    assert("getetag"@.len() == 7);
    assert("getcontenttype"@.len() == 14);
    assert("getcontentlength"@.len() == 16);
    assert("displayname"@.len() == 11);
    texts_move_no_place(props, i, text, "getlastmodified"@);
    texts_move_no_place(props, i, text, "creationdate"@);
    texts_move_no_place(props, i, text, "getetag"@);
    texts_move_no_place(props, i, text, "getcontenttype"@);
    texts_move_no_place(props, i, text, "getcontentlength"@);
    texts_move_no_place(props, i, text, "displayname"@);
    marks_ignore_texts(props, i, text, "resourcetype"@, "collection"@);
    marks_ignore_texts(props, i, text, "lockdiscovery"@, "activelock"@);
    let privileges = "current-user-privilege-set"@;
    marks_ignore_texts(props, i, text, privileges, "all"@);
    marks_ignore_texts(props, i, text, privileges, "read"@);
    marks_ignore_texts(props, i, text, privileges, "bind"@);
    marks_ignore_texts(props, i, text, privileges, "unbind"@);
    marks_ignore_texts(props, i, text, privileges, "write"@);
    marks_ignore_texts(props, i, text, privileges, "write-content"@);
    marks_ignore_texts(props, i, text, privileges, "write-acl"@);
    let after = props.update(i, Tree { text, ..props[i] });
    assert forall|p: Seq<char>|
        #![trigger privileged(props, p)]
        privileged(props, p) == (marked(props, privileges, p) || marked(
            props,
            privileges,
            "all"@,
        )) && privileged(after, p) == (marked(after, privileges, p) || marked(
            after,
            privileges,
            "all"@,
        )) by {}
    assert(dav_rights(after) == dav_rights(props));
}

fn value_of(props: &Vec<Property>, name: &str) -> (r: Option<String>)
    ensures
        opt(r) == worth_of(trees(props@), name@),
{
    match prop(props, name) {
        Some(p) => Some(trim(p.text.as_str())),
        None => None,
    }
}

fn has_privilege(props: &Vec<Property>, name: &str) -> (r: bool)
    ensures
        r == privileged(trees(props@), name@),
{
    match prop(props, "current-user-privilege-set") {
        Some(p) => p.contains(name) || p.contains("all"),
        None => false,
    }
}

fn is_marked(props: &Vec<Property>, property: &str, name: &str) -> (r: bool)
    ensures
        r == marked(trees(props@), property@, name@),
{
    match prop(props, property) {
        Some(p) => p.contains(name),
        None => false,
    }
}

/// What the readable properties of a resource say of it.
pub fn node(href: &str, props: &Vec<Property>) -> (r: FileNode)
    ensures
        r@ == dav_node(href@, trees(props@)),
        tells(trees(props@), "getlastmodified"@, opt(r.modified)),
        tells(trees(props@), "creationdate"@, opt(r.created)),
        tells(trees(props@), "getetag"@, opt(r.etag)),
        tells(trees(props@), "getcontenttype"@, opt(r.media_type)),
        forall|i: int|
            #[trigger] is_place_of(trees(props@), "getcontentlength"@, i) ==> r.size == parsed_u64(
                trimmed(trees(props@)[i].text),
            ),
{
    proof {
        fields_come_from_their_properties(href@, trees(props@));
    }
    let directory = is_marked(props, "resourcetype", "collection");
    let shown = match value_of(props, "displayname") {
        Some(s) => s,
        None => String::new(),
    };
    let name = if !shown.as_str().is_empty() {
        shown
    } else {
        let trail = trim_end_char(href, '/');
        let parts = split_char(trail.as_str(), '/');
        proof {
            assert(texts(parts@).last() == parts@[parts@.len() - 1]@);
        }
        percent_decode_lossy(parts[parts.len() - 1].as_str())
    };
    let size = match value_of(props, "getcontentlength") {
        Some(n) => parse_u64(n.as_str()),
        None => None,
    };
    let write = has_privilege(props, "write");
    let rights = Rights {
        may_read: has_privilege(props, "read"),
        may_add_children: has_privilege(props, "bind") || write,
        may_rename: false,
        may_delete: has_privilege(props, "unbind") || write,
        may_modify_content: has_privilege(props, "write-content") || write,
        may_share: has_privilege(props, "write-acl"),
        may_write: false,
    };
    FileNode {
        id: lit(href),
        name,
        parent_id: None,
        blob_id: if directory {
            None
        } else {
            Some(lit(href))
        },
        size,
        media_type: value_of(props, "getcontenttype"),
        node_type: Some(
            if directory {
                lit("directory")
            } else {
                lit("file")
            },
        ),
        modified: value_of(props, "getlastmodified"),
        created: value_of(props, "creationdate"),
        accessed: None,
        executable: false,
        is_subscribed: None,
        role: None,
        my_rights: rights,
        share_with: None,
        etag: value_of(props, "getetag"),
        locked: is_marked(props, "lockdiscovery", "activelock"),
    }
}

} // verus!
