//! Requests to a WebDAV storage: reads, guarded changes, locks and shares.

use crate::error::{fails, other, says, Result};
use crate::files::dates::{read_rfc2822, read_rfc3339, rfc2822_instant, rfc3339_moment};
use crate::files::dav::{
    any_granted, canonical, canonical_url, child_result, failed, granted_properties, href_result,
    successful_properties, DavClient,
};
use crate::files::folder::Listing;
use crate::files::transport::{
    join_url, joined_url, method_token, parse_url, parsed_url, reaches, request_refusal,
    same_origin, shares_origin, url_refusal, valid_url, validated_url, Link, Request, UrlParts,
};
use crate::files::xml::{
    children_are_trees, escape, escaped, first_of, prop, trees, written, Property, Tree,
};
use crate::files::{nodes, CollisionPolicy, FileNode, Node};
use crate::text::{
    ascii_lower, ascii_lowercase, chars, decimal, has_member, join, join_texts, lit, opt, opt_str,
    same, stands_at, starts_with, texts, trim_end_char, trim_end_of, trim_start_char, trim_start_of, u64_text,
};
use vstd::prelude::*;
use vstd::string::*;
use vstd::utf8::encode_utf8;

verus! {

/// The headers of a request. A header that is set again replaces the one before it.
pub struct Headers {
    pub list: Vec<(String, String)>,
}

/// By what a header is known: its name, in which case does not count.
pub open spec fn header_key(name: Seq<char>) -> Seq<char> {
    name.map_values(|c: char| ascii_lower(c))
}

/// What a list of headers says, each by its key.
pub open spec fn header_map(list: Seq<(String, String)>) -> Map<Seq<char>, Seq<char>>
    decreases list.len(),
{
    if list.len() == 0 {
        Map::empty()
    } else {
        header_map(list.drop_last()).insert(header_key(list.last().0@), list.last().1@)
    }
}

impl View for Headers {
    type V = Map<Seq<char>, Seq<char>>;

    open spec fn view(&self) -> Map<Seq<char>, Seq<char>> {
        header_map(self.list@)
    }
}

impl Headers {
    /// Whether no header is given twice.
    pub open spec fn distinct(self) -> bool {
        forall|i: int, j: int|
            0 <= i < j < self.list@.len() ==> header_key(
                (#[trigger] self.list@[i]).0@,
            ) != header_key((#[trigger] self.list@[j]).0@)
    }

    pub fn new() -> (r: Headers)
        ensures
            r@ == Map::<Seq<char>, Seq<char>>::empty(),
            r.distinct(),
    {
        Headers { list: Vec::new() }
    }

    /// The headers with one set.
    pub fn with(self, name: &str, value: &str) -> (r: Headers)
        ensures
            r@ == self@.insert(header_key(name@), value@),
            self.distinct() ==> r.distinct(),
    {
        let ghost before = self.list@;
        let ghost distinct = self.distinct();
        let key = ascii_lowercase(name);
        let mut list: Vec<(String, String)> = Vec::new();
        proof {
            assert(before.take(0) =~= Seq::<(String, String)>::empty());
        }
        for header in it: self.list
            invariant
                it.seq() == before,
                key@ == header_key(name@),
                header_map(list@).remove(key@) == header_map(before.take(it.index())).remove(key@),
                forall|j: int| 0 <= j < list@.len() ==> header_key((#[trigger] list@[j]).0@) != key@,
                forall|j: int|
                    0 <= j < list@.len() ==> exists|k: int|
                        0 <= k < it.index() && #[trigger] before[k] == #[trigger] list@[j],
                distinct ==> forall|i: int, j: int|
                    0 <= i < j < before.len() ==> header_key((#[trigger] before[i]).0@)
                        != header_key((#[trigger] before[j]).0@),
                distinct ==> forall|i: int, j: int|
                    0 <= i < j < list@.len() ==> header_key((#[trigger] list@[i]).0@)
                        != header_key((#[trigger] list@[j]).0@),
        {
            let ghost held = list@;
            proof {
                assert(before.take(it.index() + 1).drop_last() =~= before.take(it.index()));
                assert(before.take(it.index() + 1).last() == header);
                assert(header == before[it.index()]);
            }
            if !same(ascii_lowercase(header.0.as_str()).as_str(), key.as_str()) {
                list.push(header);
                proof {
                    assert(list@.drop_last() =~= held);
                    assert(header_map(list@).remove(key@) =~= header_map(
                        before.take(it.index() + 1),
                    ).remove(key@)) by {
                        assert(header_map(held).remove(key@) == header_map(
                            before.take(it.index()),
                        ).remove(key@));
                        assert(header_map(held).insert(header_key(header.0@), header.1@).remove(
                            key@,
                        ) =~= header_map(held).remove(key@).insert(
                            header_key(header.0@),
                            header.1@,
                        ));
                        assert(header_map(before.take(it.index())).insert(
                            header_key(header.0@),
                            header.1@,
                        ).remove(key@) =~= header_map(before.take(it.index())).remove(
                            key@,
                        ).insert(header_key(header.0@), header.1@));
                    }
                    assert forall|j: int| 0 <= j < list@.len() implies exists|k: int|
                        0 <= k < it.index() + 1 && #[trigger] before[k] == #[trigger] list@[j] by {
                        if j < held.len() {
                            assert(list@[j] == held[j]);
                            let k = choose|k: int|
                                0 <= k < it.index() && #[trigger] before[k] == held[j];
                            assert(before[k] == list@[j]);
                        } else {
                            assert(before[it.index()] == list@[j]);
                        }
                    }
                    if distinct {
                        assert forall|i: int, j: int| 0 <= i < j < list@.len() implies header_key(
                            (#[trigger] list@[i]).0@,
                        ) != header_key((#[trigger] list@[j]).0@) by {
                            assert(list@[i] == held[i]);
                            if j < held.len() {
                                assert(list@[j] == held[j]);
                            } else {
                                let k = choose|k: int|
                                    0 <= k < it.index() && #[trigger] before[k] == held[i];
                                assert(header_key(before[k].0@) != header_key(before[it.index()].0@));
                            }
                        }
                    }
                }
            } else {
                proof {
                    assert(header_map(before.take(it.index() + 1)).remove(key@) =~= header_map(
                        before.take(it.index()),
                    ).remove(key@));
                }
            }
        }
        let ghost rest = list@;
        proof {
            assert(before.take(before.len() as int) =~= before);
        }
        list.push((lit(name), lit(value)));
        proof {
            assert(list@.drop_last() =~= rest);
            assert(header_map(rest).insert(key@, value@) =~= header_map(rest).remove(key@).insert(
                key@,
                value@,
            ));
            assert(header_map(before).insert(key@, value@) =~= header_map(before).remove(
                key@,
            ).insert(key@, value@));
        }
        Headers { list }
    }
}

/// Headers with more of them set, one after another.
pub open spec fn set_all(
    m: Map<Seq<char>, Seq<char>>,
    extra: Seq<(Seq<char>, Seq<char>)>,
) -> Map<Seq<char>, Seq<char>>
    decreases extra.len(),
{
    if extra.len() == 0 {
        m
    } else {
        set_all(m, extra.drop_last()).insert(header_key(extra.last().0), extra.last().1)
    }
}

/// The texts of a list of headers.
pub open spec fn header_texts(v: Seq<(&str, String)>) -> Seq<(Seq<char>, Seq<char>)> {
    v.map_values(|p: (&str, String)| (p.0@, p.1@))
}

/// The longest name of a header.
pub const MAX_HEADER_NAME: usize = 65535;

/// A text that can stand as a header's name: a token that is not too long.
pub open spec fn header_name(s: Seq<char>) -> bool {
    method_token(s) && s.len() <= MAX_HEADER_NAME
}

/// Calls `http::HeaderName::from_bytes` and reports whether it accepts the text: one that is not
/// empty, holds nothing but letters, digits and the fifteen marks of a token, and has at most 65535
/// of them.
#[verifier::external_body]
fn is_header_name(s: &str) -> (r: bool)
    ensures
        r == header_name(s@),
{
    reqwest::header::HeaderName::from_bytes(s.as_bytes()).is_ok()
}

/// A text that can stand as a header's value: no byte of it is an ASCII control character, but for
/// the tab.
pub open spec fn header_value(s: Seq<char>) -> bool {
    forall|i: int|
        0 <= i < encode_utf8(s).len() ==> (#[trigger] encode_utf8(s)[i] >= 32 && encode_utf8(s)[i]
            != 127) || encode_utf8(s)[i] == 9
}

/// Calls `http::HeaderValue::from_str` and reports whether it accepts the text: no byte may be an
/// ASCII control character, but for the tab.
#[verifier::external_body]
fn is_header_value(s: &str) -> (r: bool)
    ensures
        r == header_value(s@),
{
    reqwest::header::HeaderValue::from_str(s).is_ok()
}

/// A request that is ready to be sent.
pub struct DavRequest {
    pub request: Request,
    pub headers: Headers,
    pub body: Option<String>,
}

/// Whether a request goes to a resource of the storage with the connection's credentials.
pub open spec fn goes_to(c: DavClient, q: Request, method: Seq<char>, href: Seq<char>) -> bool {
    q.method@ == method && q.url@ == parsed_url(href)->0.text && q.user == c.transport.user
        && q.secret == c.transport.secret
}

/// Why a resource cannot be asked about so, if it cannot.
pub open spec fn reach_failure(c: DavClient, method: Seq<char>, value: Seq<char>) -> Option<
    Seq<char>,
> {
    match href_result(c.root@, c.root@, value) {
        Err(m) => Some(m),
        Ok(href) => if reaches(c.transport, href) && method_token(method) {
            None
        } else {
            Some(request_refusal(c.transport, method, href))
        },
    }
}

/// The resource that a reference against the root names.
pub open spec fn target(c: DavClient, value: Seq<char>) -> Seq<char> {
    href_result(c.root@, c.root@, value)->Ok_0
}

/// The texts of the locks.
pub open spec fn locks_of(v: Seq<(String, String)>) -> Seq<(Seq<char>, Seq<char>)> {
    v.map_values(|l: (String, String)| (l.0@, l.1@))
}

/// Whether a lock on `href` covers a resource: it is that resource or lies above it.
pub open spec fn covers(href: Seq<char>, id: Seq<char>) -> bool {
    id == href || stands_at(id, trim_end_of(href, '/') + "/"@, 0)
}

/// How a lock is submitted: its resource and its token.
pub open spec fn lock_tag(href: Seq<char>, token: Seq<char>) -> Seq<char> {
    "<"@ + href + "> (<"@ + token + ">)"@
}

/// The locks that cover one of two resources, as they are submitted.
pub open spec fn lock_tags(
    locks: Seq<(Seq<char>, Seq<char>)>,
    first: Seq<char>,
    second: Seq<char>,
) -> Seq<Seq<char>>
    decreases locks.len(),
{
    if locks.len() == 0 {
        Seq::empty()
    } else {
        let before = lock_tags(locks.drop_last(), first, second);
        let (href, token) = locks.last();
        if covers(href, first) || covers(href, second) {
            before.push(lock_tag(href, token))
        } else {
            before
        }
    }
}

fn lock_covers(href: &str, id: &str) -> (r: bool)
    ensures
        r == covers(href@, id@),
{
    let prefix = trim_end_char(href, '/').concat("/");
    same(id, href) || starts_with(id, prefix.as_str())
}

fn tag_of(href: &str, token: &str) -> (r: String)
    ensures
        r@ == lock_tag(href@, token@),
{
    lit("<").concat(href).concat("> (<").concat(token).concat(">)")
}

fn tags_for(locks: &Vec<(String, String)>, first: &str, second: &str) -> (r: Vec<String>)
    ensures
        texts(r@) == lock_tags(locks_of(locks@), first@, second@),
{
    let ghost all = locks_of(locks@);
    let mut out: Vec<String> = Vec::new();
    let mut i: usize = 0;
    proof {
        assert(all.take(0) == Seq::<(Seq<char>, Seq<char>)>::empty());
        assert(texts(out@) =~= Seq::<Seq<char>>::empty());
    }
    while i < locks.len()
        invariant
            i <= locks.len(),
            all == locks_of(locks@),
            texts(out@) == lock_tags(all.take(i as int), first@, second@),
        decreases locks.len() - i,
    {
        let href = locks[i].0.as_str();
        proof {
            assert(all.take(i + 1).drop_last() == all.take(i as int));
            assert(all.take(i + 1).last() == (locks@[i as int].0@, locks@[i as int].1@));
        }
        if lock_covers(href, first) || lock_covers(href, second) {
            let ghost before = texts(out@);
            let tag = tag_of(href, locks[i].1.as_str());
            out.push(tag);
            proof {
                assert(texts(out@) =~= before.push(tag@));
            }
        }
        i = i + 1;
    }
    proof {
        assert(all.take(all.len() as int) == all);
    }
    out
}

/// A validator that says that two contents are the same, byte by byte.
pub open spec fn strong(etag: Option<Seq<char>>) -> bool {
    etag is Some && !stands_at(etag->0, "W/"@, 0)
}

fn strong_etag(etag: &Option<String>) -> (r: bool)
    ensures
        r == strong(opt(*etag)),
{
    match etag {
        Some(e) => !starts_with(e.as_str(), "W/"),
        None => false,
    }
}

/// The conditions that every change of a resource carries: its validator where it has a strong
/// one, and the locks of this session that cover it.
pub open spec fn condition_headers(c: DavClient, n: Node) -> Map<Seq<char>, Seq<char>> {
    let tags = join(lock_tags(locks_of(c.locks@), n.id, n.id), " "@);
    let matched = if strong(n.etag) {
        Map::empty().insert(header_key("If-Match"@), n.etag->0)
    } else {
        Map::empty()
    };
    if tags.len() > 0 {
        matched.insert(header_key("If"@), tags)
    } else {
        matched
    }
}

/// Why headers cannot be sent, if they cannot: the first that cannot says so.
pub open spec fn header_failure(extra: Seq<(Seq<char>, Seq<char>)>) -> Option<Seq<char>>
    decreases extra.len(),
{
    if extra.len() == 0 {
        None
    } else {
        match header_failure(extra.drop_last()) {
            Some(m) => Some(m),
            None => if !header_name(extra.last().0) {
                Some("Invalid mutation header."@)
            } else if !header_value(extra.last().1) {
                Some("Invalid mutation header value."@)
            } else {
                None
            },
        }
    }
}

proof fn header_failure_stays(extra: Seq<(Seq<char>, Seq<char>)>, k: int)
    requires
        0 <= k <= extra.len(),
        header_failure(extra.take(k)) is Some,
    ensures
        header_failure(extra) == header_failure(extra.take(k)),
    decreases extra.len() - k,
{
    if k == extra.len() {
        assert(extra.take(k) =~= extra);
    } else {
        assert(extra.take(k + 1).drop_last() =~= extra.take(k));
        header_failure_stays(extra, k + 1);
    }
}

/// Why a change of a resource is not sent, if it is not.
pub open spec fn mutation_failure(
    c: DavClient,
    method: Seq<char>,
    n: Node,
    extra: Seq<(Seq<char>, Seq<char>)>,
    require_etag: bool,
) -> Option<Seq<char>> {
    match reach_failure(c, method, n.id) {
        Some(m) => Some(m),
        None => if require_etag && !strong(n.etag) {
            Some(
                "The server supplied no strong ETag. Refresh; this file cannot safely be overwritten."@,
            )
        } else {
            header_failure(extra)
        },
    }
}

/// Whether `r` is what asking for a change gives: the failure, or the guarded request. Headers of
/// the change replace the conditions of the same name, as a duplicate could lose a precondition.
pub open spec fn mutates(
    c: DavClient,
    method: Seq<char>,
    n: Node,
    extra: Seq<(Seq<char>, Seq<char>)>,
    body: Option<Seq<char>>,
    require_etag: bool,
    r: Result<DavRequest>,
) -> bool {
    match mutation_failure(c, method, n, extra, require_etag) {
        Some(m) => fails(r, m),
        None => {
            &&& r is Ok
            &&& goes_to(c, r->Ok_0.request, method, target(c, n.id))
            &&& r->Ok_0.headers@ == set_all(condition_headers(c, n), extra)
            &&& r->Ok_0.headers.distinct()
            &&& opt(r->Ok_0.body) == body
        },
    }
}

impl DavClient {
    fn reach(&self, method: &str, value: &str) -> (r: Result<Request>)
        ensures
            match reach_failure(*self, method@, value@) {
                Some(m) => fails(r, m),
                None => r is Ok && goes_to(*self, r->Ok_0, method@, target(*self, value@)),
            },
    {
        let url = match self.href(self.root.as_str(), value) {
            Ok(u) => u,
            Err(e) => {
                return Err(e);
            },
        };
        self.transport.request(method, url.as_str())
    }

    fn conditions(&self, n: &FileNode, require_etag: bool) -> (r: Result<Headers>)
        ensures
            if require_etag && !strong(n@.etag) {
                fails(
                    r,
                    "The server supplied no strong ETag. Refresh; this file cannot safely be overwritten."@,
                )
            } else {
                r is Ok && r->Ok_0@ == condition_headers(*self, n@) && r->Ok_0.distinct()
            },
    {
        let guarded = strong_etag(&n.etag);
        if require_etag && !guarded {
            return Err(
                other(
                    "The server supplied no strong ETag. Refresh; this file cannot safely be overwritten.",
                ),
            );
        }
        let mut headers = Headers::new();
        match &n.etag {
            Some(e) => {
                if guarded {
                    headers = headers.with("If-Match", e.as_str());
                }
            },
            None => {},
        }
        let tags = join_texts(&tags_for(&self.locks, n.id.as_str(), n.id.as_str()), " ");
        proof {
            assert(n@.id == n.id@);
        }
        if !tags.as_str().is_empty() {
            headers = headers.with("If", tags.as_str());
        }
        Ok(headers)
    }

    /// A guarded change of a resource.
    pub fn mutate(
        &self,
        method: &str,
        n: &FileNode,
        extra: Vec<(&str, String)>,
        body: Option<String>,
        require_etag: bool,
    ) -> (r: Result<DavRequest>)
        ensures
            mutates(*self, method@, n@, header_texts(extra@), opt(body), require_etag, r),
    {
        let request = match self.reach(method, n.id.as_str()) {
            Ok(q) => q,
            Err(e) => {
                return Err(e);
            },
        };
        let mut headers = match self.conditions(n, require_etag) {
            Ok(h) => h,
            Err(e) => {
                return Err(e);
            },
        };
        let ghost all = header_texts(extra@);
        let ghost base = headers@;
        let mut i: usize = 0;
        proof {
            assert(all.take(0) == Seq::<(Seq<char>, Seq<char>)>::empty());
        }
        while i < extra.len()
            invariant
                i <= extra.len(),
                all == header_texts(extra@),
                reach_failure(*self, method@, n@.id) is None,
                !(require_etag && !strong(n@.etag)),
                headers@ == set_all(base, all.take(i as int)),
                headers.distinct(),
                header_failure(all.take(i as int)) is None,
            decreases extra.len() - i,
        {
            proof {
                assert(all.take(i + 1).drop_last() == all.take(i as int));
                assert(all.take(i + 1).last() == (extra@[i as int].0@, extra@[i as int].1@));
                assert(all[i as int].1 == extra@[i as int].1@);
            }
            if !is_header_name(extra[i].0) {
                proof {
                    header_failure_stays(all, i + 1);
                }
                return Err(other("Invalid mutation header."));
            }
            if !is_header_value(extra[i].1.as_str()) {
                proof {
                    header_failure_stays(all, i + 1);
                }
                return Err(other("Invalid mutation header value."));
            }
            headers = headers.with(extra[i].0, extra[i].1.as_str());
            i = i + 1;
        }
        proof {
            assert(all.take(all.len() as int) == all);
        }
        Ok(DavRequest { request, headers, body })
    }
}

/// A node of which only the resource is known.
fn resource(id: String) -> (r: FileNode)
    ensures
        r@ == (Node { id: id@, ..Node::blank() }),
{
    let mut n = FileNode::default();
    n.id = id;
    n
}

/// The node of a resource that is to be made.
pub open spec fn new_node(id: Seq<char>) -> Node {
    Node { id, ..Node::blank() }
}

/// The headers that an upload carries: a new file must not be there yet.
pub open spec fn upload_headers(length: u64, kind: Seq<char>, fresh: bool) -> Seq<
    (Seq<char>, Seq<char>),
> {
    let base = seq![
        ("Content-Length"@, decimal(length as nat)),
        ("Content-Type"@, kind),
    ];
    if fresh {
        base.push(("If-None-Match"@, "*"@))
    } else {
        base
    }
}

/// The headers of a move or copy that replaces nothing.
pub open spec fn relocation_headers(c: DavClient, from: Seq<char>, to: Seq<char>) -> Seq<
    (Seq<char>, Seq<char>),
> {
    let tags = join(lock_tags(locks_of(c.locks@), from, to), " "@);
    let base = seq![
        ("Destination"@, to),
        ("Overwrite"@, "F"@),
        ("Depth"@, "infinity"@),
    ];
    if tags.len() > 0 {
        base.push(("If"@, tags))
    } else {
        base
    }
}

/// The method that moves or copies.
pub open spec fn relocation_method(copy: bool) -> Seq<char> {
    if copy {
        "COPY"@
    } else {
        "MOVE"@
    }
}

/// Whether `r` is what moving or copying a resource to a name that must be free gives.
pub open spec fn relocates(
    c: DavClient,
    n: Node,
    parent: Seq<char>,
    name: Seq<char>,
    copy: bool,
    r: Result<DavRequest>,
) -> bool {
    match child_result(c.root@, parent, name, n.directory()) {
        Err(m) => fails(r, m),
        Ok(to) => if covers(n.id, to) {
            fails(r, "A folder cannot be moved or copied into itself."@)
        } else {
            mutates(
                c,
                relocation_method(copy),
                n,
                relocation_headers(c, n.id, to),
                None,
                !n.directory(),
                r,
            )
        },
    }
}

/// Whether a request is sent by a method and carries a header.
pub open spec fn carries(r: DavRequest, method: Seq<char>, name: Seq<char>, value: Seq<char>) -> bool {
    r.request.method@ == method && r.headers@.dom().contains(header_key(name)) && r.headers@[header_key(
        name,
    )] == value
}

/// The headers of changes are known by their names, whose lengths differ.
proof fn header_names_differ()
    ensures
        header_key("Content-Length"@).len() == 14,
        header_key("Content-Type"@).len() == 12,
        header_key("If-None-Match"@).len() == 13,
        header_key("If-Match"@).len() == 8,
        header_key("If"@).len() == 2,
        header_key("Destination"@).len() == 11,
        header_key("Overwrite"@).len() == 9,
        header_key("Depth"@).len() == 5,
{
    reveal_strlit("Content-Length");
    reveal_strlit("Content-Type");
    reveal_strlit("If-None-Match");
    reveal_strlit("If-Match");
    reveal_strlit("If");
    reveal_strlit("Destination");
    reveal_strlit("Overwrite");
    reveal_strlit("Depth");
}

/// What the headers of an upload hold.
proof fn uploads_carry(c: DavClient, n: Node, length: u64, kind: Seq<char>, fresh: bool)
    ensures
        ({
            let m = set_all(condition_headers(c, n), upload_headers(length, kind, fresh));
            &&& m.dom().contains(header_key("Content-Length"@)) && m[header_key("Content-Length"@)]
                == decimal(length as nat)
            &&& m.dom().contains(header_key("Content-Type"@)) && m[header_key("Content-Type"@)]
                == kind
            &&& fresh ==> m.dom().contains(header_key("If-None-Match"@)) && m[header_key(
                "If-None-Match"@,
            )] == "*"@
            &&& strong(n.etag) ==> m.dom().contains(header_key("If-Match"@)) && m[header_key(
                "If-Match"@,
            )] == n.etag->0
        }),
{
    header_names_differ();
    let base = condition_headers(c, n);
    let extra = upload_headers(length, kind, fresh);
    let first = seq![("Content-Length"@, decimal(length as nat))];
    let second = seq![("Content-Length"@, decimal(length as nat)), ("Content-Type"@, kind)];
    assert(first.drop_last() =~= Seq::<(Seq<char>, Seq<char>)>::empty());
    assert(second.drop_last() =~= first);
    reveal_with_fuel(set_all, 2);
    assert(set_all(base, first) == base.insert(
        header_key("Content-Length"@),
        decimal(length as nat),
    ));
    assert(set_all(base, second) == set_all(base, first).insert(header_key("Content-Type"@), kind));
    if fresh {
        assert(extra.drop_last() =~= second);
        assert(set_all(base, extra) == set_all(base, second).insert(
            header_key("If-None-Match"@),
            "*"@,
        ));
    } else {
        assert(extra =~= second);
    }
}

/// What the headers of a move or copy that replaces a file hold: where it goes, that it may replace
/// what is there, and the validator of what it takes.
proof fn replacements_carry(c: DavClient, n: Node, to: Node)
    ensures
        ({
            let m = set_all(condition_headers(c, n), replacement_headers(c, n.id, to));
            &&& m.dom().contains(header_key("Destination"@)) && m[header_key("Destination"@)]
                == to.id
            &&& m.dom().contains(header_key("Overwrite"@)) && m[header_key("Overwrite"@)] == "T"@
            &&& m.dom().contains(header_key("If"@))
            &&& strong(n.etag) ==> m.dom().contains(header_key("If-Match"@)) && m[header_key(
                "If-Match"@,
            )] == n.etag->0
        }),
{
    header_names_differ();
    let base = condition_headers(c, n);
    let extra = replacement_headers(c, n.id, to);
    let first = seq![("Destination"@, to.id)];
    let second = seq![("Destination"@, to.id), ("Overwrite"@, "T"@)];
    let third = seq![("Destination"@, to.id), ("Overwrite"@, "T"@), ("Depth"@, "infinity"@)];
    assert(first.drop_last() =~= Seq::<(Seq<char>, Seq<char>)>::empty());
    assert(second.drop_last() =~= first);
    assert(third.drop_last() =~= second);
    assert(extra.drop_last() =~= third);
    reveal_with_fuel(set_all, 2);
    assert(set_all(base, first) == base.insert(header_key("Destination"@), to.id));
    assert(set_all(base, second) == set_all(base, first).insert(header_key("Overwrite"@), "T"@));
    assert(set_all(base, third) == set_all(base, second).insert(
        header_key("Depth"@),
        "infinity"@,
    ));
    assert(set_all(base, extra) == set_all(base, third).insert(
        header_key("If"@),
        extra.last().1,
    ));
}

/// What the headers of a move or copy hold.
proof fn relocations_carry(c: DavClient, n: Node, to: Seq<char>)
    ensures
        ({
            let m = set_all(condition_headers(c, n), relocation_headers(c, n.id, to));
            &&& m.dom().contains(header_key("Destination"@)) && m[header_key("Destination"@)] == to
            &&& m.dom().contains(header_key("Overwrite"@)) && m[header_key("Overwrite"@)] == "F"@
            &&& m.dom().contains(header_key("Depth"@)) && m[header_key("Depth"@)] == "infinity"@
            &&& strong(n.etag) ==> m.dom().contains(header_key("If-Match"@)) && m[header_key(
                "If-Match"@,
            )] == n.etag->0
        }),
{
    header_names_differ();
    let base = condition_headers(c, n);
    let extra = relocation_headers(c, n.id, to);
    let first = seq![("Destination"@, to)];
    let second = seq![("Destination"@, to), ("Overwrite"@, "F"@)];
    let third = seq![("Destination"@, to), ("Overwrite"@, "F"@), ("Depth"@, "infinity"@)];
    assert(first.drop_last() =~= Seq::<(Seq<char>, Seq<char>)>::empty());
    assert(second.drop_last() =~= first);
    assert(third.drop_last() =~= second);
    reveal_with_fuel(set_all, 2);
    assert(set_all(base, first) == base.insert(header_key("Destination"@), to));
    assert(set_all(base, second) == set_all(base, first).insert(header_key("Overwrite"@), "F"@));
    assert(set_all(base, third) == set_all(base, second).insert(
        header_key("Depth"@),
        "infinity"@,
    ));
    if extra.len() > 3 {
        assert(extra.drop_last() =~= third);
        assert(set_all(base, extra) == set_all(base, third).insert(
            header_key("If"@),
            extra.last().1,
        ));
    } else {
        assert(extra =~= third);
    }
}

impl DavClient {
    pub fn create_folder(&self, parent: &str, name: &str) -> (r: Result<DavRequest>)
        ensures
            match child_result(self.root@, parent@, name@, true) {
                Err(m) => fails(r, m),
                Ok(id) => mutates(
                    *self,
                    "MKCOL"@,
                    new_node(id),
                    seq![("If-None-Match"@, "*"@)],
                    None,
                    false,
                    r,
                ),
            },
            r is Ok ==> carries(r->Ok_0, "MKCOL"@, "If-None-Match"@, "*"@),
    {
        let id = match self.child_url(parent, name, true) {
            Ok(u) => u,
            Err(e) => {
                return Err(e);
            },
        };
        let extra = vec![("If-None-Match", lit("*"))];
        proof {
            assert(header_texts(extra@) =~= seq![("If-None-Match"@, "*"@)]);
        }
        self.mutate("MKCOL", &resource(id), extra, None, false)
    }

    /// An upload of a new file, or of the content of one that is there; the body is sent by the
    /// caller.
    pub fn upload(
        &self,
        parent: &str,
        name: &str,
        replace: Option<&FileNode>,
        length: u64,
        kind: &str,
    ) -> (r: Result<DavRequest>)
        ensures
            match replace {
                Some(n) => mutates(
                    *self,
                    "PUT"@,
                    n@,
                    upload_headers(length, kind@, false),
                    None,
                    true,
                    r,
                ),
                None => match child_result(self.root@, parent@, name@, false) {
                    Err(m) => fails(r, m),
                    Ok(id) => mutates(
                        *self,
                        "PUT"@,
                        new_node(id),
                        upload_headers(length, kind@, true),
                        None,
                        false,
                        r,
                    ),
                },
            },
            r is Ok ==> carries(r->Ok_0, "PUT"@, "Content-Length"@, decimal(length as nat)),
            r is Ok ==> carries(r->Ok_0, "PUT"@, "Content-Type"@, kind@),
            r is Ok && replace is None ==> carries(r->Ok_0, "PUT"@, "If-None-Match"@, "*"@),
            r is Ok && replace is Some ==> replace->0.etag is Some && carries(
                r->Ok_0,
                "PUT"@,
                "If-Match"@,
                replace->0.etag->0@,
            ),
    {
        let n = match replace {
            Some(n) => n.copy(),
            None => match self.child_url(parent, name, false) {
                Ok(u) => resource(u),
                Err(e) => {
                    return Err(e);
                },
            },
        };
        let mut extra = vec![("Content-Length", u64_text(length)), ("Content-Type", lit(kind))];
        if replace.is_none() {
            extra.push(("If-None-Match", lit("*")));
        }
        proof {
            assert(header_texts(extra@) =~= upload_headers(length, kind@, replace is None));
            uploads_carry(*self, n@, length, kind@, replace is None);
        }
        self.mutate("PUT", &n, extra, None, replace.is_some())
    }

    /// The request that reads the content of a file.
    pub fn download(&self, n: &FileNode) -> (r: Result<DavRequest>)
        ensures
            if n@.directory() {
                fails(r, "Select an individual file to download."@)
            } else {
                mutates(*self, "GET"@, n@, Seq::empty(), None, false, r)
            },
    {
        if n.is_directory() {
            return Err(other("Select an individual file to download."));
        }
        let extra: Vec<(&str, String)> = Vec::new();
        proof {
            assert(header_texts(extra@) =~= Seq::<(Seq<char>, Seq<char>)>::empty());
        }
        self.mutate("GET", n, extra, None, false)
    }

    pub fn delete(&self, n: &FileNode) -> (r: Result<DavRequest>)
        ensures
            if trim_end_of(n@.id, '/') == trim_end_of(self.root@, '/') {
                fails(r, "The storage root cannot be deleted."@)
            } else {
                mutates(*self, "DELETE"@, n@, Seq::empty(), None, !n@.directory(), r)
            },
            r is Ok ==> r->Ok_0.request.method@ == "DELETE"@,
            r is Ok && !n@.directory() ==> n.etag is Some && carries(
                r->Ok_0,
                "DELETE"@,
                "If-Match"@,
                n.etag->0@,
            ),
    {
        if same(
            trim_end_char(n.id.as_str(), '/').as_str(),
            trim_end_char(self.root.as_str(), '/').as_str(),
        ) {
            return Err(other("The storage root cannot be deleted."));
        }
        let extra: Vec<(&str, String)> = Vec::new();
        proof {
            assert(header_texts(extra@) =~= Seq::<(Seq<char>, Seq<char>)>::empty());
        }
        proof {
            header_names_differ();
        }
        self.mutate("DELETE", n, extra, None, !n.is_directory())
    }

    /// Move or copy a resource to a name that must be free.
    pub fn relocate(&self, n: &FileNode, parent: &str, name: &str, copy: bool) -> (r: Result<
        DavRequest,
    >)
        ensures
            relocates(*self, n@, parent@, name@, copy, r),
            r is Ok ==> ({
                let method = if copy {
                    "COPY"@
                } else {
                    "MOVE"@
                };
                let to = child_result(self.root@, parent@, name@, n@.directory());
                &&& to is Ok
                &&& carries(r->Ok_0, method, "Destination"@, to->Ok_0)
                &&& carries(r->Ok_0, method, "Overwrite"@, "F"@)
                &&& carries(r->Ok_0, method, "Depth"@, "infinity"@)
                &&& !n@.directory() ==> n.etag is Some && carries(
                    r->Ok_0,
                    method,
                    "If-Match"@,
                    n.etag->0@,
                )
            }),
    {
        let to = match self.child_url(parent, name, n.is_directory()) {
            Ok(u) => u,
            Err(e) => {
                return Err(e);
            },
        };
        if lock_covers(n.id.as_str(), to.as_str()) {
            return Err(other("A folder cannot be moved or copied into itself."));
        }
        let tags = join_texts(&tags_for(&self.locks, n.id.as_str(), to.as_str()), " ");
        let ghost there = to@;
        let mut extra = vec![
            ("Destination", to),
            ("Overwrite", lit("F")),
            ("Depth", lit("infinity")),
        ];
        if !tags.as_str().is_empty() {
            extra.push(("If", tags));
        }
        proof {
            assert(header_texts(extra@) =~= relocation_headers(*self, n.id@, there));
            relocations_carry(*self, n@, there);
        }
        self.mutate(
            if copy {
                "COPY"
            } else {
                "MOVE"
            },
            n,
            extra,
            None,
            !n.is_directory(),
        )
    }
}

/// When a resource was modified, where that can be read.
pub open spec fn modified_at(modified: Option<Seq<char>>) -> Option<(i64, u32)> {
    match modified {
        Some(s) => match rfc2822_instant(s) {
            Some(t) => Some(t),
            None => match rfc3339_moment(s) {
                Some(t) => Some((t.seconds, t.nanos)),
                None => None,
            },
        },
        None => None,
    }
}

/// Whether one instant lies behind another.
pub open spec fn later(a: (i64, u32), b: (i64, u32)) -> bool {
    a.0 > b.0 || (a.0 == b.0 && a.1 > b.1)
}

fn read_modified(modified: &Option<String>) -> (r: Option<(i64, u32)>)
    ensures
        r == modified_at(opt(*modified)),
{
    match modified {
        Some(s) => match read_rfc2822(s.as_str()) {
            Some(t) => Some(t),
            None => match read_rfc3339(s.as_str()) {
                Some(t) => Some((t.seconds, t.nanos)),
                None => None,
            },
        },
        None => None,
    }
}

/// Whether a file may replace another under the policy that keeps the newest.
pub fn check_newest(source: Option<(i64, u32)>, target: Option<(i64, u32)>) -> (r: Result<()>)
    ensures
        if source is None || target is None {
            fails(r, "Both files need modification dates for Keep newest."@)
        } else if !later(source->0, target->0) {
            fails(r, "The destination is newer or has the same modification date; it was kept."@)
        } else {
            r is Ok
        },
{
    match (source, target) {
        (Some(s), Some(t)) => {
            if s.0 > t.0 || (s.0 == t.0 && s.1 > t.1) {
                Ok(())
            } else {
                Err(
                    other(
                        "The destination is newer or has the same modification date; it was kept.",
                    ),
                )
            }
        },
        _ => Err(other("Both files need modification dates for Keep newest.")),
    }
}

/// The names of a list of nodes.
pub open spec fn names_of(list: Seq<Node>) -> Seq<Seq<char>> {
    list.map_values(|n: Node| n.name)
}

/// The two sides of the last point of a name: what stands before it, and the point with what
/// stands behind. A name without a point, or with nothing before it, has no second side.
pub open spec fn stem_and_extension(name: Seq<char>) -> (Seq<char>, Seq<char>) {
    let k = last_at(name, '.');
    if k > 0 {
        (name.take(k), name.skip(k))
    } else {
        (name, Seq::empty())
    }
}

/// Where a character last stands; -1 where it does not.
pub open spec fn last_at(s: Seq<char>, c: char) -> int
    decreases s.len(),
{
    if s.len() == 0 {
        -1
    } else if s.last() == c {
        s.len() - 1
    } else {
        last_at(s.drop_last(), c)
    }
}

/// A name with a number in it.
pub open spec fn numbered(name: Seq<char>, number: int) -> Seq<char> {
    stem_and_extension(name).0 + " ("@ + decimal(number as nat) + ")"@ + stem_and_extension(name).1
}

/// The first free name with a number in it, from `number` up to a thousand.
pub open spec fn free_name(taken: Seq<Seq<char>>, name: Seq<char>, number: int) -> Option<Seq<char>>
    decreases 1001 - number,
{
    if number > 1000 {
        None
    } else if !taken.contains(numbered(name, number)) {
        Some(numbered(name, number))
    } else {
        free_name(taken, name, number + 1)
    }
}

fn split_extension(name: &str) -> (r: (String, String))
    ensures
        (r.0@, r.1@) == stem_and_extension(name@),
{
    let v = chars(name);
    let mut k: usize = v.len();
    proof {
        assert(v@.take(k as int) == v@);
    }
    while k > 0 && v[k - 1] != '.'
        invariant
            v@ == name@,
            k <= v.len(),
            last_at(v@.take(k as int), '.') == last_at(name@, '.'),
        decreases k,
    {
        proof {
            assert(v@.take(k as int).last() == v@[k - 1]);
            assert(v@.take(k as int).drop_last() == v@.take(k - 1));
        }
        k = k - 1;
    }
    proof {
        if k > 0 {
            assert(v@.take(k as int).last() == v@[k - 1]);
        }
    }
    if k > 1 {
        proof {
            assert(name@.take(k - 1) =~= v@.subrange(0, k - 1));
            assert(name@.skip(k - 1) =~= v@.subrange(k - 1, v@.len() as int));
        }
        (
            crate::text::piece(v.as_slice(), 0, k - 1),
            crate::text::piece(v.as_slice(), k - 1, v.len()),
        )
    } else {
        (lit(name), String::new())
    }
}

/// A free name next to the names that are taken.
pub fn unused_name(list: &Vec<FileNode>, name: &str) -> (r: Option<String>)
    ensures
        opt(r) == free_name(names_of(nodes(list@)), name@, 1),
{
    let (stem, extension) = split_extension(name);
    let ghost taken = names_of(nodes(list@));
    let mut number: u64 = 1;
    while number <= 1000
        invariant
            1 <= number <= 1001,
            taken == names_of(nodes(list@)),
            (stem@, extension@) == stem_and_extension(name@),
            free_name(taken, name@, 1) == free_name(taken, name@, number as int),
        decreases 1001 - number,
    {
        let digits = u64_text(number);
        let candidate = stem.clone().concat(" (").concat(digits.as_str()).concat(")").concat(
            extension.as_str(),
        );
        proof {
            assert(candidate@ =~= numbered(name@, number as int));
        }
        if find_name(list, candidate.as_str()).is_none() {
            return Some(candidate);
        }
        number = number + 1;
    }
    None
}

/// Where a node of that name stands first.
pub fn find_name(list: &Vec<FileNode>, name: &str) -> (r: Option<usize>)
    ensures
        match r {
            Some(i) => i < list@.len() && names_of(nodes(list@))[i as int] == name@ && forall|j: int|
                0 <= j < i ==> names_of(nodes(list@))[j] != name@,
            None => !names_of(nodes(list@)).contains(name@),
        },
        r is Some <==> names_of(nodes(list@)).contains(name@),
{
    let mut i: usize = 0;
    while i < list.len()
        invariant
            i <= list.len(),
            forall|j: int| 0 <= j < i ==> names_of(nodes(list@))[j] != name@,
        decreases list.len() - i,
    {
        if same(list[i].name.as_str(), name) {
            proof {
                assert(names_of(nodes(list@))[i as int] == name@);
            }
            return Some(i);
        }
        i = i + 1;
    }
    None
}

/// Keeping both never lands on a name that is taken.
pub proof fn numbered_names_are_free(taken: Seq<Seq<char>>, name: Seq<char>, number: int)
    requires
        free_name(taken, name, number) is Some,
    ensures
        !taken.contains(free_name(taken, name, number)->0),
        exists|k: int|
            number <= k <= 1000 && free_name(taken, name, number)->0 == #[trigger] numbered(
                name,
                k,
            ) && forall|j: int| number <= j < k ==> taken.contains(#[trigger] numbered(name, j)),
    decreases 1001 - number,
{
    if !taken.contains(numbered(name, number)) {
        assert(free_name(taken, name, number)->0 == numbered(name, number));
    }
    if taken.contains(numbered(name, number)) {
        numbered_names_are_free(taken, name, number + 1);
        let k = choose|k: int|
            number + 1 <= k <= 1000 && free_name(taken, name, number + 1)->0 == #[trigger] numbered(
                name,
                k,
            ) && forall|j: int|
                number + 1 <= j < k ==> taken.contains(#[trigger] numbered(name, j));
        assert(free_name(taken, name, number)->0 == numbered(name, k));
    }
}

proof fn last_dot_is_last(s: Seq<char>, c: char)
    ensures
        ({
            let k = last_at(s, c);
            &&& -1 <= k < s.len()
            &&& k >= 0 ==> s[k] == c
            &&& forall|i: int| k < i < s.len() ==> #[trigger] s[i] != c
        }),
    decreases s.len(),
{
    if s.len() > 0 && s.last() != c {
        last_dot_is_last(s.drop_last(), c);
        let k = last_at(s, c);
        assert forall|i: int| k < i < s.len() implies #[trigger] s[i] != c by {
            if i < s.len() - 1 {
                assert(s.drop_last()[i] == s[i]);
            }
        }
    }
}

/// A numbered name is the name with the number behind its stem: what follows the last dot, unless the
/// name begins with it, stays at the end.
pub proof fn numbers_stand_behind_the_stem(name: Seq<char>, number: int)
    ensures
        exists|stem: Seq<char>, extension: Seq<char>|
            #![trigger stem + extension]
            {
                &&& name == stem + extension
                &&& numbered(name, number) == stem + " ("@ + decimal(number as nat) + ")"@
                    + extension
                &&& extension.len() > 0 ==> extension[0] == '.' && stem.len() > 0
                &&& forall|i: int| 1 <= i < extension.len() ==> #[trigger] extension[i] != '.'
                &&& extension.len() == 0 ==> forall|i: int|
                    1 <= i < name.len() ==> #[trigger] name[i] != '.'
            },
{
    last_dot_is_last(name, '.');
    let k = last_at(name, '.');
    let (stem, extension) = stem_and_extension(name);
    assert(name =~= stem + extension);
    if k > 0 {
        assert forall|i: int| 1 <= i < extension.len() implies #[trigger] extension[i] != '.' by {
            assert(extension[i] == name[k + i]);
        }
    }
}

/// What the destination of a replacement must be, in one list, so that both the validator and the
/// lock are required.
pub open spec fn target_conditions(
    locks: Seq<(Seq<char>, Seq<char>)>,
    id: Seq<char>,
    etag: Seq<char>,
) -> Seq<char>
    decreases locks.len(),
{
    if locks.len() == 0 {
        "["@ + etag + "]"@
    } else {
        let before = target_conditions(locks.drop_last(), id, etag);
        if locks.last().0 == id {
            before + " <"@ + locks.last().1 + ">"@
        } else {
            before
        }
    }
}

/// The other locks that a replacement submits.
pub open spec fn other_tags(
    locks: Seq<(Seq<char>, Seq<char>)>,
    from: Seq<char>,
    to: Seq<char>,
) -> Seq<Seq<char>>
    decreases locks.len(),
{
    if locks.len() == 0 {
        Seq::empty()
    } else {
        let before = other_tags(locks.drop_last(), from, to);
        let (href, token) = locks.last();
        if href != to && (covers(href, from) || covers(href, to)) {
            before.push(lock_tag(href, token))
        } else {
            before
        }
    }
}

/// The headers of a move or copy that replaces a file: both resources must still be what they
/// were.
pub open spec fn replacement_headers(c: DavClient, from: Seq<char>, to: Node) -> Seq<
    (Seq<char>, Seq<char>),
> {
    let locks = locks_of(c.locks@);
    seq![
        ("Destination"@, to.id),
        ("Overwrite"@, "T"@),
        ("Depth"@, "infinity"@),
        (
            "If"@,
            "<"@ + to.id + "> ("@ + target_conditions(locks, to.id, to.etag->0) + ") "@ + join(
                other_tags(locks, from, to.id),
                " "@,
            ),
        ),
    ]
}

/// Why a file is not replaced, if it is not.
pub open spec fn replacement_failure(
    from: Node,
    to: Node,
    policy: CollisionPolicy,
) -> Option<Seq<char>> {
    if from.directory() || to.directory() {
        Some(
            "Replacing a WebDAV folder cannot be guarded by a content ETag. Choose Keep both or select a new destination."@,
        )
    } else if to.id == from.id {
        Some("Source and destination are the same file."@)
    } else if !strong(to.etag) {
        Some("The destination has no strong ETag. Choose a new name."@)
    } else if policy == CollisionPolicy::Newest {
        if modified_at(from.modified) is None || modified_at(to.modified) is None {
            Some("Both files need modification dates for Keep newest."@)
        } else if !later(modified_at(from.modified)->0, modified_at(to.modified)->0) {
            Some("The destination is newer or has the same modification date; it was kept."@)
        } else {
            None
        }
    } else {
        None
    }
}

/// How a move or copy goes on.
pub enum Relocation {
    /// The destination folder must be listed first.
    List,
    /// Send this request.
    Send(DavRequest),
}

/// The request of a step, as the outcome of asking for it.
pub open spec fn sent(r: Result<Relocation>) -> Result<DavRequest> {
    match r {
        Ok(Relocation::Send(q)) => Ok(q),
        Ok(Relocation::List) => arbitrary(),
        Err(e) => Err(e),
    }
}

/// Where a node of that name stands first in a list.
pub open spec fn first_named(list: Seq<Node>, name: Seq<char>) -> int {
    names_of(list).index_of_first(name)->0
}

impl DavClient {
    fn replace_conditions(&self, from: &str, to: &str, etag: &str) -> (r: String)
        ensures
            r@ == "<"@ + to@ + "> ("@ + target_conditions(locks_of(self.locks@), to@, etag@) + ") "@
                + join(other_tags(locks_of(self.locks@), from@, to@), " "@),
    {
        let ghost all = locks_of(self.locks@);
        let mut own = lit("[").concat(etag).concat("]");
        let mut others: Vec<String> = Vec::new();
        let mut i: usize = 0;
        proof {
            assert(all.take(0) == Seq::<(Seq<char>, Seq<char>)>::empty());
            assert(texts(others@) =~= Seq::<Seq<char>>::empty());
        }
        while i < self.locks.len()
            invariant
                i <= self.locks.len(),
                all == locks_of(self.locks@),
                own@ == target_conditions(all.take(i as int), to@, etag@),
                texts(others@) == other_tags(all.take(i as int), from@, to@),
            decreases self.locks.len() - i,
        {
            let href = self.locks[i].0.as_str();
            let token = self.locks[i].1.as_str();
            proof {
                assert(all.take(i + 1).drop_last() == all.take(i as int));
                assert(all.take(i + 1).last() == (href@, token@));
            }
            if same(href, to) {
                own = own.concat(" <").concat(token).concat(">");
            } else if lock_covers(href, from) || lock_covers(href, to) {
                let ghost before = texts(others@);
                let tag = tag_of(href, token);
                others.push(tag);
                proof {
                    assert(texts(others@) =~= before.push(tag@));
                }
            }
            i = i + 1;
        }
        proof {
            assert(all.take(all.len() as int) == all);
        }
        let rest = join_texts(&others, " ");
        lit("<").concat(to).concat("> (").concat(own.as_str()).concat(") ").concat(rest.as_str())
    }

    /// Explicit replacement carries validators for both resources. Never
    /// delete a destination first: COPY/MOVE remains one server operation.
    pub fn replace(&self, n: &FileNode, existing: &FileNode, copy: bool, policy: CollisionPolicy) -> (r:
        Result<DavRequest>)
        ensures
            match replacement_failure(n@, existing@, policy) {
                Some(m) => fails(r, m),
                None => mutates(
                    *self,
                    relocation_method(copy),
                    n@,
                    replacement_headers(*self, n@.id, existing@),
                    None,
                    true,
                    r,
                ),
            },
            r is Ok ==> ({
                let method = if copy {
                    "COPY"@
                } else {
                    "MOVE"@
                };
                &&& !n@.directory() && !existing@.directory() && n.id@ != existing.id@
                &&& n.etag is Some && existing.etag is Some
                &&& carries(r->Ok_0, method, "Destination"@, existing.id@)
                &&& carries(r->Ok_0, method, "Overwrite"@, "T"@)
                &&& carries(r->Ok_0, method, "If-Match"@, n.etag->0@)
                &&& policy == CollisionPolicy::Newest ==> ({
                    let source = modified_at(opt(n.modified));
                    let there = modified_at(opt(existing.modified));
                    match (source, there) {
                        (Some(x), Some(y)) => x.0 > y.0 || (x.0 == y.0 && x.1 > y.1),
                        _ => false,
                    }
                })
            }),
    {
        proof {
            if existing.etag is Some {
                replacements_carry(*self, n@, existing@);
            }
        }
        if n.is_directory() || existing.is_directory() {
            return Err(
                other(
                    "Replacing a WebDAV folder cannot be guarded by a content ETag. Choose Keep both or select a new destination.",
                ),
            );
        }
        if same(existing.id.as_str(), n.id.as_str()) {
            return Err(other("Source and destination are the same file."));
        }
        let etag = match &existing.etag {
            Some(e) => e.as_str(),
            None => {
                return Err(other("The destination has no strong ETag. Choose a new name."));
            },
        };
        if !strong_etag(&existing.etag) {
            return Err(other("The destination has no strong ETag. Choose a new name."));
        }
        if matches!(policy, CollisionPolicy::Newest) {
            match check_newest(read_modified(&n.modified), read_modified(&existing.modified)) {
                Ok(_) => {},
                Err(e) => {
                    return Err(e);
                },
            }
        }
        let conditions = self.replace_conditions(n.id.as_str(), existing.id.as_str(), etag);
        let extra = vec![
            ("Destination", existing.id.clone()),
            ("Overwrite", lit("T")),
            ("Depth", lit("infinity")),
            ("If", conditions),
        ];
        proof {
            assert(header_texts(extra@) =~= replacement_headers(*self, n@.id, existing@));
        }
        self.mutate(
            if copy {
                "COPY"
            } else {
                "MOVE"
            },
            n,
            extra,
            None,
            true,
        )
    }

    /// Move or copy a resource under a policy for a name that is taken. Without the listing of the
    /// destination folder, every policy but rejecting asks for it.
    pub fn relocate_with_policy(
        &self,
        n: &FileNode,
        parent: &str,
        name: &str,
        copy: bool,
        policy: CollisionPolicy,
        listing: Option<&Listing>,
    ) -> (r: Result<Relocation>)
        ensures
            if policy == CollisionPolicy::Reject {
                !(r matches Ok(Relocation::List)) && relocates(
                    *self,
                    n@,
                    parent@,
                    name@,
                    copy,
                    sent(r),
                )
            } else if listing is None {
                r matches Ok(Relocation::List)
            } else {
                let list = nodes(listing->0.nodes@);
                &&& !(r matches Ok(Relocation::List))
                &&& if !names_of(list).contains(name@) {
                    relocates(*self, n@, parent@, name@, copy, sent(r))
                } else if policy == CollisionPolicy::Rename {
                    match free_name(names_of(list), name@, 1) {
                        Some(free) => relocates(*self, n@, parent@, free, copy, sent(r)),
                        None => fails(r, "Could not find an unused destination name."@),
                    }
                } else {
                    let existing = list[first_named(list, name@)];
                    match replacement_failure(n@, existing, policy) {
                        Some(m) => fails(r, m),
                        None => mutates(
                            *self,
                            relocation_method(copy),
                            n@,
                            replacement_headers(*self, n@.id, existing),
                            None,
                            true,
                            sent(r),
                        ),
                    }
                }
            },
    {
        if matches!(policy, CollisionPolicy::Reject) {
            return match self.relocate(n, parent, name, copy) {
                Ok(q) => Ok(Relocation::Send(q)),
                Err(e) => Err(e),
            };
        }
        let listing = match listing {
            Some(l) => l,
            None => {
                return Ok(Relocation::List);
            },
        };
        let at = match find_name(&listing.nodes, name) {
            Some(i) => i,
            None => {
                return match self.relocate(n, parent, name, copy) {
                    Ok(q) => Ok(Relocation::Send(q)),
                    Err(e) => Err(e),
                };
            },
        };
        if matches!(policy, CollisionPolicy::Rename) {
            return match unused_name(&listing.nodes, name) {
                Some(free) => match self.relocate(n, parent, free.as_str(), copy) {
                    Ok(q) => Ok(Relocation::Send(q)),
                    Err(e) => Err(e),
                },
                None => Err(other("Could not find an unused destination name.")),
            };
        }
        proof {
            let list = nodes(listing.nodes@);
            let names = names_of(list);
            let k = names.index_of_first(name@)->0;
            names.index_of_first_ensures(name@);
            assert(k == at);
            assert(list[at as int] == listing.nodes@[at as int]@);
        }
        match self.replace(n, &listing.nodes[at], copy, policy) {
            Ok(q) => Ok(Relocation::Send(q)),
            Err(e) => Err(e),
        }
    }
}

/// The token of the lock that this session holds on a resource.
pub open spec fn token_of(locks: Seq<(Seq<char>, Seq<char>)>, href: Seq<char>) -> Option<Seq<char>>
    decreases locks.len(),
{
    if locks.len() == 0 {
        None
    } else if locks[0].0 == href {
        Some(locks[0].1)
    } else {
        token_of(locks.skip(1), href)
    }
}

proof fn token_of_is(locks: Seq<(Seq<char>, Seq<char>)>, href: Seq<char>, k: int)
    requires
        0 <= k <= locks.len(),
        forall|j: int| 0 <= j < k ==> (#[trigger] locks[j]).0 != href,
        k < locks.len() ==> locks[k].0 == href,
    ensures
        token_of(locks, href) == (if k < locks.len() {
            Some(locks[k].1)
        } else {
            None
        }),
    decreases locks.len(),
{
    if k > 0 {
        assert(forall|j: int| 0 <= j < k - 1 ==> locks.skip(1)[j] == locks[j + 1]);
        token_of_is(locks.skip(1), href, k - 1);
    }
}

/// Where the lock on a resource stands among the locks; their number where there is none.
fn find_lock(locks: &Vec<(String, String)>, href: &str) -> (r: usize)
    ensures
        r <= locks@.len(),
        forall|j: int| 0 <= j < r ==> (#[trigger] locks_of(locks@)[j]).0 != href@,
        r < locks@.len() ==> locks_of(locks@)[r as int].0 == href@,
        token_of(locks_of(locks@), href@) == (if r < locks@.len() {
            Some(locks@[r as int].1@)
        } else {
            None
        }),
{
    let mut i: usize = 0;
    while i < locks.len() && !same(locks[i].0.as_str(), href)
        invariant
            i <= locks@.len(),
            forall|j: int| 0 <= j < i ==> (#[trigger] locks_of(locks@)[j]).0 != href@,
        decreases locks.len() - i,
    {
        i = i + 1;
    }
    proof {
        token_of_is(locks_of(locks@), href@, i as int);
    }
    i
}

/// How long a lock is asked for: at least half a minute, at most an hour.
pub open spec fn lock_seconds(seconds: u32) -> nat {
    if seconds < 30 {
        30
    } else if seconds > 3600 {
        3600
    } else {
        seconds as nat
    }
}

/// The headers of a request for a lock. A lock that is held already is refreshed by its token.
pub open spec fn lock_headers(
    token: Option<Seq<char>>,
    recursive: bool,
    seconds: u32,
) -> Map<Seq<char>, Seq<char>> {
    let base = Map::empty().insert(header_key("Timeout"@), "Second-"@ + decimal(lock_seconds(seconds))).insert(
        header_key("Depth"@),
        if recursive {
            "infinity"@
        } else {
            "0"@
        },
    );
    match token {
        Some(t) => base.insert(header_key("If"@), "(<"@ + t + ">)"@),
        None => base.insert(header_key("Content-Type"@), "application/xml"@),
    }
}

/// The body of a request for a new lock.
pub open spec fn lock_body(shared: bool) -> Seq<char> {
    "<d:lockinfo xmlns:d=\"DAV:\"><d:lockscope><d:"@ + (if shared {
        "shared"@
    } else {
        "exclusive"@
    }) + "/></d:lockscope><d:locktype><d:write/></d:locktype></d:lockinfo>"@
}

/// A lock token without the brackets around it.
pub open spec fn bare_token(token: Seq<char>) -> Seq<char> {
    trim_end_of(trim_start_of(token, '<'), '>')
}

/// The locks with one set: in its place where the resource is locked already, else behind the
/// others.
pub open spec fn lock_set(
    locks: Seq<(Seq<char>, Seq<char>)>,
    href: Seq<char>,
    token: Seq<char>,
    after: Seq<(Seq<char>, Seq<char>)>,
) -> bool {
    &&& token_of(after, href) == Some(token)
    &&& forall|other: Seq<char>|
        other != href ==> #[trigger] token_of(after, other) == token_of(locks, other)
}

proof fn token_of_update(
    locks: Seq<(Seq<char>, Seq<char>)>,
    href: Seq<char>,
    token: Seq<char>,
    k: int,
    other: Seq<char>,
)
    requires
        0 <= k < locks.len(),
        locks[k].0 == href,
        other != href,
    ensures
        token_of(locks.update(k, (href, token)), other) == token_of(locks, other),
    decreases locks.len(),
{
    let after = locks.update(k, (href, token));
    if k == 0 {
        assert(after.skip(1) =~= locks.skip(1));
    } else {
        assert(after.skip(1) =~= locks.skip(1).update(k - 1, (href, token)));
        if locks[0].0 != other {
            token_of_update(locks.skip(1), href, token, k - 1, other);
        }
    }
}

proof fn token_of_push(
    locks: Seq<(Seq<char>, Seq<char>)>,
    href: Seq<char>,
    token: Seq<char>,
    other: Seq<char>,
)
    requires
        other != href,
    ensures
        token_of(locks.push((href, token)), other) == token_of(locks, other),
    decreases locks.len(),
{
    let after = locks.push((href, token));
    if locks.len() == 0 {
        assert(after.skip(1) =~= Seq::<(Seq<char>, Seq<char>)>::empty());
        reveal_with_fuel(token_of, 2);
    } else {
        assert(after.skip(1) =~= locks.skip(1).push((href, token)));
        if locks[0].0 != other {
            token_of_push(locks.skip(1), href, token, other);
        }
    }
}

proof fn token_of_remove(locks: Seq<(Seq<char>, Seq<char>)>, href: Seq<char>, k: int, other: Seq<char>)
    requires
        0 <= k < locks.len(),
        locks[k].0 == href,
        other != href,
    ensures
        token_of(locks.remove(k), other) == token_of(locks, other),
    decreases locks.len(),
{
    let after = locks.remove(k);
    if k == 0 {
        assert(after =~= locks.skip(1));
    } else {
        assert(after.skip(1) =~= locks.skip(1).remove(k - 1));
        assert(after[0] == locks[0]);
        if locks[0].0 != other {
            token_of_remove(locks.skip(1), href, k - 1, other);
        }
    }
}

impl DavClient {
    /// Each resource is locked once.
    pub open spec fn wf(self) -> bool {
        forall|i: int, j: int|
            0 <= i < j < self.locks@.len() ==> (#[trigger] locks_of(self.locks@)[i]).0 != (
            #[trigger] locks_of(self.locks@)[j]).0
    }

    /// Ask for a lock on a resource, or for more time on the one that is held.
    pub fn lock_with_options(&self, n: &FileNode, shared: bool, recursive: bool, seconds: u32) -> (r:
        Result<DavRequest>)
        ensures
            if !self.supports_locks {
                fails(r, "The server does not advertise WebDAV locking."@)
            } else {
                match reach_failure(*self, "LOCK"@, n@.id) {
                    Some(m) => fails(r, m),
                    None => {
                        let url = target(*self, n@.id);
                        let token = token_of(locks_of(self.locks@), url);
                        &&& r is Ok
                        &&& goes_to(*self, r->Ok_0.request, "LOCK"@, url)
                        &&& r->Ok_0.headers@ == lock_headers(token, recursive, seconds)
                        &&& opt(r->Ok_0.body) == (if token is Some {
                            None
                        } else {
                            Some(lock_body(shared))
                        })
                    },
                }
            },
            r is Ok ==> carries(
                r->Ok_0,
                "LOCK"@,
                "Depth"@,
                if recursive {
                    "infinity"@
                } else {
                    "0"@
                },
            ),
            r is Ok && 30 <= seconds <= 3600 ==> carries(
                r->Ok_0,
                "LOCK"@,
                "Timeout"@,
                "Second-"@ + decimal(seconds as nat),
            ),
            r is Ok ==> exists|n: nat|
                30 <= n <= 3600 && carries(
                    r->Ok_0,
                    "LOCK"@,
                    "Timeout"@,
                    "Second-"@ + #[trigger] decimal(n),
                ),
    {
        proof {
            header_names_differ();
            reveal_strlit("Timeout");
            assert(header_key("Timeout"@).len() == 7);
            let n = lock_seconds(seconds);
            assert(30 <= n <= 3600 && decimal(n) == decimal(n));
        }
        if !self.supports_locks {
            return Err(other("The server does not advertise WebDAV locking."));
        }
        let url = match self.href(self.root.as_str(), n.id.as_str()) {
            Ok(u) => u,
            Err(e) => {
                return Err(e);
            },
        };
        let request = match self.transport.request("LOCK", url.as_str()) {
            Ok(q) => q,
            Err(e) => {
                return Err(e);
            },
        };
        let time: u64 = if seconds < 30 {
            30
        } else if seconds > 3600 {
            3600
        } else {
            seconds as u64
        };
        let timeout = lit("Second-").concat(u64_text(time).as_str());
        let base = Headers::new().with("Timeout", timeout.as_str()).with(
            "Depth",
            if recursive {
                "infinity"
            } else {
                "0"
            },
        );
        let k: usize = find_lock(&self.locks, url.as_str());
        if k < self.locks.len() {
            let value = lit("(<").concat(self.locks[k].1.as_str()).concat(">)");
            Ok(DavRequest { request, headers: base.with("If", value.as_str()), body: None })
        } else {
            let body = lit("<d:lockinfo xmlns:d=\"DAV:\"><d:lockscope><d:").concat(
                if shared {
                    "shared"
                } else {
                    "exclusive"
                },
            ).concat("/></d:lockscope><d:locktype><d:write/></d:locktype></d:lockinfo>");
            Ok(
                DavRequest {
                    request,
                    headers: base.with("Content-Type", "application/xml"),
                    body: Some(body),
                },
            )
        }
    }

    /// Take the answer to a request for a lock on the resource `url`.
    pub fn locked(&mut self, url: &str, token: Option<&str>) -> (r: Result<()>)
        requires
            old(self).wf(),
        ensures
            match token {
                Some(t) => r is Ok && lock_set(
                    locks_of(old(self).locks@),
                    url@,
                    bare_token(t@),
                    locks_of(final(self).locks@),
                ),
                None => *final(self) == *old(self) && if token_of(
                    locks_of(old(self).locks@),
                    url@,
                ) is Some {
                    r is Ok
                } else {
                    fails(r, "The server omitted the lock token."@)
                },
            },
            final(self).wf(),
            *final(self) == (DavClient { locks: final(self).locks, ..*old(self) }),
    {
        let k: usize = find_lock(&self.locks, url);
        let ghost before = locks_of(self.locks@);
        match token {
            Some(t) => {
                let bare = trim_end_char(trim_start_char(t, '<').as_str(), '>');
                let entry = (lit(url), bare);
                if k < self.locks.len() {
                    self.locks.set(k, entry);
                    proof {
                        let after = locks_of(self.locks@);
                        assert(after =~= before.update(k as int, (url@, bare@)));
                        token_of_is(after, url@, k as int);
                        assert forall|o: Seq<char>| o != url@ implies #[trigger] token_of(after, o)
                            == token_of(before, o) by {
                            token_of_update(before, url@, bare@, k as int, o);
                        }
                        assert forall|i: int, j: int| 0 <= i < j < after.len() implies (
                        #[trigger] after[i]).0 != (#[trigger] after[j]).0 by {
                            assert(before[i].0 != before[j].0);
                        }
                    }
                } else {
                    self.locks.push(entry);
                    proof {
                        let after = locks_of(self.locks@);
                        assert(after =~= before.push((url@, bare@)));
                        token_of_is(after, url@, k as int);
                        assert forall|o: Seq<char>| o != url@ implies #[trigger] token_of(after, o)
                            == token_of(before, o) by {
                            token_of_push(before, url@, bare@, o);
                        }
                        assert forall|i: int, j: int| 0 <= i < j < after.len() implies (
                        #[trigger] after[i]).0 != (#[trigger] after[j]).0 by {
                            if j < before.len() {
                                assert(before[i].0 != before[j].0);
                            } else {
                                assert(before[i].0 != url@);
                            }
                        }
                    }
                }
                Ok(())
            },
            None => {
                if k < self.locks.len() {
                    Ok(())
                } else {
                    Err(other("The server omitted the lock token."))
                }
            },
        }
    }

    pub fn owns_lock(&self, id: &str) -> (r: bool)
        ensures
            r == token_of(locks_of(self.locks@), id@) is Some,
    {
        find_lock(&self.locks, id) < self.locks.len()
    }

    /// Release the lock that this session holds on a resource.
    pub fn unlock(&self, n: &FileNode) -> (r: Result<DavRequest>)
        ensures
            match token_of(locks_of(self.locks@), n@.id) {
                None => fails(r, "This session does not own the lock."@),
                Some(token) => mutates(
                    *self,
                    "UNLOCK"@,
                    n@,
                    seq![("Lock-Token"@, "<"@ + token + ">"@)],
                    None,
                    false,
                    r,
                ),
            },
    {
        let k: usize = find_lock(&self.locks, n.id.as_str());
        if k == self.locks.len() {
            return Err(other("This session does not own the lock."));
        }
        let value = lit("<").concat(self.locks[k].1.as_str()).concat(">");
        let extra = vec![("Lock-Token", value)];
        proof {
            assert(header_texts(extra@) =~= seq![("Lock-Token"@, value@)]);
        }
        self.mutate("UNLOCK", n, extra, None, false)
    }

    /// Forget the lock on a resource, once it was released.
    pub fn unlocked(&mut self, id: &str)
        requires
            old(self).wf(),
        ensures
            token_of(locks_of(final(self).locks@), id@) is None,
            forall|o: Seq<char>|
                o != id@ ==> #[trigger] token_of(locks_of(final(self).locks@), o) == token_of(
                    locks_of(old(self).locks@),
                    o,
                ),
            final(self).wf(),
            *final(self) == (DavClient { locks: final(self).locks, ..*old(self) }),
    {
        let k: usize = find_lock(&self.locks, id);
        let ghost before = locks_of(self.locks@);
        if k < self.locks.len() {
            let _ = self.locks.remove(k);
            proof {
                let after = locks_of(self.locks@);
                assert(after =~= before.remove(k as int));
                assert forall|o: Seq<char>| o != id@ implies #[trigger] token_of(after, o)
                    == token_of(before, o) by {
                    token_of_remove(before, id@, k as int, o);
                }
                assert forall|j: int| 0 <= j < after.len() implies (#[trigger] after[j]).0
                    != id@ by {
                    if j < k {
                        assert(before[j].0 != before[k as int].0);
                    } else {
                        assert(before[k as int].0 != before[j + 1].0);
                    }
                }
                token_of_is(after, id@, after.len() as int);
                assert forall|i: int, j: int| 0 <= i < j < after.len() implies (
                #[trigger] after[i]).0 != (#[trigger] after[j]).0 by {
                    let a = if i < k {
                        i
                    } else {
                        i + 1
                    };
                    let b = if j < k {
                        j
                    } else {
                        j + 1
                    };
                    assert(before[a].0 != before[b].0);
                }
            }
        }
    }
}

/// An ASCII letter.
pub open spec fn ascii_letter(c: char) -> bool {
    0x41 <= c as u32 <= 0x5a || 0x61 <= c as u32 <= 0x7a
}

/// A name that a property may have: ASCII letters, digits, `-` and `_`, beginning with a letter or
/// `_`, in a namespace that is a URL.
pub open spec fn property_name(namespace: Seq<char>, name: Seq<char>) -> bool {
    &&& name.len() > 0
    &&& ascii_letter(name[0]) || name[0] == '_'
    &&& encode_utf8(namespace).len() <= 1024
    &&& parsed_url(namespace) is Some
    &&& forall|i: int|
        0 <= i < name.len() ==> ascii_letter(#[trigger] name[i]) || crate::text::digit(name[i])
            || name[i] == '-' || name[i] == '_'
}

fn is_property_name(namespace: &str, name: &str) -> (r: bool)
    ensures
        r == property_name(namespace@, name@),
{
    let v = chars(name);
    if v.len() == 0 {
        return false;
    }
    let first: u32 = v[0] as u32;
    let letter = (0x41 <= first && first <= 0x5a) || (0x61 <= first && first <= 0x7a);
    if !letter && v[0] != '_' {
        return false;
    }
    if namespace.as_bytes().len() > 1024 || parse_url(namespace).is_none() {
        return false;
    }
    let mut i: usize = 0;
    while i < v.len()
        invariant
            v@ == name@,
            i <= v.len(),
            forall|j: int|
                0 <= j < i ==> ascii_letter(#[trigger] name@[j]) || crate::text::digit(name@[j])
                    || name@[j] == '-' || name@[j] == '_',
        decreases v.len() - i,
    {
        let n: u32 = v[i] as u32;
        let plain = (0x41 <= n && n <= 0x5a) || (0x61 <= n && n <= 0x7a) || (48 <= n && n <= 57)
            || v[i] == '-' || v[i] == '_';
        if !plain {
            proof {
                assert(!ascii_letter(name@[i as int]));
            }
            return false;
        }
        i = i + 1;
    }
    true
}

/// The body that sets or removes a property.
pub open spec fn patch_body(namespace: Seq<char>, name: Seq<char>, value: Option<Seq<char>>) -> Seq<
    char,
> {
    let action = if value is Some {
        "set"@
    } else {
        "remove"@
    };
    "<d:propertyupdate xmlns:d=\"DAV:\"><d:"@ + action + "><d:prop><p:"@ + name + " xmlns:p=\""@
        + escaped(namespace) + "\">"@ + escaped(
        match value {
            Some(v) => v,
            None => Seq::empty(),
        },
    ) + "</p:"@ + name + "></d:prop></d:"@ + action + "></d:propertyupdate>"@
}

/// The privileges that can be granted.
pub open spec fn known_privileges() -> Seq<Seq<char>> {
    seq![
        "read"@,
        "write"@,
        "write-content"@,
        "write-properties"@,
        "bind"@,
        "unbind"@,
        "read-acl"@,
        "write-acl"@,
        "unlock"@,
        "read-current-user-privilege-set"@,
    ]
}

fn is_known_privilege(p: &str) -> (r: bool)
    ensures
        r == known_privileges().contains(p@),
{
    let list = vec![
        lit("read"),
        lit("write"),
        lit("write-content"),
        lit("write-properties"),
        lit("bind"),
        lit("unbind"),
        lit("read-acl"),
        lit("write-acl"),
        lit("unlock"),
        lit("read-current-user-privilege-set"),
    ];
    proof {
        assert(texts(list@) =~= known_privileges());
    }
    has_member(list.as_slice(), p)
}

/// The texts of a list of borrowed strings.
pub open spec fn str_texts(v: Seq<&str>) -> Seq<Seq<char>> {
    v.map_values(|s: &str| s@)
}

/// The principal that a text names on this server, or why it is none.
pub open spec fn principal_result(root: Seq<char>, principal: Seq<char>) -> std::result::Result<
    UrlParts,
    Seq<char>,
> {
    if !valid_url(root) {
        Err(url_refusal(root))
    } else {
        let r = parsed_url(root)->0;
        let joined = joined_url(r.text, principal);
        if joined is None || parsed_url(joined->0) is None {
            Err("Invalid principal URL."@)
        } else {
            match canonical(parsed_url(joined->0)->0) {
                Err(m) => Err(m),
                Ok(p) => if same_origin(p, r) && (stands_at(p.path, "/dav/pal/"@, 0) || stands_at(
                    p.path,
                    "/dav/principal/"@,
                    0,
                )) {
                    Ok(p)
                } else {
                    Err("Enter a principal URL on this storage server."@)
                },
            }
        }
    }
}

/// Whether an entry of an access list is about that principal.
pub open spec fn about(root: UrlParts, ace: Tree, principal: Seq<char>) -> bool {
    match ace.kid("principal"@) {
        None => false,
        Some(p) => match p.worth("href"@) {
            None => false,
            Some(h) => {
                let joined = joined_url(root.text, h);
                joined is Some && parsed_url(joined->0) is Some && canonical(
                    parsed_url(joined->0)->0,
                ) is Ok && trim_end_of(
                    canonical(parsed_url(joined->0)->0)->Ok_0.text,
                    '/',
                ) == trim_end_of(principal, '/')
            },
        },
    }
}

/// An entry that the server keeps to itself: it must not be submitted.
pub open spec fn fixed(ace: Tree) -> bool {
    ace.holds("protected"@) || ace.holds("inherited"@)
}

/// Whether the list holds an entry about the principal that cannot be changed.
pub open spec fn fixed_entry(root: UrlParts, list: Seq<Tree>, principal: Seq<char>) -> bool {
    exists|i: int|
        0 <= i < list.len() && (#[trigger] list[i]).is("ace"@) && about(root, list[i], principal)
            && fixed(list[i])
}

/// The entries that stay: every one about anybody else, but for those that the server keeps to
/// itself.
pub open spec fn kept_entries(root: UrlParts, list: Seq<Tree>, principal: Seq<char>) -> Seq<char>
    decreases list.len(),
{
    if list.len() == 0 {
        Seq::empty()
    } else {
        let before = kept_entries(root, list.drop_last(), principal);
        let ace = list.last();
        if ace.is("ace"@) && !about(root, ace, principal) && !fixed(ace) {
            before + written(ace)
        } else {
            before
        }
    }
}

/// The privileges as they are granted.
pub open spec fn grants_of(privileges: Seq<Seq<char>>) -> Seq<char>
    decreases privileges.len(),
{
    if privileges.len() == 0 {
        Seq::empty()
    } else {
        grants_of(privileges.drop_last()) + "<d:privilege><d:"@ + privileges.last()
            + "/></d:privilege>"@
    }
}

/// The body of an access list: the entries that stay, and the new one.
pub open spec fn acl_body(
    root: UrlParts,
    list: Seq<Tree>,
    principal: Seq<char>,
    privileges: Seq<Seq<char>>,
    remove: bool,
) -> Seq<char> {
    let kept = kept_entries(root, list, principal);
    let entries = if remove {
        kept
    } else {
        kept + "<d:ace><d:principal><d:href>"@ + escaped(principal)
            + "</d:href></d:principal><d:grant>"@ + grants_of(privileges) + "</d:grant></d:ace>"@
    };
    "<d:acl xmlns:d=\"DAV:\">"@ + entries + "</d:acl>"@
}

/// The first response of a tree.
pub open spec fn first_response(t: Tree) -> Option<Tree> {
    first_of(t.children, "response"@)
}

/// Why sharing cannot be changed, before the server is asked, if it cannot.
pub open spec fn share_failure(
    c: DavClient,
    n: Node,
    principal: Seq<char>,
    privileges: Seq<Seq<char>>,
) -> Option<Seq<char>> {
    if exists|i: int|
        0 <= i < privileges.len() && !known_privileges().contains(#[trigger] privileges[i]) {
        Some("Unsupported WebDAV privilege."@)
    } else if !c.supports_acl || !n.my_rights.may_share {
        Some("You cannot change sharing for this file."@)
    } else {
        match principal_result(c.root@, principal) {
            Err(m) => Some(m),
            Ok(_) => None,
        }
    }
}

fn is_about(root: &Link, ace: &Property, principal: &str) -> (r: bool)
    ensures
        r == about(root@, ace@, principal@),
{
    let href = match ace.child("principal") {
        Some(p) => match p.value("href") {
            Some(h) => h,
            None => {
                return false;
            },
        },
        None => {
            return false;
        },
    };
    let joined = match join_url(root.text.as_str(), href.as_str()) {
        Some(t) => t,
        None => {
            return false;
        },
    };
    let link = match parse_url(joined.as_str()) {
        Some(l) => l,
        None => {
            return false;
        },
    };
    match canonical_url(&link) {
        Ok(u) => same(
            trim_end_char(u.text.as_str(), '/').as_str(),
            trim_end_char(principal, '/').as_str(),
        ),
        Err(_) => false,
    }
}

impl DavClient {
    /// Set or remove a property of a resource.
    pub fn patch_property(&self, n: &FileNode, namespace: &str, name: &str, value: Option<&str>) -> (r:
        Result<DavRequest>)
        ensures
            if !property_name(namespace@, name@) {
                fails(r, "Invalid XML property name."@)
            } else {
                mutates(
                    *self,
                    "PROPPATCH"@,
                    n@,
                    seq![("Content-Type"@, "application/xml; charset=utf-8"@)],
                    Some(patch_body(namespace@, name@, opt_str(value))),
                    !n@.directory(),
                    r,
                )
            },
    {
        if !is_property_name(namespace, name) {
            return Err(other("Invalid XML property name."));
        }
        let action = if value.is_some() {
            "set"
        } else {
            "remove"
        };
        let content = match value {
            Some(v) => escape(v),
            None => escape(""),
        };
        proof {
            reveal_strlit("");
            assert(""@ =~= Seq::<char>::empty());
        }
        let space = escape(namespace);
        let xml = lit("<d:propertyupdate xmlns:d=\"DAV:\"><d:").concat(action).concat(
            "><d:prop><p:",
        ).concat(name).concat(" xmlns:p=\"").concat(space.as_str()).concat("\">").concat(
            content.as_str(),
        ).concat("</p:").concat(name).concat("></d:prop></d:").concat(action).concat(
            "></d:propertyupdate>",
        );
        let extra = vec![("Content-Type", lit("application/xml; charset=utf-8"))];
        proof {
            assert(header_texts(extra@) =~= seq![
                ("Content-Type"@, "application/xml; charset=utf-8"@),
            ]);
        }
        self.mutate("PROPPATCH", n, extra, Some(xml), !n.is_directory())
    }

    /// The privileges by which a resource is shared: to read it, and to write it where asked.
    pub fn shared_privileges(write: bool) -> (r: Vec<&'static str>)
        ensures
            str_texts(r@) == if write {
                seq!["read"@, "write"@]
            } else {
                seq!["read"@]
            },
    {
        let mut out: Vec<&'static str> = Vec::new();
        out.push("read");
        if write {
            out.push("write");
        }
        proof {
            assert(str_texts(out@) =~= if write {
                seq!["read"@, "write"@]
            } else {
                seq!["read"@]
            });
        }
        out
    }

    /// Whether sharing with a principal can be changed, and the principal's URL.
    pub fn share_begin(&self, n: &FileNode, principal: &str, privileges: &Vec<&str>) -> (r: Result<
        String,
    >)
        ensures
            match share_failure(*self, n@, principal@, str_texts(privileges@)) {
                Some(m) => fails(r, m),
                None => r is Ok && r->Ok_0@ == principal_result(self.root@, principal@)->Ok_0.text,
            },
    {
        let ghost all = str_texts(privileges@);
        let mut i: usize = 0;
        while i < privileges.len()
            invariant
                i <= privileges.len(),
                all == str_texts(privileges@),
                forall|j: int| 0 <= j < i ==> known_privileges().contains(#[trigger] all[j]),
            decreases privileges.len() - i,
        {
            if !is_known_privilege(privileges[i]) {
                proof {
                    assert(!known_privileges().contains(all[i as int]));
                }
                return Err(other("Unsupported WebDAV privilege."));
            }
            i = i + 1;
        }
        if !self.supports_acl || !n.my_rights.may_share {
            return Err(other("You cannot change sharing for this file."));
        }
        let root = match validated_url(self.root.as_str()) {
            Ok(l) => l,
            Err(e) => {
                return Err(e);
            },
        };
        let joined = match join_url(root.text.as_str(), principal) {
            Some(t) => t,
            None => {
                return Err(other("Invalid principal URL."));
            },
        };
        let link = match parse_url(joined.as_str()) {
            Some(l) => l,
            None => {
                return Err(other("Invalid principal URL."));
            },
        };
        let url = match canonical_url(&link) {
            Ok(u) => u,
            Err(e) => {
                return Err(e);
            },
        };
        if !shares_origin(&url, &root) || !(starts_with(url.path.as_str(), "/dav/pal/")
            || starts_with(url.path.as_str(), "/dav/principal/")) {
            return Err(other("Enter a principal URL on this storage server."));
        }
        Ok(url.text)
    }

    /// Change sharing with a principal, once the access list was read. Preserve every unrelated
    /// entry; never silently discard existing shares.
    pub fn share_privileges(
        &self,
        n: &FileNode,
        principal: &str,
        privileges: &Vec<&str>,
        remove: bool,
        tree: &Property,
    ) -> (r: Result<DavRequest>)
        ensures
            match share_failure(*self, n@, principal@, str_texts(privileges@)) {
                Some(m) => fails(r, m),
                None => {
                    let root = parsed_url(self.root@)->0;
                    let url = principal_result(self.root@, principal@)->Ok_0.text;
                    match first_response(tree@) {
                        None => fails(r, "Missing ACL response."@),
                        Some(response) => if failed(response) {
                            fails(r, "A WebDAV resource could not be loaded."@)
                        } else if !any_granted(response.children) {
                            fails(r, "No readable properties were returned for this resource."@)
                        } else {
                            match first_of(granted_properties(response.children), "acl"@) {
                                None => fails(r, "The server did not return the current ACL."@),
                                Some(acl) => if fixed_entry(root, acl.children, url) {
                                    fails(r, "This permission is protected or inherited."@)
                                } else {
                                    mutates(
                                        *self,
                                        "ACL"@,
                                        n@,
                                        seq![("Content-Type"@, "application/xml"@)],
                                        Some(
                                            acl_body(
                                                root,
                                                acl.children,
                                                url,
                                                str_texts(privileges@),
                                                remove,
                                            ),
                                        ),
                                        !n@.directory(),
                                        r,
                                    )
                                },
                            }
                        },
                    }
                },
            },
    {
        let url = match self.share_begin(n, principal, privileges) {
            Ok(u) => u,
            Err(e) => {
                return Err(e);
            },
        };
        let root = match validated_url(self.root.as_str()) {
            Ok(l) => l,
            Err(e) => {
                return Err(e);
            },
        };
        proof {
            children_are_trees(*tree);
        }
        let response = match prop(&tree.children, "response") {
            Some(p) => p,
            None => {
                return Err(other("Missing ACL response."));
            },
        };
        let props = match successful_properties(response) {
            Ok(p) => p,
            Err(e) => {
                return Err(e);
            },
        };
        let acl = match prop(&props, "acl") {
            Some(p) => p,
            None => {
                return Err(other("The server did not return the current ACL."));
            },
        };
        proof {
            children_are_trees(*acl);
        }
        let ghost all = acl@.children;
        let mut kept = String::new();
        let mut i: usize = 0;
        proof {
            assert(all.take(0) == Seq::<Tree>::empty());
        }
        while i < acl.children.len()
            invariant
                i <= acl.children.len(),
                all == acl@.children,
                all == trees(acl.children@),
                kept@ == kept_entries(root@, all.take(i as int), url@),
                forall|j: int|
                    0 <= j < i ==> !((#[trigger] all[j]).is("ace"@) && about(root@, all[j], url@)
                        && fixed(all[j])),
                share_failure(*self, n@, principal@, str_texts(privileges@)) is None,
                url@ == principal_result(self.root@, principal@)->Ok_0.text,
                Some(root@) == parsed_url(self.root@),
                first_response(tree@) == Some(response@),
                !failed(response@),
                any_granted(response@.children),
                first_of(granted_properties(response@.children), "acl"@) == Some(acl@),
            decreases acl.children.len() - i,
        {
            let ace = &acl.children[i];
            proof {
                assert(all[i as int] == ace@);
                assert(all.take(i + 1).drop_last() == all.take(i as int));
                assert(all.take(i + 1).last() == ace@);
            }
            if ace.is("ace") {
                let ours = is_about(&root, ace, url.as_str());
                let kept_by_server = ace.contains("protected") || ace.contains("inherited");
                if ours && kept_by_server {
                    return Err(other("This permission is protected or inherited."));
                }
                if !ours && !kept_by_server {
                    let text = ace.xml();
                    kept.append(text.as_str());
                }
            }
            i = i + 1;
        }
        proof {
            assert(all.take(all.len() as int) == all);
        }
        let mut entries = kept;
        if !remove {
            let grants = write_grants(privileges);
            let who = escape(url.as_str());
            entries = entries.concat("<d:ace><d:principal><d:href>").concat(who.as_str()).concat(
                "</d:href></d:principal><d:grant>",
            ).concat(grants.as_str()).concat("</d:grant></d:ace>");
        }
        let body = lit("<d:acl xmlns:d=\"DAV:\">").concat(entries.as_str()).concat("</d:acl>");
        let extra = vec![("Content-Type", lit("application/xml"))];
        proof {
            assert(header_texts(extra@) =~= seq![("Content-Type"@, "application/xml"@)]);
        }
        self.mutate("ACL", n, extra, Some(body), !n.is_directory())
    }
}

fn write_grants(privileges: &Vec<&str>) -> (r: String)
    ensures
        r@ == grants_of(str_texts(privileges@)),
{
    let ghost all = str_texts(privileges@);
    let mut out = String::new();
    let mut i: usize = 0;
    proof {
        assert(all.take(0) == Seq::<Seq<char>>::empty());
    }
    while i < privileges.len()
        invariant
            i <= privileges.len(),
            all == str_texts(privileges@),
            out@ == grants_of(all.take(i as int)),
        decreases privileges.len() - i,
    {
        proof {
            assert(all.take(i + 1).drop_last() == all.take(i as int));
            assert(all.take(i + 1).last() == privileges@[i as int]@);
        }
        out.append("<d:privilege><d:");
        out.append(privileges[i]);
        out.append("/></d:privilege>");
        i = i + 1;
    }
    proof {
        assert(all.take(all.len() as int) == all);
    }
    out
}

/// Sharing with somebody leaves everybody else's access be: the part of the new access list that
/// stays is the same whichever privileges are granted and whether any are.
pub proof fn other_shares_are_preserved(
    root: UrlParts,
    list: Seq<Tree>,
    principal: Seq<char>,
    privileges: Seq<Seq<char>>,
    remove: bool,
)
    ensures
        ({
            let head = "<d:acl xmlns:d=\"DAV:\">"@ + kept_entries(root, list, principal);
            head.is_prefix_of(acl_body(root, list, principal, privileges, remove))
        }),
        forall|i: int|
            0 <= i < list.len() && (#[trigger] list[i]).is("ace"@) && !about(
                root,
                list[i],
                principal,
            ) && !fixed(list[i]) ==> crate::text::has_text(
                kept_entries(root, list, principal),
                written(list[i]),
            ),
{
    let head = "<d:acl xmlns:d=\"DAV:\">"@ + kept_entries(root, list, principal);
    let body = acl_body(root, list, principal, privileges, remove);
    assert(head =~= body.subrange(0, head.len() as int));
    assert forall|i: int|
        0 <= i < list.len() && (#[trigger] list[i]).is("ace"@) && !about(root, list[i], principal)
            && !fixed(list[i]) implies crate::text::has_text(
        kept_entries(root, list, principal),
        written(list[i]),
    ) by {
        kept_entry_stands(root, list, principal, i);
    }
}

proof fn kept_entry_stands(root: UrlParts, list: Seq<Tree>, principal: Seq<char>, i: int)
    requires
        0 <= i < list.len(),
        list[i].is("ace"@),
        !about(root, list[i], principal),
        !fixed(list[i]),
    ensures
        crate::text::has_text(kept_entries(root, list, principal), written(list[i])),
    decreases list.len(),
{
    let before = kept_entries(root, list.drop_last(), principal);
    let all = kept_entries(root, list, principal);
    let t = written(list[i]);
    if i == list.len() - 1 {
        assert(all == before + t);
        assert(all.subrange(before.len() as int, (before.len() + t.len()) as int) =~= t);
        assert(stands_at(all, t, before.len() as int));
    } else {
        assert(list.drop_last()[i] == list[i]);
        kept_entry_stands(root, list.drop_last(), principal, i);
        let k = choose|k: int| #[trigger] stands_at(before, t, k);
        assert(all.subrange(k, k + t.len()) =~= before.subrange(k, k + t.len()));
        assert(stands_at(all, t, k));
    }
}

/// What is asked of every resource of a folder.
pub open spec fn list_body() -> Seq<char> {
    "<d:propfind xmlns:d=\"DAV:\"><d:prop><d:displayname/><d:resourcetype/><d:getetag/><d:getcontentlength/><d:getcontenttype/><d:getlastmodified/><d:creationdate/><d:current-user-privilege-set/><d:lockdiscovery/><d:quota-available-bytes/><d:quota-used-bytes/><d:sync-token/></d:prop></d:propfind>"@
}

/// What is asked of one resource.
pub open spec fn properties_body() -> Seq<char> {
    "<d:propfind xmlns:d=\"DAV:\"><d:allprop/><d:include><d:acl/><d:current-user-privilege-set/><d:lockdiscovery/><d:quota-available-bytes/><d:quota-used-bytes/><d:sync-token/></d:include></d:propfind>"@
}

/// What is asked of the changes of a folder.
pub open spec fn sync_body(token: Seq<char>) -> Seq<char> {
    "<d:sync-collection xmlns:d=\"DAV:\"><d:sync-token>"@ + escaped(token)
        + "</d:sync-token><d:sync-level>1</d:sync-level><d:prop><d:getetag/></d:prop></d:sync-collection>"@
}

/// Whether `r` is what asking about a resource gives.
pub open spec fn asks(
    c: DavClient,
    method: Seq<char>,
    value: Seq<char>,
    depth: Seq<char>,
    body: Seq<char>,
    r: Result<DavRequest>,
) -> bool {
    match reach_failure(c, method, value) {
        Some(m) => fails(r, m),
        None => {
            &&& r is Ok
            &&& goes_to(c, r->Ok_0.request, method, target(c, value))
            &&& r->Ok_0.headers@ == Map::<Seq<char>, Seq<char>>::empty().insert(
                header_key("Depth"@),
                depth,
            ).insert(header_key("Content-Type"@), "application/xml; charset=utf-8"@)
            &&& opt(r->Ok_0.body) == Some(body)
        },
    }
}

impl DavClient {
    fn ask(&self, method: &str, value: &str, depth: &str, body: String) -> (r: Result<DavRequest>)
        ensures
            asks(*self, method@, value@, depth@, body@, r),
    {
        match self.reach(method, value) {
            Ok(request) => Ok(
                DavRequest {
                    request,
                    headers: Headers::new().with("Depth", depth).with(
                        "Content-Type",
                        "application/xml; charset=utf-8",
                    ),
                    body: Some(body),
                },
            ),
            Err(e) => Err(e),
        }
    }

    /// Ask for everything that the server says of a resource.
    pub fn properties(&self, url: &str) -> (r: Result<DavRequest>)
        ensures
            asks(*self, "PROPFIND"@, url@, "0"@, properties_body(), r),
    {
        self.ask(
            "PROPFIND",
            url,
            "0",
            lit(
                "<d:propfind xmlns:d=\"DAV:\"><d:allprop/><d:include><d:acl/><d:current-user-privilege-set/><d:lockdiscovery/><d:quota-available-bytes/><d:quota-used-bytes/><d:sync-token/></d:include></d:propfind>",
            ),
        )
    }

    /// Ask for a folder and what is in it; [`DavClient::read_listing`] reads the answer.
    pub fn list(&self, url: &str) -> (r: Result<DavRequest>)
        ensures
            asks(*self, "PROPFIND"@, url@, "1"@, list_body(), r),
    {
        self.ask(
            "PROPFIND",
            url,
            "1",
            lit(
                "<d:propfind xmlns:d=\"DAV:\"><d:prop><d:displayname/><d:resourcetype/><d:getetag/><d:getcontentlength/><d:getcontenttype/><d:getlastmodified/><d:creationdate/><d:current-user-privilege-set/><d:lockdiscovery/><d:quota-available-bytes/><d:quota-used-bytes/><d:sync-token/></d:prop></d:propfind>",
            ),
        )
    }

    /// Ask for what changed in a folder since a token was given.
    pub fn sync_collection(&self, url: &str, token: &str) -> (r: Result<DavRequest>)
        ensures
            asks(*self, "REPORT"@, url@, "1"@, sync_body(token@), r),
    {
        let shown = escape(token);
        let body = lit("<d:sync-collection xmlns:d=\"DAV:\"><d:sync-token>").concat(
            shown.as_str(),
        ).concat(
            "</d:sync-token><d:sync-level>1</d:sync-level><d:prop><d:getetag/></d:prop></d:sync-collection>",
        );
        self.ask("REPORT", url, "1", body)
    }
}

} // verus!
