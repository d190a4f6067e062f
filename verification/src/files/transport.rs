//! Endpoints of a storage server and the rules on where credentials may go.

use crate::error::{fails, other, says, Result};
use crate::files::json::{Json, Value};
use crate::text::{find_text, has_char, has_member, lit, opt, replace_char, replace_text, replaced, replaced_text, same,
    texts, u64_text};
use vstd::prelude::*;
use vstd::string::*;
use vstd::utf8::encode_utf8;

verus! {

/// The host of a URL.
#[derive(Clone, Debug)]
pub enum Host {
    Domain(String),
    /// The four octets as one number.
    Ipv4(u32),
    /// The eight groups as one number.
    Ipv6(u128),
}

/// The model of a [`Host`].
pub enum HostName {
    Domain(Seq<char>),
    Ipv4(u32),
    Ipv6(u128),
}

impl View for Host {
    type V = HostName;

    open spec fn view(&self) -> HostName {
        match self {
            Host::Domain(s) => HostName::Domain(s@),
            Host::Ipv4(n) => HostName::Ipv4(*n),
            Host::Ipv6(n) => HostName::Ipv6(*n),
        }
    }
}

/// A URL taken apart.
#[derive(Clone, Debug)]
pub struct Link {
    /// The whole URL in its normal form.
    pub text: String,
    pub scheme: String,
    pub host: Option<Host>,
    /// The port, or the one that the scheme implies.
    pub port: Option<u16>,
    pub username: String,
    pub password: Option<String>,
    pub path: String,
    pub query: Option<String>,
    pub fragment: Option<String>,
}

/// The model of a [`Link`].
pub struct UrlParts {
    pub text: Seq<char>,
    pub scheme: Seq<char>,
    pub host: Option<HostName>,
    pub port: Option<u16>,
    pub username: Seq<char>,
    pub password: Option<Seq<char>>,
    pub path: Seq<char>,
    pub query: Option<Seq<char>>,
    pub fragment: Option<Seq<char>>,
}

impl View for Link {
    type V = UrlParts;

    open spec fn view(&self) -> UrlParts {
        UrlParts {
            text: self.text@,
            scheme: self.scheme@,
            host: match self.host {
                Some(h) => Some(h@),
                None => None,
            },
            port: self.port,
            username: self.username@,
            password: opt(self.password),
            path: self.path@,
            query: opt(self.query),
            fragment: opt(self.fragment),
        }
    }
}

/// What `url::Url::parse` makes of a text: `None` where it is no URL.
pub uninterp spec fn parsed_url(s: Seq<char>) -> Option<UrlParts>;

/// What `url::Url::join` makes of a reference against the URL that a text writes: the text of the
/// resolved URL, `None` where the base is no URL or the reference does not resolve.
pub uninterp spec fn joined_url(base: Seq<char>, reference: Seq<char>) -> Option<Seq<char>>;

/// A character that may stand in the name of an HTTP method.
pub open spec fn method_char(c: char) -> bool {
    ('0' <= c <= '9') || ('A' <= c <= 'Z') || ('a' <= c <= 'z') || c == '!' || c == '#' || c == '$'
        || c == '%' || c == '&' || c == '\'' || c == '*' || c == '+' || c == '-' || c == '.' || c
        == '^' || c == '_' || c == '`' || c == '|' || c == '~'
}

/// Whether a text names an HTTP method.
pub open spec fn method_token(s: Seq<char>) -> bool {
    s.len() > 0 && forall|i: int| 0 <= i < s.len() ==> method_char(#[trigger] s[i])
}

/// The methods that sessions and storages are asked by are methods.
pub(crate) proof fn plain_methods()
    ensures
        method_token("GET"@),
        method_token("POST"@),
        method_token("OPTIONS"@),
{
    reveal_strlit("GET");
    reveal_strlit("POST");
    reveal_strlit("OPTIONS");
}

/// The model of an optional link.
pub open spec fn opt_link(o: Option<Link>) -> Option<UrlParts> {
    match o {
        Some(l) => Some(l@),
        None => None,
    }
}

/// Calls `url::Url::parse` and reads each part by its accessor. What the parser accepts and how
/// it writes the parts depends on the text alone.
#[verifier::external_body]
pub(crate) fn parse_url(s: &str) -> (r: Option<Link>)
    ensures
        opt_link(r) == parsed_url(s@),
{
    let url = url::Url::parse(s).ok()?;
    let own = str::to_owned;
    let host = url.host().map(|h| match h {
        url::Host::Domain(d) => Host::Domain(own(d)),
        url::Host::Ipv4(a) => Host::Ipv4(a.into()),
        url::Host::Ipv6(a) => Host::Ipv6(a.into()),
    });
    Some(Link {
        scheme: own(url.scheme()), host, port: url.port_or_known_default(),
        username: own(url.username()), password: url.password().map(own),
        path: own(url.path()), query: url.query().map(own), fragment: url.fragment().map(own),
        text: url.into(),
    })
}

/// Calls `url::Url::join` on the URL that `base` writes. The result depends on the two texts
/// alone.
#[verifier::external_body]
pub(crate) fn join_url(base: &str, reference: &str) -> (r: Option<String>)
    ensures
        opt(r) == joined_url(base@, reference@),
{
    url::Url::parse(base).ok()?.join(reference).ok().map(String::from)
}

/// Calls `http::Method::from_bytes` and reports whether it accepts the text: one that is not empty
/// and holds nothing but letters, digits and the fifteen marks of a token.
#[verifier::external_body]
fn is_method(s: &str) -> (r: bool)
    ensures
        r == method_token(s@),
{
    reqwest::Method::from_bytes(s.as_bytes()).is_ok()
}

/// A byte that stands for itself in a form-encoded text.
pub open spec fn plain_byte(b: u8) -> bool {
    b == 0x2a || b == 0x2d || b == 0x2e || b == 0x5f || 0x30 <= b <= 0x39 || 0x41 <= b <= 0x5a
        || 0x61 <= b <= 0x7a
}

/// The upper-case hexadecimal digit of a number below sixteen.
pub open spec fn hex_digit(n: int) -> char {
    if n < 10 {
        (48 + n) as u8 as char
    } else {
        (55 + n) as u8 as char
    }
}

/// How one byte is form-encoded: as itself, a blank as a plus sign, any other as its number.
pub open spec fn form_byte(b: u8) -> Seq<char> {
    if plain_byte(b) {
        seq![b as char]
    } else if b == 0x20 {
        seq!['+']
    } else {
        seq!['%', hex_digit(b as int / 16), hex_digit(b as int % 16)]
    }
}

/// The form-encoded text of a run of bytes.
pub open spec fn form_encoded(bytes: Seq<u8>) -> Seq<char>
    decreases bytes.len(),
{
    if bytes.len() == 0 {
        Seq::empty()
    } else {
        form_encoded(bytes.drop_last()) + form_byte(bytes.last())
    }
}

/// Calls `url::form_urlencoded::byte_serialize`: letters, digits and `*-._` stand for themselves,
/// a blank becomes a plus sign and every other byte a percent sign and two hexadecimal digits.
#[verifier::external_body]
fn form_encode(s: &str) -> (r: String)
    ensures
        r@ == form_encoded(encode_utf8(s@)),
{
    url::form_urlencoded::byte_serialize(s.as_bytes()).collect()
}

/// An address of this machine.
pub open spec fn loopback(h: HostName) -> bool {
    match h {
        HostName::Domain(d) => d == "localhost"@,
        HostName::Ipv4(n) => n / 0x100_0000 == 127,
        HostName::Ipv6(n) => n == 1,
    }
}

/// A URL that credentials may be sent to: HTTPS, or HTTP on this machine, with a host and neither
/// credentials nor a fragment of its own.
pub open spec fn storage_url(value: Seq<char>, u: UrlParts) -> bool {
    &&& encode_utf8(value).len() <= 16384
    &&& u.scheme == "https"@ || (u.scheme == "http"@ && u.host is Some && loopback(u.host->0))
    &&& u.host is Some
    &&& u.username.len() == 0
    &&& u.password is None
    &&& u.fragment is None
}

/// The same scheme, host and port.
pub open spec fn same_origin(a: UrlParts, b: UrlParts) -> bool {
    a.scheme == b.scheme && a.host == b.host && a.port == b.port
}

impl Host {
    pub fn is_loopback(&self) -> (r: bool)
        ensures
            r == loopback(self@),
    {
        match self {
            Host::Domain(d) => same(d.as_str(), "localhost"),
            Host::Ipv4(n) => *n / 0x100_0000 == 127,
            Host::Ipv6(n) => *n == 1,
        }
    }

    fn is(&self, other: &Host) -> (r: bool)
        ensures
            r == (self@ == other@),
    {
        match (self, other) {
            (Host::Domain(a), Host::Domain(b)) => same(a.as_str(), b.as_str()),
            (Host::Ipv4(a), Host::Ipv4(b)) => *a == *b,
            (Host::Ipv6(a), Host::Ipv6(b)) => *a == *b,
            _ => false,
        }
    }
}

/// Whether two URLs have the same origin.
pub(crate) fn shares_origin(a: &Link, b: &Link) -> (r: bool)
    ensures
        r == same_origin(a@, b@),
{
    let hosts = match (&a.host, &b.host) {
        (Some(x), Some(y)) => x.is(y),
        (None, None) => true,
        _ => false,
    };
    let ports = match (a.port, b.port) {
        (Some(x), Some(y)) => x == y,
        (None, None) => true,
        _ => false,
    };
    same(a.scheme.as_str(), b.scheme.as_str()) && hosts && ports
}

/// What a user is told of an endpoint that is refused.
pub open spec fn url_refusal(value: Seq<char>) -> Seq<char> {
    if parsed_url(value) is None {
        "Enter a valid HTTPS storage URL."@
    } else {
        "Storage requires HTTPS and a URL without credentials or fragments (HTTP is allowed on loopback)."@
    }
}

/// Whether a text writes a URL that credentials may be sent to.
pub open spec fn valid_url(value: Seq<char>) -> bool {
    parsed_url(value) is Some && storage_url(value, parsed_url(value)->0)
}

/// The rule for a parsed URL: whether credentials may be sent to it.
pub fn may_hold_storage(value: &str, url: &Link) -> (r: bool)
    ensures
        r == storage_url(value@, url@),
{
    let local = match &url.host {
        Some(h) => h.is_loopback(),
        None => false,
    };
    value.as_bytes().len() <= 16384 && (same(url.scheme.as_str(), "https") || (same(
        url.scheme.as_str(),
        "http",
    ) && local)) && url.host.is_some() && url.username.as_str().is_empty()
        && url.password.is_none() && url.fragment.is_none()
}

/// Take an endpoint apart, where credentials may be sent to it.
pub fn validated_url(value: &str) -> (r: Result<Link>)
    ensures
        r is Ok <==> valid_url(value@),
        r matches Ok(l) ==> Some(l@) == parsed_url(value@),
        r matches Err(e) ==> says(e, url_refusal(value@)),
{
    match parse_url(value) {
        None => Err(other("Enter a valid HTTPS storage URL.")),
        Some(url) => {
            if may_hold_storage(value, &url) {
                Ok(url)
            } else {
                Err(
                    other(
                        "Storage requires HTTPS and a URL without credentials or fragments (HTTP is allowed on loopback).",
                    ),
                )
            }
        },
    }
}

/// A value as it is put into a URL template: everything but letters, digits and `*-._` in
/// percent form.
pub open spec fn encoded(value: Seq<char>) -> Seq<char> {
    replaced(form_encoded(encode_utf8(value)), '+', "%20"@)
}

/// The template with each key of the list, in braces, replaced by its value, one after another.
pub open spec fn filled(template: Seq<char>, values: Seq<(Seq<char>, Seq<char>)>) -> Seq<char>
    decreases values.len(),
{
    if values.len() == 0 {
        template
    } else {
        replaced_text(
            filled(template, values.drop_last()),
            "{"@ + values.last().0 + "}"@,
            encoded(values.last().1),
        )
    }
}

/// The texts of a list of pairs.
pub open spec fn pairs(v: Seq<(&str, &str)>) -> Seq<(Seq<char>, Seq<char>)> {
    v.map_values(|p: (&str, &str)| (p.0@, p.1@))
}

/// RFC 6570 simple expansion: encode even '/' in opaque identifiers.
pub fn expand(template: &str, values: &[(&str, &str)]) -> (r: Result<String>)
    ensures
        ({
            let out = filled(template@, pairs(values@));
            if out.contains('{') || out.contains('}') {
                fails(r, "Unsupported storage URL template."@)
            } else if valid_url(out) {
                r matches Ok(url) && url@ == out
            } else {
                fails(r, url_refusal(out))
            }
        }),
{
    let mut out = lit(template);
    let mut i: usize = 0;
    proof {
        assert(pairs(values@).take(0) == Seq::<(Seq<char>, Seq<char>)>::empty());
    }
    while i < values.len()
        invariant
            i <= values.len(),
            out@ == filled(template@, pairs(values@).take(i as int)),
        decreases values.len() - i,
    {
        let value = replace_char(form_encode(values[i].1).as_str(), '+', "%20");
        let key = lit("{").concat(values[i].0).concat("}");
        proof {
            let t = pairs(values@).take(i + 1);
            assert(t.drop_last() == pairs(values@).take(i as int));
            assert(t.last() == (values@[i as int].0@, values@[i as int].1@));
            reveal_strlit("{");
            assert(key@.len() > 0);
        }
        out = replace_text(out.as_str(), key.as_str(), value.as_str());
        i = i + 1;
    }
    proof {
        assert(pairs(values@).take(values@.len() as int) == pairs(values@));
    }
    if has_char(out.as_str(), '{') || has_char(out.as_str(), '}') {
        return Err(other("Unsupported storage URL template."));
    }
    match validated_url(out.as_str()) {
        Ok(_) => Ok(out),
        Err(e) => Err(e),
    }
}

/// A character that an encoded value can hold.
pub open spec fn opaque_char(c: char) -> bool {
    c == '%' || c == '*' || c == '-' || c == '.' || c == '_' || 0x30 <= c as u32 <= 0x39 || 0x41
        <= c as u32 <= 0x5a || 0x61 <= c as u32 <= 0x7a
}

proof fn form_encoded_chars(bytes: Seq<u8>)
    ensures
        forall|i: int|
            0 <= i < form_encoded(bytes).len() ==> opaque_char(#[trigger] form_encoded(bytes)[i])
                || form_encoded(bytes)[i] == '+',
    decreases bytes.len(),
{
    if bytes.len() > 0 {
        form_encoded_chars(bytes.drop_last());
        let head = form_encoded(bytes.drop_last());
        let tail = form_byte(bytes.last());
        assert forall|i: int| 0 <= i < form_encoded(bytes).len() implies opaque_char(
            #[trigger] form_encoded(bytes)[i],
        ) || form_encoded(bytes)[i] == '+' by {
            if i < head.len() {
                assert(form_encoded(bytes)[i] == head[i]);
            } else {
                assert(form_encoded(bytes)[i] == tail[i - head.len()]);
            }
        }
    }
}

proof fn replaced_chars(s: Seq<char>, c: char, t: Seq<char>, i: int)
    requires
        0 <= i < replaced(s, c, t).len(),
    ensures
        t.contains(replaced(s, c, t)[i]) || (s.contains(replaced(s, c, t)[i]) && replaced(
            s,
            c,
            t,
        )[i] != c),
    decreases s.len(),
{
    let head = replaced(s.drop_last(), c, t);
    if i < head.len() {
        replaced_chars(s.drop_last(), c, t, i);
        if s.drop_last().contains(head[i]) {
            let k = choose|k: int| 0 <= k < s.drop_last().len() && s.drop_last()[k] == head[i];
            assert(s[k] == head[i]);
        }
    } else if s.last() == c {
        assert(replaced(s, c, t)[i] == t[i - head.len()]);
    } else {
        assert(replaced(s, c, t)[i] == s[s.len() - 1]);
    }
}

/// A value put into a template stays one opaque piece of the URL: the encoded form holds no
/// separator, no brace and no blank, whatever the value holds.
pub proof fn encoded_values_are_opaque(value: Seq<char>)
    ensures
        forall|i: int| 0 <= i < encoded(value).len() ==> opaque_char(#[trigger] encoded(value)[i]),
        forall|c: char|
            c == '/' || c == '?' || c == '#' || c == '{' || c == '}' || c == ' ' || c == '+' || c
                == '&' ==> !encoded(value).contains(c),
{
    let form = form_encoded(encode_utf8(value));
    form_encoded_chars(encode_utf8(value));
    reveal_strlit("%20");
    assert forall|i: int| 0 <= i < encoded(value).len() implies opaque_char(
        #[trigger] encoded(value)[i],
    ) by {
        replaced_chars(form, '+', "%20"@, i);
        if form.contains(encoded(value)[i]) {
            let k = choose|k: int| 0 <= k < form.len() && form[k] == encoded(value)[i];
            assert(opaque_char(form[k]) || form[k] == '+');
        }
    }
}

/// The connection to one storage server: its origin and the credentials bound to it.
#[derive(Clone)]
pub struct Transport {
    pub origin: Link,
    pub user: String,
    pub secret: String,
}

/// A request that may carry the credentials of its connection.
pub struct Request {
    pub method: String,
    pub url: String,
    pub user: String,
    pub secret: String,
}

/// Whether the credentials of `t` may be sent to the URL that `url` writes.
pub open spec fn reaches(t: Transport, url: Seq<char>) -> bool {
    valid_url(url) && same_origin(parsed_url(url)->0, t.origin@)
}

/// Why a request is refused.
pub open spec fn request_refusal(t: Transport, method: Seq<char>, url: Seq<char>) -> Seq<char> {
    if !valid_url(url) {
        url_refusal(url)
    } else if !reaches(t, url) {
        "Storage endpoint changed origin; credentials were not sent."@
    } else {
        "Invalid HTTP method."@
    }
}

/// Credentials stay at one origin, however many answers lead on: all URLs that a connection reaches
/// share their scheme, host and port, and each is read over HTTPS, or is of this machine.
pub proof fn credentials_stay_at_their_origin(t: Transport, asked: Seq<char>, next: Seq<char>)
    requires
        reaches(t, asked),
        reaches(t, next),
    ensures
        same_origin(parsed_url(asked)->0, parsed_url(next)->0),
        ({
            let u = parsed_url(next)->0;
            &&& u.host is Some
            &&& u.scheme == "https"@ || (u.scheme == "http"@ && loopback(u.host->0))
            &&& u.username.len() == 0
            &&& u.password is None
        }),
{
}

impl Transport {
    pub fn new(endpoint: &str, user: &str, secret: &str) -> (r: Result<Self>)
        ensures
            r is Ok <==> valid_url(endpoint@),
            r matches Ok(t) ==> Some(t.origin@) == parsed_url(endpoint@) && t.user@ == user@
                && t.secret@ == secret@,
            r matches Err(e) ==> says(e, url_refusal(endpoint@)),
    {
        match validated_url(endpoint) {
            Ok(origin) => Ok(Transport { origin, user: lit(user), secret: lit(secret) }),
            Err(e) => Err(e),
        }
    }

    /// A request with the connection's credentials; they never leave its origin.
    pub fn request(&self, method: &str, url: &str) -> (r: Result<Request>)
        ensures
            r is Ok <==> reaches(*self, url@) && method_token(method@),
            r matches Ok(q) ==> Some(q.url@) == (match parsed_url(url@) {
                Some(u) => Some(u.text),
                None => None,
            }) && q.method@ == method@ && q.user == self.user && q.secret == self.secret,
            r matches Err(e) ==> says(e, request_refusal(*self, method@, url@)),
    {
        let link = match validated_url(url) {
            Ok(link) => link,
            Err(e) => {
                return Err(e);
            },
        };
        if !shares_origin(&link, &self.origin) {
            return Err(other("Storage endpoint changed origin; credentials were not sent."));
        }
        if !is_method(method) {
            return Err(other("Invalid HTTP method."));
        }
        Ok(
            Request {
                method: lit(method),
                url: link.text,
                user: self.user.clone(),
                secret: self.secret.clone(),
            },
        )
    }

    /// Where a discovery answer leads: `Some` location to ask next, `None` where the answer holds
    /// the session.
    pub fn discovered(&self, url: &str, status: u16, location: Option<&str>) -> (r: Result<
        Option<String>,
    >)
        ensures
            300 <= status < 400 ==> match location {
                None => fails(r, "Invalid discovery redirect."@),
                Some(to) => match joined_url(url@, to@) {
                    None => fails(r, "Invalid discovery redirect URL."@),
                    Some(next) => if reaches(*self, next) {
                        r matches Ok(Some(n)) && n@ == next
                    } else {
                        fails(r, request_refusal(*self, "GET"@, next))
                    },
                },
            },
            200 <= status < 300 ==> r matches Ok(None),
            !(200 <= status < 400) ==> fails(r, "File discovery failed (HTTP "@ + crate::text::decimal(status as nat) + ")."@,
            ),
    {
        if 300 <= status && status < 400 {
            let to = match location {
                Some(to) => to,
                None => {
                    return Err(other("Invalid discovery redirect."));
                },
            };
            let next = match join_url(url, to) {
                Some(next) => next,
                None => {
                    return Err(other("Invalid discovery redirect URL."));
                },
            };
            proof {
                plain_methods();
            }
            match self.request("GET", next.as_str()) {
                Ok(_) => Ok(Some(next)),
                Err(e) => Err(e),
            }
        } else if 200 <= status && status < 300 {
            Ok(None)
        } else {
            let code = u64_text(status as u64);
            Err(
                other(
                    lit("File discovery failed (HTTP ").concat(code.as_str()).concat(").").as_str(),
                ),
            )
        }
    }
}

/// The number of discovery answers that are followed.
pub const MAX_DISCOVERY: usize = 6;

/// A walk through discovery answers.
pub struct Discovery {
    pub url: String,
    pub asked: usize,
}

/// What a discovery answer leads to.
pub enum DiscoveryStep {
    /// Ask again at the URL that the walk now holds.
    Ask,
    /// Read the session from this answer.
    Read,
}

impl Discovery {
    /// A walk that asks at `endpoint` first.
    pub fn begin(endpoint: &str) -> (r: Result<Discovery>)
        ensures
            r is Ok <==> valid_url(endpoint@),
            r matches Ok(d) ==> d.asked == 0 && d.url@ == parsed_url(endpoint@)->0.text,
            r matches Err(e) ==> says(e, url_refusal(endpoint@)),
    {
        match validated_url(endpoint) {
            Ok(link) => Ok(Discovery { url: link.text, asked: 0 }),
            Err(e) => Err(e),
        }
    }

    /// Take one answer. RFC 8620 discovery can redirect; credentials stay on the original origin,
    /// and no more than six answers are followed.
    pub fn answered(&mut self, transport: &Transport, status: u16, location: Option<&str>) -> (r:
        Result<DiscoveryStep>)
        requires
            old(self).asked < MAX_DISCOVERY,
        ensures
            final(self).asked == old(self).asked + 1,
            200 <= status < 300 ==> (r matches Ok(DiscoveryStep::Read)) && final(self).url == old(
                self,
            ).url,
            !(200 <= status < 400) ==> fails(r, "File discovery failed (HTTP "@ + crate::text::decimal(status as nat) + ")."@,
            ),
            r matches Ok(DiscoveryStep::Ask) <==> (300 <= status < 400 && location is Some
                && joined_url(old(self).url@, location->0@) is Some && reaches(
                *transport,
                joined_url(old(self).url@, location->0@)->0,
            ) && old(self).asked + 1 < MAX_DISCOVERY),
            r matches Ok(DiscoveryStep::Ask) ==> final(self).url@ == joined_url(
                old(self).url@,
                location->0@,
            )->0 && reaches(*transport, final(self).url@),
            300 <= status < 400 && r is Err ==> says(
                r->Err_0,
                if location is None {
                    "Invalid discovery redirect."@
                } else if joined_url(old(self).url@, location->0@) is None {
                    "Invalid discovery redirect URL."@
                } else if !reaches(*transport, joined_url(old(self).url@, location->0@)->0) {
                    request_refusal(
                        *transport,
                        "GET"@,
                        joined_url(old(self).url@, location->0@)->0,
                    )
                } else {
                    "Too many file discovery redirects."@
                },
            ),
    {
        self.asked = self.asked + 1;
        match transport.discovered(self.url.as_str(), status, location) {
            Err(e) => Err(e),
            Ok(None) => Ok(DiscoveryStep::Read),
            Ok(Some(next)) => {
                self.url = next;
                if self.asked < MAX_DISCOVERY {
                    Ok(DiscoveryStep::Ask)
                } else {
                    Err(other("Too many file discovery redirects."))
                }
            },
        }
    }
}

/// A template of the session, resolved against the place where the session was found.
pub open spec fn resolved(base: Seq<char>, template: Seq<char>) -> Option<Seq<char>> {
    match joined_url(base, template) {
        Some(u) => Some(replaced_text(replaced_text(u, "%7B"@, "{"@), "%7D"@, "}"@)),
        None => None,
    }
}

/// The session with one of its templates resolved; `None` where it does not resolve.
pub open spec fn endpoint_resolved(base: Seq<char>, session: Value, key: Seq<char>) -> Option<
    Value,
> {
    match session.at(key).text() {
        None => Some(session),
        Some(template) => match resolved(base, template) {
            Some(u) => Some(session.put(key, Value::Text(u))),
            None => None,
        },
    }
}

/// The session with the templates of `keys` resolved, one after another.
pub open spec fn session_resolved(base: Seq<char>, session: Value, keys: Seq<Seq<char>>) -> Option<
    Value,
>
    decreases keys.len(),
{
    if keys.len() == 0 {
        Some(session)
    } else {
        match session_resolved(base, session, keys.drop_last()) {
            Some(s) => endpoint_resolved(base, s, keys.last()),
            None => None,
        }
    }
}

/// The endpoints that a session names.
pub open spec fn session_endpoints() -> Seq<Seq<char>> {
    seq!["apiUrl"@, "uploadUrl"@, "downloadUrl"@, "eventSourceUrl"@]
}

fn resolve_endpoint(base: &str, session: Json, key: &str) -> (r: Option<Json>)
    ensures
        match r {
            Some(s) => endpoint_resolved(base@, session@, key@) == Some(s@),
            None => endpoint_resolved(base@, session@, key@) is None,
        },
{
    let template = match session.text_at(key) {
        Some(t) => lit(t),
        None => {
            return Some(session);
        },
    };
    let joined = match join_url(base, template.as_str()) {
        Some(u) => u,
        None => {
            return None;
        },
    };
    proof {
        reveal_strlit("%7B");
        reveal_strlit("%7D");
    }
    let opened = replace_text(joined.as_str(), "%7B", "{");
    let url = replace_text(opened.as_str(), "%7D", "}");
    Some(session.put(key, Json::Text(url)))
}

/// Resolve relative templates against the final discovery location, including after redirects.
/// Mail search and file push use these too.
pub fn resolve_session(base: &str, session: Json) -> (r: Result<Json>)
    ensures
        match session_resolved(base@, session@, session_endpoints()) {
            Some(s) => r matches Ok(j) && j@ == s,
            None => fails(r, "Invalid session endpoint."@),
        },
{
    proof {
        let keys = session_endpoints();
        assert(keys.drop_last() =~= seq!["apiUrl"@, "uploadUrl"@, "downloadUrl"@]);
        assert(keys.drop_last().drop_last() =~= seq!["apiUrl"@, "uploadUrl"@]);
        assert(keys.drop_last().drop_last().drop_last() =~= seq!["apiUrl"@]);
        assert(keys.drop_last().drop_last().drop_last().drop_last() =~= Seq::<Seq<char>>::empty());
        reveal_with_fuel(session_resolved, 6);
    }
    let api = match resolve_endpoint(base, session, "apiUrl") {
        Some(s) => s,
        None => {
            return Err(other("Invalid session endpoint."));
        },
    };
    let upload = match resolve_endpoint(base, api, "uploadUrl") {
        Some(s) => s,
        None => {
            return Err(other("Invalid session endpoint."));
        },
    };
    let download = match resolve_endpoint(base, upload, "downloadUrl") {
        Some(s) => s,
        None => {
            return Err(other("Invalid session endpoint."));
        },
    };
    match resolve_endpoint(base, download, "eventSourceUrl") {
        Some(s) => Ok(s),
        None => Err(other("Invalid session endpoint.")),
    }
}

/// What a user is told of an answer that is no success.
pub open spec fn status_words(status: u16) -> Seq<char> {
    if status == 401 {
        "Storage authentication expired. Reconnect the account."@
    } else if status == 403 {
        "You do not have permission for this file operation."@
    } else if status == 404 {
        "File storage or the requested file was not found."@
    } else if status == 409 {
        "The destination or file hierarchy conflicts with this operation."@
    } else if status == 412 {
        "The file changed on the server. Refresh before retrying."@
    } else if status == 423 {
        "The file is locked. Refresh or release your lock before editing."@
    } else if status == 413 || status == 507 {
        "The file exceeds the server size limit or storage quota."@
    } else if status == 429 {
        "Too many requests. Wait before refreshing."@
    } else {
        "The file server rejected the request. Refresh before retrying."@
    }
}

/// Whether an answer is a success, and what is told of it where it is not.
pub fn check_status(status: u16) -> (r: Result<()>)
    ensures
        r is Ok <==> 200 <= status < 300,
        r matches Err(e) ==> says(e, status_words(status)),
{
    if 200 <= status && status < 300 {
        return Ok(());
    }
    Err(
        other(
            match status {
                401 => "Storage authentication expired. Reconnect the account.",
                403 => "You do not have permission for this file operation.",
                404 => "File storage or the requested file was not found.",
                409 => "The destination or file hierarchy conflicts with this operation.",
                412 => "The file changed on the server. Refresh before retrying.",
                423 => "The file is locked. Refresh or release your lock before editing.",
                413 | 507 => "The file exceeds the server size limit or storage quota.",
                429 => "Too many requests. Wait before refreshing.",
                _ => "The file server rejected the request. Refresh before retrying.",
            },
        ),
    )
}

/// What a user is told of a request that got no answer.
pub fn send_failure(timed_out: bool) -> (r: crate::error::CoreError)
    ensures
        says(
            r,
            if timed_out {
                "File request timed out. Refresh before retrying a change."@
            } else {
                "Could not reach file storage."@
            },
        ),
{
    if timed_out {
        other("File request timed out. Refresh before retrying a change.")
    } else {
        other("Could not reach file storage.")
    }
}

/// Whether `id` answers the text `k` for the record `r`.
pub open spec fn keyed<T, F: Fn(&T) -> &str>(id: F, r: T, k: Seq<char>) -> bool {
    exists|s: &str| #[trigger] id.ensures((&r,), s) && s@ == k
}

/// Whether `keys` are the keys of `records`, one by one.
pub open spec fn keys_of<T, F: Fn(&T) -> &str>(
    id: F,
    records: Seq<T>,
    keys: Seq<Seq<char>>,
) -> bool {
    keys.len() == records.len() && forall|i: int|
        0 <= i < records.len() ==> keyed(id, #[trigger] records[i], keys[i])
}

/// A record that nobody asked for, or whose key came before.
pub open spec fn stray(ids: Seq<Seq<char>>, keys: Seq<Seq<char>>, k: int) -> bool {
    !ids.contains(keys[k]) || keys.take(k).contains(keys[k])
}

/// Whether any record is one that nobody asked for or that came before.
pub open spec fn unexpected(ids: Seq<Seq<char>>, keys: Seq<Seq<char>>) -> bool {
    exists|k: int| 0 <= k < keys.len() && #[trigger] stray(ids, keys, k)
}

/// The positions of the records in the order in which they were asked for. An id that was asked
/// for twice is answered once; one without a record is passed over.
pub open spec fn in_order(ids: Seq<Seq<char>>, keys: Seq<Seq<char>>) -> Seq<int>
    decreases ids.len(),
{
    if ids.len() == 0 {
        Seq::empty()
    } else {
        let before = in_order(ids.drop_last(), keys);
        let id = ids.last();
        if keys.contains(id) && !ids.drop_last().contains(id) {
            before.push(keys.index_of(id))
        } else {
            before
        }
    }
}

/// The records at the given positions.
pub open spec fn pick<T>(records: Seq<T>, positions: Seq<int>) -> Seq<T> {
    positions.map_values(|k: int| records[k])
}

/// RFC 8620 /get may return records in any order. Preserve the /query order
/// across pages, allowing records deleted between query and get to be absent.
pub fn ordered_records<T, F: Fn(&T) -> &str>(
    ids: &[String],
    records: Vec<T>,
    id: F,
) -> (r: Result<Vec<T>>)
    requires
        forall|x: T| id.requires((&x,)),
    ensures
        exists|keys: Seq<Seq<char>>| #[trigger]
            keys_of(id, records@, keys) && match r {
                Ok(out) => !unexpected(texts(ids@), keys) && out@ == pick(
                    records@,
                    in_order(texts(ids@), keys),
                ),
                Err(e) => unexpected(texts(ids@), keys) && says(
                    e,
                    "JMAP returned an unexpected or duplicate record."@,
                ),
            },
{
    let mut keys: Vec<String> = Vec::new();
    let mut i: usize = 0;
    while i < records.len()
        invariant
            i <= records.len(),
            keys@.len() == i,
            forall|x: T| id.requires((&x,)),
            forall|k: int| 0 <= k < i ==> keyed(id, #[trigger] records@[k], keys@[k]@),
        decreases records.len() - i,
    {
        let key = id(&records[i]);
        let owned = lit(key);
        proof {
            assert(keyed(id, records@[i as int], key@));
        }
        keys.push(owned);
        i = i + 1;
    }
    let ghost ks = texts(keys@);
    let ghost wanted = texts(ids@);
    proof {
        assert forall|k: int| 0 <= k < records@.len() implies keyed(
            id,
            #[trigger] records@[k],
            ks[k],
        ) by {}
        assert(keys_of(id, records@, ks));
    }
    i = 0;
    while i < keys.len()
        invariant
            i <= keys.len(),
            ks == texts(keys@),
            wanted == texts(ids@),
            keys_of(id, records@, ks),
            forall|k: int| 0 <= k < i ==> !#[trigger] stray(wanted, ks, k),
        decreases keys.len() - i,
    {
        let first = find_text(keys.as_slice(), keys[i].as_str());
        proof {
            assert(ks[i as int] == keys@[i as int]@);
            let f = first->0;
            if f < i {
                assert(ks.take(i as int)[f as int] == ks[i as int]);
            } else if ks.take(i as int).contains(ks[i as int]) {
                let j = choose|j: int| 0 <= j < i && ks.take(i as int)[j] == ks[i as int];
                assert(ks[j] == ks[i as int]);
            }
        }
        let repeated = match first {
            Some(f) => f < i,
            None => false,
        };
        if repeated || !has_member(ids, keys[i].as_str()) {
            proof {
                assert(stray(wanted, ks, i as int));
            }
            return Err(other("JMAP returned an unexpected or duplicate record."));
        }
        i = i + 1;
    }
    proof {
        assert(!unexpected(wanted, ks));
        assert forall|a: int, b: int| 0 <= a < b < ks.len() implies ks[a] != ks[b] by {
            assert(!stray(wanted, ks, b));
            if ks[a] == ks[b] {
                assert(ks.take(b)[a] == ks[b]);
            }
        }
    }
    let mut slots: Vec<Option<T>> = Vec::new();
    let ghost all = records@;
    for x in it: records
        invariant
            slots@.len() == it.history().len(),
            forall|k: int| 0 <= k < slots@.len() ==> slots@[k] == Some(it.history()[k]),
    {
        slots.push(Some(x));
    }
    let mut out: Vec<T> = Vec::new();
    i = 0;
    proof {
        assert(wanted.take(0) == Seq::<Seq<char>>::empty());
        assert(out@ =~= pick(all, in_order(wanted.take(0), ks)));
        assert(slots@.len() == all.len());
    }
    while i < ids.len()
        invariant
            i <= ids.len(),
            ks == texts(keys@),
            wanted == texts(ids@),
            slots@.len() == all.len(),
            all.len() == ks.len(),
            forall|a: int, b: int| 0 <= a < b < ks.len() ==> ks[a] != ks[b],
            out@ == pick(all, in_order(wanted.take(i as int), ks)),
            forall|k: int|
                0 <= k < slots@.len() ==> #[trigger] slots@[k] == (if wanted.take(
                    i as int,
                ).contains(ks[k]) {
                    None
                } else {
                    Some(all[k])
                }),
        decreases ids.len() - i,
    {
        let ghost before = wanted.take(i as int);
        let ghost after = wanted.take(i + 1);
        let ghost this = wanted[i as int];
        proof {
            assert(after.drop_last() == before);
            assert(after.last() == this);
            assert(this == ids@[i as int]@);
            assert forall|x: Seq<char>| after.contains(x) == (before.contains(x) || x == this) by {
                if before.contains(x) {
                    let j = choose|j: int| 0 <= j < before.len() && before[j] == x;
                    assert(after[j] == x);
                }
                if x == this {
                    assert(after[i as int] == x);
                }
                if after.contains(x) {
                    let j = choose|j: int| 0 <= j < after.len() && after[j] == x;
                    if j < i {
                        assert(before[j] == x);
                    }
                }
            }
        }
        match find_text(keys.as_slice(), ids[i].as_str()) {
            Some(k) => {
                proof {
                    assert(ks.contains(this)) by {
                        assert(ks[k as int] == this);
                    }
                    assert(ks.index_of(this) == k) by {
                        let j = ks.index_of(this);
                        assert(0 <= j < ks.len() && ks[j] == this);
                    }
                }
                let ghost held = slots@;
                let slot = &mut slots[k];
                let taken = slot.take();
                proof {
                    assert(slots@ == held.update(k as int, None));
                }
                if let Some(x) = taken {
                    let ghost so_far = out@;
                    out.push(x);
                    proof {
                        assert(!before.contains(this));
                        assert(out@ =~= pick(all, in_order(after, ks)));
                    }
                } else {
                    proof {
                        assert(before.contains(this));
                    }
                }
            },
            None => {},
        }
        i = i + 1;
    }
    proof {
        assert(wanted.take(wanted.len() as int) == wanted);
    }
    Ok(out)
}

/// Records are put in order by their own positions, and only those that were asked for.
pub(crate) proof fn in_order_positions(ids: Seq<Seq<char>>, keys: Seq<Seq<char>>)
    ensures
        forall|j: int|
            0 <= j < in_order(ids, keys).len() ==> 0 <= #[trigger] in_order(ids, keys)[j]
                < keys.len() && ids.contains(keys[in_order(ids, keys)[j]]),
    decreases ids.len(),
{
    if ids.len() > 0 {
        in_order_positions(ids.drop_last(), keys);
        let before = in_order(ids.drop_last(), keys);
        assert forall|j: int| 0 <= j < in_order(ids, keys).len() implies 0 <= #[trigger] in_order(
            ids,
            keys,
        )[j] < keys.len() && ids.contains(keys[in_order(ids, keys)[j]]) by {
            if j < before.len() {
                let x = keys[before[j]];
                assert(ids.drop_last().contains(x));
                let m = choose|m: int| 0 <= m < ids.drop_last().len() && ids.drop_last()[m] == x;
                assert(ids[m] == x);
            } else {
                assert(keys.contains(ids.last()));
                assert(ids[ids.len() - 1] == keys[in_order(ids, keys)[j]]);
            }
        }
    }
}

/// A page answers only what was asked for, and answers all of it that the server returned: every
/// record handed out has an id that was asked for, and every record whose id was asked for is
/// handed out.
pub proof fn pages_answer_what_was_asked(ids: Seq<Seq<char>>, keys: Seq<Seq<char>>)
    requires
        !unexpected(ids, keys),
    ensures
        forall|j: int|
            0 <= j < in_order(ids, keys).len() ==> ids.contains(
                keys[#[trigger] in_order(ids, keys)[j]],
            ),
        forall|k: int| 0 <= k < keys.len() ==> #[trigger] in_order(ids, keys).contains(k),
{
    in_order_positions(ids, keys);
    assert forall|a: int, b: int| 0 <= a < b < keys.len() implies keys[a] != keys[b] by {
        assert(!stray(ids, keys, b));
        if keys[a] == keys[b] {
            assert(keys.take(b)[a] == keys[b]);
        }
    }
    assert forall|k: int| 0 <= k < keys.len() implies #[trigger] in_order(ids, keys).contains(
        k,
    ) by {
        assert(!stray(ids, keys, k));
        answered_once(ids, keys, k);
    }
}

proof fn answered_once(ids: Seq<Seq<char>>, keys: Seq<Seq<char>>, k: int)
    requires
        0 <= k < keys.len(),
        ids.contains(keys[k]),
        forall|a: int, b: int| 0 <= a < b < keys.len() ==> keys[a] != keys[b],
    ensures
        in_order(ids, keys).contains(k),
    decreases ids.len(),
{
    let before = in_order(ids.drop_last(), keys);
    if ids.drop_last().contains(keys[k]) {
        answered_once(ids.drop_last(), keys, k);
        let j = choose|j: int| 0 <= j < before.len() && before[j] == k;
        assert(in_order(ids, keys)[j] == k);
    } else {
        let m = choose|m: int| 0 <= m < ids.len() && ids[m] == keys[k];
        if m < ids.len() - 1 {
            assert(ids.drop_last()[m] == keys[k]);
        }
        assert(ids.last() == keys[k]);
        assert(keys.contains(ids.last()));
        assert(keys.index_of(ids.last()) == k) by {
            let j = keys.index_of(ids.last());
            assert(keys[j] == keys[k]);
        }
        assert(in_order(ids, keys)[before.len() as int] == k);
    }
}

} // verus!
