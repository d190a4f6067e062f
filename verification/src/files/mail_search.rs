//! Read-only JMAP Mail attachment search across server history. Results remain
//! transient, so changing a Files search never widens Mail's synchronization
//! window or inserts duplicate messages into its projection.

use crate::error::{fails, other, says, Result};
use crate::files::jmap::{fill_failure, CORE};
use crate::files::dates::{read_rfc3339, rfc3339_moment};
use crate::files::json::{place_is, views, Json, Value};
use crate::files::listing::{chunk, id_list, read_ids};
use crate::files::transport::{
    expand, filled, in_order, keyed, keys_of, ordered_records, pairs, parsed_url, pick,
    plain_methods, reaches, request_refusal, unexpected, Request, Transport,
};
use crate::files::PAGE_SIZE;
use crate::text::{join, join_texts, lit, opt_str, same, texts};
use vstd::prelude::*;
use vstd::string::*;
use vstd::utf8::encode_utf8;

verus! {

pub const MAIL: &'static str = "urn:ietf:params:jmap:mail";

/// Where an attachment that is not here lies on the server.
#[derive(Clone, Debug)]
pub struct RemoteAttachment {
    pub account: String,
    pub email: String,
    pub blob: String,
}

/// An attachment of a message.
#[derive(Clone, Debug)]
pub struct AttachmentFile {
    pub remote: Option<RemoteAttachment>,
    pub id: i64,
    pub account_id: i64,
    pub thread_id: Option<i64>,
    pub filename: String,
    pub media_type: String,
    pub size: u64,
    pub sender: String,
    pub subject: String,
    pub date: i64,
    pub cached: bool,
}

/// The model of a [`RemoteAttachment`].
pub struct Remote {
    pub account: Seq<char>,
    pub email: Seq<char>,
    pub blob: Seq<char>,
}

/// The model of an [`AttachmentFile`].
#[verifier::ext_equal]
pub struct Attachment {
    pub remote: Option<Remote>,
    pub id: i64,
    pub account_id: i64,
    pub thread_id: Option<i64>,
    pub filename: Seq<char>,
    pub media_type: Seq<char>,
    pub size: u64,
    pub sender: Seq<char>,
    pub subject: Seq<char>,
    pub date: i64,
    pub cached: bool,
}

impl View for RemoteAttachment {
    type V = Remote;

    open spec fn view(&self) -> Remote {
        Remote { account: self.account@, email: self.email@, blob: self.blob@ }
    }
}

impl View for AttachmentFile {
    type V = Attachment;

    open spec fn view(&self) -> Attachment {
        Attachment {
            remote: match self.remote {
                Some(r) => Some(r@),
                None => None,
            },
            id: self.id,
            account_id: self.account_id,
            thread_id: self.thread_id,
            filename: self.filename@,
            media_type: self.media_type@,
            size: self.size,
            sender: self.sender@,
            subject: self.subject@,
            date: self.date,
            cached: self.cached,
        }
    }
}

/// The models of a list of attachments.
pub open spec fn attachments(v: Seq<AttachmentFile>) -> Seq<Attachment> {
    v.map_values(|a: AttachmentFile| a@)
}

impl AttachmentFile {
    /// The same attachment again.
    pub fn copy(&self) -> (r: AttachmentFile)
        ensures
            r@ == self@,
    {
        AttachmentFile {
            remote: match &self.remote {
                Some(r) => Some(
                    RemoteAttachment {
                        account: r.account.clone(),
                        email: r.email.clone(),
                        blob: r.blob.clone(),
                    },
                ),
                None => None,
            },
            id: self.id,
            account_id: self.account_id,
            thread_id: self.thread_id,
            filename: self.filename.clone(),
            media_type: self.media_type.clone(),
            size: self.size,
            sender: self.sender.clone(),
            subject: self.subject.clone(),
            date: self.date,
            cached: self.cached,
        }
    }
}

/// A search of the mail on a server.
#[derive(Clone)]
pub struct MailSearch {
    pub transport: Transport,
    pub session: Json,
    pub account: String,
    pub local_account: i64,
}

/// A page of attachments.
pub struct Page {
    pub files: Vec<AttachmentFile>,
    pub next: Option<usize>,
    pub state: String,
}

/// The account that is searched: the preferred one, else the session's primary one.
pub open spec fn searched_account(session: Value, preferred: Option<Seq<char>>) -> Option<Seq<char>> {
    match preferred {
        Some(id) => Some(id),
        None => session.at("primaryAccounts"@).at(MAIL@).text(),
    }
}

/// Why a session cannot be searched, if it cannot.
pub open spec fn session_failure(t: Transport, session: Value, preferred: Option<Seq<char>>) -> Option<
    Seq<char>,
> {
    if !session.at("capabilities"@).has(MAIL@) {
        Some("This server does not advertise JMAP Mail."@)
    } else if searched_account(session, preferred) is None {
        Some("No mail account is available."@)
    } else if !session.at("accounts"@).at(searched_account(session, preferred)->0).at(
        "accountCapabilities"@,
    ).has(MAIL@) {
        Some("The selected account does not support JMAP Mail."@)
    } else if session.at("apiUrl"@).text() is None {
        Some("Missing mail API URL."@)
    } else if !reaches(t, session.at("apiUrl"@).text()->0) {
        Some(request_refusal(t, "POST"@, session.at("apiUrl"@).text()->0))
    } else {
        None
    }
}

/// The body of a mail call.
pub open spec fn mail_envelope(method: Seq<char>, args: Value) -> Value {
    Value::empty().with(
        "using"@,
        Value::none().and(Value::Text(CORE@)).and(Value::Text(MAIL@)),
    ).with(
        "methodCalls"@,
        Value::none().and(
            Value::none().and(Value::Text(method)).and(args).and(Value::Text("attachments"@)),
        ),
    )
}

/// The answer to our call among the rows of a response.
pub open spec fn our_row(rows: Seq<Value>) -> Option<Value>
    decreases rows.len(),
{
    if rows.len() == 0 {
        None
    } else if rows[0].item(2) == Value::Text("attachments"@) {
        Some(rows[0])
    } else {
        our_row(rows.skip(1))
    }
}

/// What a response answers, or why it answers nothing.
pub open spec fn mail_answer(response: Value, method: Seq<char>, account: Seq<char>) -> std::result::Result<
    Value,
    Seq<char>,
> {
    let row = match response.at("methodResponses"@).items() {
        Some(rows) => our_row(rows),
        None => None,
    };
    match row {
        None => Err("Missing mail search response."@),
        Some(row) => if row.item(0) != Value::Text(method) || row.item(1).at("accountId"@)
            != Value::Text(account) {
            Err(
                "Mail search failed: "@ + match row.item(1).at("type"@).text() {
                    Some(kind) => kind,
                    None => "invalid response"@,
                },
            )
        } else {
            Ok(row.item(1))
        },
    }
}

/// The arguments of a search for one page of messages with attachments, the newest first.
pub open spec fn search_args(text: Seq<char>, position: usize) -> Value {
    let filter = Value::empty().with("hasAttachment"@, Value::Bool(true));
    Value::empty().with(
        "filter"@,
        if text.len() == 0 {
            filter
        } else {
            filter.with("text"@, Value::Text(text))
        },
    ).with("position"@, Value::Unsigned(position as u64)).with(
        "limit"@,
        Value::Unsigned(PAGE_SIZE as u64),
    ).with(
        "sort"@,
        Value::none().and(
            Value::empty().with("property"@, Value::Text("receivedAt"@)).with(
                "isAscending"@,
                Value::Bool(false),
            ),
        ),
    ).with("collapseThreads"@, Value::Bool(false))
}

/// Whether a message passes a filter: it meets every condition. A message is known by whether it has
/// attachments and by the texts that are found in it.
pub open spec fn mail_passes(
    filter: Value,
    has_attachment: bool,
    finds: spec_fn(Seq<char>) -> bool,
) -> bool {
    filter is Object && forall|i: int|
        0 <= i < filter->Object_0.len() ==> {
            let (key, value) = #[trigger] filter->Object_0[i];
            if key == "hasAttachment"@ {
                value == Value::Bool(has_attachment)
            } else if key == "text"@ {
                value is Text && finds(value->Text_0)
            } else {
                false
            }
        }
}

/// A search asks for the messages with attachments in which its text is found, the newest first, in
/// pages, each message by itself.
pub proof fn searches_ask_for_attachments(
    text: Seq<char>,
    position: usize,
    has_attachment: bool,
    finds: spec_fn(Seq<char>) -> bool,
)
    ensures
        ({
            let args = search_args(text, position);
            let order = args.at("sort"@).item(0);
            &&& mail_passes(args.at("filter"@), has_attachment, finds) <==> has_attachment && (
            text.len() > 0 ==> finds(text))
            &&& args.at("position"@) == Value::Unsigned(position as u64)
            &&& args.at("limit"@) == Value::Unsigned(PAGE_SIZE as u64)
            &&& args.at("collapseThreads"@) == Value::Bool(false)
            &&& args.at("sort"@).items() is Some && args.at("sort"@).items()->0.len() == 1
            &&& order.at("property"@) == Value::Text("receivedAt"@)
            &&& order.at("isAscending"@) == Value::Bool(false)
        }),
{
    reveal_strlit("filter");
    reveal_strlit("position");
    reveal_strlit("limit");
    reveal_strlit("sort");
    reveal_strlit("collapseThreads");
    reveal_strlit("hasAttachment");
    reveal_strlit("text");
    reveal_strlit("property");
    reveal_strlit("isAscending");
    assert("filter"@.len() == 6 && "position"@.len() == 8 && "limit"@.len() == 5);
    assert("sort"@.len() == 4 && "collapseThreads"@.len() == 15);
    assert("hasAttachment"@.len() == 13 && "text"@.len() == 4);
    assert("property"@.len() == 8 && "isAscending"@.len() == 11);
    let args = search_args(text, position);
    let fields = args->Object_0;
    place_is(fields, "filter"@, 0);
    place_is(fields, "position"@, 1);
    place_is(fields, "limit"@, 2);
    place_is(fields, "sort"@, 3);
    place_is(fields, "collapseThreads"@, 4);
    let order = args.at("sort"@).item(0)->Object_0;
    place_is(order, "property"@, 0);
    place_is(order, "isAscending"@, 1);
    let filter = args.at("filter"@)->Object_0;
    assert(filter[0] == ("hasAttachment"@, Value::Bool(true)));
    if text.len() > 0 {
        assert(filter[1] == ("text"@, Value::Text(text)));
    }
}

impl MailSearch {
    /// Take up a session for searching.
    pub fn from_session(
        transport: Transport,
        session: Json,
        local_account: i64,
        preferred: Option<&str>,
    ) -> (r: Result<Self>)
        ensures
            match session_failure(transport, session@, opt_str(preferred)) {
                Some(m) => fails(r, m),
                None => r is Ok && r->Ok_0.transport == transport && r->Ok_0.session == session
                    && Some(r->Ok_0.account@) == searched_account(session@, opt_str(preferred))
                    && r->Ok_0.local_account == local_account,
            },
    {
        let advertised = match session.get("capabilities") {
            Some(c) => c.get(MAIL).is_some(),
            None => false,
        };
        if !advertised {
            return Err(other("This server does not advertise JMAP Mail."));
        }
        let primary = match session.get("primaryAccounts") {
            Some(p) => p.text_at(MAIL),
            None => None,
        };
        let account = match preferred {
            Some(id) => lit(id),
            None => match primary {
                Some(id) => lit(id),
                None => {
                    return Err(other("No mail account is available."));
                },
            },
        };
        let able = match session.get("accounts") {
            Some(a) => match a.get(account.as_str()) {
                Some(a) => match a.get("accountCapabilities") {
                    Some(c) => c.get(MAIL).is_some(),
                    None => false,
                },
                None => false,
            },
            None => false,
        };
        if !able {
            return Err(other("The selected account does not support JMAP Mail."));
        }
        let api = match session.text_at("apiUrl") {
            Some(api) => api,
            None => {
                return Err(other("Missing mail API URL."));
            },
        };
        proof {
            plain_methods();
        }
        match transport.request("POST", api) {
            Ok(_) => {},
            Err(e) => {
                return Err(e);
            },
        }
        Ok(MailSearch { transport, session, account, local_account })
    }

    /// A call of a mail method: the request and its body.
    pub fn call(&self, method: &str, args: Json) -> (r: Result<(Request, Json)>)
        requires
            args@ is Object,
        ensures
            match self.session@.at("apiUrl"@).text() {
                None => fails(r, "Missing mail API URL."@),
                Some(api) => if reaches(self.transport, api) {
                    &&& r is Ok
                    &&& r->Ok_0.0.method@ == "POST"@
                    &&& r->Ok_0.0.url@ == parsed_url(api)->0.text
                    &&& r->Ok_0.0.user == self.transport.user
                    &&& r->Ok_0.0.secret == self.transport.secret
                    &&& r->Ok_0.1@ == mail_envelope(
                        method@,
                        args@.put("accountId"@, Value::Text(self.account@)),
                    )
                } else {
                    fails(r, request_refusal(self.transport, "POST"@, api))
                },
            },
    {
        let args = args.put("accountId", Json::Text(self.account.clone()));
        let api = match self.session.text_at("apiUrl") {
            Some(api) => api,
            None => {
                return Err(other("Missing mail API URL."));
            },
        };
        proof {
            plain_methods();
        }
        let request = match self.transport.request("POST", api) {
            Ok(q) => q,
            Err(e) => {
                return Err(e);
            },
        };
        let using = Json::list().and(Json::text(CORE)).and(Json::text(MAIL));
        let one = Json::list().and(Json::text(method)).and(args).and(Json::text("attachments"));
        Ok(
            (
                request,
                Json::object().with("using", using).with("methodCalls", Json::list().and(one)),
            ),
        )
    }

    /// Read the answer to a call.
    pub fn answer(&self, response: &Json, method: &str) -> (r: Result<Json>)
        ensures
            match mail_answer(response@, method@, self.account@) {
                Ok(v) => r is Ok && r->Ok_0@ == v,
                Err(m) => fails(r, m),
            },
    {
        let rows = match response.list_at("methodResponses") {
            Some(rows) => rows,
            None => {
                return Err(other("Missing mail search response."));
            },
        };
        let ghost all = views(rows@);
        let mut i: usize = 0;
        proof {
            assert(all.skip(0) == all);
        }
        while i < rows.len() && !is_item(&rows[i], 2, "attachments")
            invariant
                i <= rows.len(),
                all == views(rows@),
                our_row(all.skip(i as int)) == our_row(all),
            decreases rows.len() - i,
        {
            proof {
                assert(all.skip(i as int)[0] == all[i as int]);
                assert(all.skip(i as int).skip(1) == all.skip(i + 1));
            }
            i = i + 1;
        }
        if i == rows.len() {
            return Err(other("Missing mail search response."));
        }
        proof {
            assert(all.skip(i as int)[0] == rows@[i as int]@);
        }
        let row = &rows[i];
        let null = Json::Null;
        let result = match row.item(1) {
            Some(result) => result,
            None => &null,
        };
        let ours = match result.get("accountId") {
            Some(id) => id.is_text(self.account.as_str()),
            None => false,
        };
        if !is_item(row, 0, method) || !ours {
            let kind = match result.text_at("type") {
                Some(kind) => kind,
                None => "invalid response",
            };
            return Err(other(lit("Mail search failed: ").concat(kind).as_str()));
        }
        Ok(result.copy())
    }

    /// The arguments of a search for one page.
    pub fn search(&self, text: &str, position: usize) -> (r: Result<Json>)
        ensures
            r is Ok <==> encode_utf8(text@).len() <= 1024,
            r matches Err(e) ==> says(e, "Search is too long."@),
            r matches Ok(j) ==> j@ == search_args(text@, position),
            r matches Ok(j) ==> forall|has_attachment: bool, finds: spec_fn(Seq<char>) -> bool|
                #[trigger] mail_passes(j@.at("filter"@), has_attachment, finds) <==> has_attachment
                    && (text@.len() > 0 ==> finds(text@)),
    {
        proof {
            assert forall|has_attachment: bool, finds: spec_fn(Seq<char>) -> bool|
                #[trigger] mail_passes(
                    search_args(text@, position).at("filter"@),
                    has_attachment,
                    finds,
                ) <==> has_attachment && (text@.len() > 0 ==> finds(text@)) by {
                searches_ask_for_attachments(text@, position, has_attachment, finds);
            }
        }
        if text.as_bytes().len() > 1024 {
            return Err(other("Search is too long."));
        }
        let base = Json::object().with("hasAttachment", Json::Bool(true));
        let filter = if text.is_empty() {
            base
        } else {
            base.with("text", Json::text(text))
        };
        let sort = Json::list().and(
            Json::object().with("property", Json::text("receivedAt")).with(
                "isAscending",
                Json::Bool(false),
            ),
        );
        Ok(
            Json::object().with("filter", filter).with(
                "position",
                Json::Unsigned(position as u64),
            ).with("limit", Json::Unsigned(PAGE_SIZE as u64)).with("sort", sort).with(
                "collapseThreads",
                Json::Bool(false),
            ),
        )
    }
}

fn is_item(list: &Json, i: usize, s: &str) -> (r: bool)
    ensures
        r == (list@.item(i as int) == Value::Text(s@)),
{
    match list.item(i) {
        Some(j) => j.is_text(s),
        None => false,
    }
}

/// A text of a value, or another where it has none.
pub open spec fn text_or(v: Value, default: Seq<char>) -> Seq<char> {
    match v.text() {
        Some(s) => s,
        None => default,
    }
}

/// How one sender is shown.
pub open spec fn sender_name(v: Value) -> Seq<char> {
    text_or(v.at("name"@), ""@) + " "@ + text_or(v.at("email"@), ""@)
}

/// How the senders of a message are shown.
pub open spec fn senders(email: Value) -> Seq<char> {
    match email.at("from"@).items() {
        Some(list) => join(list.map_values(|v: Value| sender_name(v)), ", "@),
        None => join(Seq::empty(), ", "@),
    }
}

/// Whether a part of a message is shown: it has content, and an inline part also has a name.
pub open spec fn shows(part: Value) -> bool {
    part.at("blobId"@).text() is Some && !(part.at("disposition"@) == Value::Text("inline"@) && (
    part.at("name"@).text() is None || part.at("name"@).text()->0.len() == 0))
}

/// When a message was received; 0 where that cannot be read.
pub open spec fn received_at(email: Value) -> i64 {
    match email.at("receivedAt"@).text() {
        Some(s) => match rfc3339_moment(s) {
            Some(t) => t.millis,
            None => 0,
        },
        None => 0,
    }
}

/// A part of a message as an attachment.
pub open spec fn attachment_of(
    account: Seq<char>,
    local_account: i64,
    email: Value,
    part: Value,
    date: i64,
) -> Attachment {
    Attachment {
        remote: Some(
            Remote {
                account,
                email: email.at("id"@).text()->0,
                blob: part.at("blobId"@).text()->0,
            },
        ),
        id: 0,
        account_id: local_account,
        thread_id: None,
        filename: text_or(part.at("name"@), "attachment"@),
        media_type: text_or(part.at("type"@), "application/octet-stream"@),
        size: match part.at("size"@).unsigned() {
            Some(n) => n,
            None => 0,
        },
        sender: senders(email),
        subject: text_or(email.at("subject"@), ""@),
        date,
        cached: false,
    }
}

/// The attachments among the first parts of a message.
pub open spec fn attachments_of(
    account: Seq<char>,
    local_account: i64,
    email: Value,
    parts: Seq<Value>,
    date: i64,
) -> Seq<Attachment>
    decreases parts.len(),
{
    if parts.len() == 0 {
        Seq::empty()
    } else {
        let before = attachments_of(account, local_account, email, parts.drop_last(), date);
        if shows(parts.last()) {
            before.push(attachment_of(account, local_account, email, parts.last(), date))
        } else {
            before
        }
    }
}

/// Whether a part of a message is an attachment: it has content, and it has a name where it stands
/// inline.
pub open spec fn is_attachment(part: Value) -> bool {
    &&& part.at("blobId"@) is Text
    &&& part.at("disposition"@) == Value::Text("inline"@) ==> part.at("name"@) is Text && part.at(
        "name"@,
    )->Text_0.len() > 0
}

/// The attachments of a message are those of its parts that are attachments, in order, each with the
/// name, the type, the size and the content of its part, and with the sender, the subject and the
/// date of the message.
pub proof fn attachments_show_their_parts(
    account: Seq<char>,
    local_account: i64,
    email: Value,
    parts: Seq<Value>,
    date: i64,
)
    requires
        email.at("id"@) is Text,
    ensures
        ({
            let shown = parts.filter(|part: Value| is_attachment(part));
            let out = attachments_of(account, local_account, email, parts, date);
            &&& out.len() == shown.len()
            &&& forall|i: int|
                #![trigger out[i]]
                0 <= i < out.len() ==> {
                    let a = out[i];
                    let part = shown[i];
                    &&& a.remote is Some && a.remote->0.account == account
                    &&& email.at("id"@) == Value::Text(a.remote->0.email)
                    &&& part.at("blobId"@) == Value::Text(a.remote->0.blob)
                    &&& part.at("name"@) is Text ==> part.at("name"@) == Value::Text(a.filename)
                    &&& !(part.at("name"@) is Text) ==> a.filename == "attachment"@
                    &&& part.at("type"@) is Text ==> part.at("type"@) == Value::Text(a.media_type)
                    &&& !(part.at("type"@) is Text) ==> a.media_type == "application/octet-stream"@
                    &&& a.size == match part.at("size"@).unsigned() {
                        Some(n) => n,
                        None => 0,
                    }
                    &&& email.at("subject"@) is Text ==> email.at("subject"@) == Value::Text(
                        a.subject,
                    )
                    &&& !(email.at("subject"@) is Text) ==> a.subject == ""@
                    &&& a.sender == senders(email) && a.date == date && a.account_id
                        == local_account && a.thread_id is None && !a.cached && a.id == 0
                }
        }),
    decreases parts.len(),
{
    reveal(Seq::filter);
    if parts.len() > 0 {
        attachments_show_their_parts(account, local_account, email, parts.drop_last(), date);
        let p = |part: Value| is_attachment(part);
        let before = attachments_of(account, local_account, email, parts.drop_last(), date);
        let out = attachments_of(account, local_account, email, parts, date);
        assert(shows(parts.last()) == is_attachment(parts.last()));
        assert forall|i: int| 0 <= i < before.len() implies out[i] == before[i] && parts.filter(
            p,
        )[i] == parts.drop_last().filter(p)[i] by {}
    }
}

/// The parts of a message that may be attachments.
pub open spec fn parts_of(email: Value) -> Seq<Value> {
    match email.at("attachments"@).items() {
        Some(parts) => parts,
        None => Seq::empty(),
    }
}

fn text_at_or(v: &Json, key: &str, default: &str) -> (r: String)
    ensures
        r@ == text_or(v@.at(key@), default@),
{
    match v.text_at(key) {
        Some(s) => lit(s),
        None => lit(default),
    }
}

fn show_senders(email: &Json) -> (r: String)
    ensures
        r@ == senders(email@),
{
    let mut names: Vec<String> = Vec::new();
    match email.list_at("from") {
        Some(list) => {
            let mut i: usize = 0;
            while i < list.len()
                invariant
                    i <= list.len(),
                    names@.len() == i,
                    forall|k: int|
                        0 <= k < i ==> (#[trigger] names@[k])@ == sender_name(views(list@)[k]),
                decreases list.len() - i,
            {
                let name = text_at_or(&list[i], "name", "").concat(" ").concat(
                    text_at_or(&list[i], "email", "").as_str(),
                );
                names.push(name);
                i = i + 1;
            }
            proof {
                assert(texts(names@) =~= views(list@).map_values(|v: Value| sender_name(v)));
            }
        },
        None => {
            proof {
                assert(texts(names@) =~= Seq::<Seq<char>>::empty());
            }
        },
    }
    join_texts(&names, ", ")
}

impl MailSearch {
    /// The attachments of a message that was received at `date`. Unnamed inline parts are left
    /// out; everything else with content is shown.
    pub fn email_files(&self, email: &Json, date: i64) -> (r: Result<Vec<AttachmentFile>>)
        ensures
            if email@.at("id"@).text() is None {
                fails(r, "Missing email identifier."@)
            } else {
                r is Ok && attachments(r->Ok_0@) == attachments_of(
                    self.account@,
                    self.local_account,
                    email@,
                    parts_of(email@),
                    date,
                )
            },
    {
        let id = match email.text_at("id") {
            Some(id) => id,
            None => {
                return Err(other("Missing email identifier."));
            },
        };
        let sender = show_senders(email);
        let mut out: Vec<AttachmentFile> = Vec::new();
        let ghost all = parts_of(email@);
        proof {
            assert(attachments(out@) =~= Seq::<Attachment>::empty());
            assert(all.take(0) == Seq::<Value>::empty());
        }
        let parts = match email.list_at("attachments") {
            Some(parts) => parts,
            None => {
                return Ok(out);
            },
        };
        let mut i: usize = 0;
        while i < parts.len()
            invariant
                i <= parts.len(),
                all == views(parts@),
                sender@ == senders(email@),
                email@.at("id"@).text() == Some(id@),
                attachments(out@) == attachments_of(
                    self.account@,
                    self.local_account,
                    email@,
                    all.take(i as int),
                    date,
                ),
            decreases parts.len() - i,
        {
            let part = &parts[i];
            proof {
                assert(all.take(i + 1).drop_last() == all.take(i as int));
                assert(all.take(i + 1).last() == part@);
            }
            let inline = match part.get("disposition") {
                Some(d) => d.is_text("inline"),
                None => false,
            };
            let named = match part.text_at("name") {
                Some(n) => !n.is_empty(),
                None => false,
            };
            match part.text_at("blobId") {
                Some(blob) => {
                    if !(inline && !named) {
                        let ghost before = attachments(out@);
                        let size: u64 = match part.u64_at("size") {
                            Some(n) => n,
                            None => 0,
                        };
                        let file = AttachmentFile {
                            remote: Some(
                                RemoteAttachment {
                                    account: self.account.clone(),
                                    email: lit(id),
                                    blob: lit(blob),
                                },
                            ),
                            id: 0,
                            account_id: self.local_account,
                            thread_id: None,
                            filename: text_at_or(part, "name", "attachment"),
                            media_type: text_at_or(part, "type", "application/octet-stream"),
                            size,
                            sender: sender.clone(),
                            subject: text_at_or(email, "subject", ""),
                            date,
                            cached: false,
                        };
                        out.push(file);
                        proof {
                            assert(attachments(out@) =~= before.push(file@));
                        }
                    }
                },
                None => {},
            }
            i = i + 1;
        }
        proof {
            assert(all.take(all.len() as int) == all);
        }
        Ok(out)
    }

    /// When a message was received.
    pub fn received(&self, email: &Json) -> (r: i64)
        ensures
            r == received_at(email@),
    {
        match email.text_at("receivedAt") {
            Some(s) => match read_rfc3339(s) {
                Some(t) => t.millis,
                None => 0,
            },
            None => 0,
        }
    }
}

/// A page of a search in the making: the query is answered, its messages are being read.
pub struct SearchPage {
    pub position: usize,
    pub ids: Vec<String>,
    pub state: String,
    pub files: Vec<AttachmentFile>,
    /// How many of the ids were asked for.
    pub fetched: usize,
}

/// What the messages of a page show, one after another, or why one of them cannot be read.
pub open spec fn files_of(account: Seq<char>, local_account: i64, emails: Seq<Value>) -> Option<
    Seq<Attachment>,
>
    decreases emails.len(),
{
    if emails.len() == 0 {
        Some(Seq::empty())
    } else {
        match files_of(account, local_account, emails.drop_last()) {
            None => None,
            Some(before) => {
                let email = emails.last();
                if email.at("id"@).text() is None {
                    None
                } else {
                    Some(
                        before + attachments_of(
                            account,
                            local_account,
                            email,
                            parts_of(email),
                            received_at(email),
                        ),
                    )
                }
            },
        }
    }
}

/// The keys of a list of messages.
pub open spec fn email_keys(list: Seq<Value>) -> Seq<Seq<char>> {
    list.map_values(|v: Value| text_or(v.at("id"@), ""@))
}

fn email_key(j: &Json) -> (k: &str)
    ensures
        k@ == text_or(j@.at("id"@), ""@),
{
    match j.text_at("id") {
        Some(s) => s,
        None => "",
    }
}

/// The arguments that read messages.
pub open spec fn read_args(ids: Seq<Seq<char>>) -> Value {
    Value::empty().with("ids"@, Value::text_list(ids)).with(
        "properties"@,
        Value::none().and(Value::Text("id"@)).and(Value::Text("from"@)).and(
            Value::Text("subject"@),
        ).and(Value::Text("receivedAt"@)).and(Value::Text("attachments"@)),
    )
}

proof fn files_of_stop(account: Seq<char>, local_account: i64, emails: Seq<Value>, k: int)
    requires
        0 <= k <= emails.len(),
        files_of(account, local_account, emails.take(k)) is None,
    ensures
        files_of(account, local_account, emails) is None,
    decreases emails.len() - k,
{
    if k == emails.len() {
        assert(emails.take(k) == emails);
    } else {
        assert(emails.take(k + 1).drop_last() == emails.take(k));
        files_of_stop(account, local_account, emails, k + 1);
    }
}

proof fn pick_views(list: Seq<Json>, positions: Seq<int>)
    requires
        forall|j: int| 0 <= j < positions.len() ==> 0 <= #[trigger] positions[j] < list.len(),
    ensures
        views(pick(list, positions)) == pick(views(list), positions),
{
    assert(views(pick(list, positions)) =~= pick(views(list), positions));
}

impl SearchPage {
    pub open spec fn wf(self) -> bool {
        self.fetched <= self.ids@.len() <= PAGE_SIZE
    }

    /// A page that begins with the answer to its query.
    pub fn begin(position: usize, query: &Json) -> (r: Result<SearchPage>)
        ensures
            ({
                let ids = match query@.at("ids"@).items() {
                    Some(items) => id_list(items),
                    None => None,
                };
                if ids is None {
                    fails(r, "Invalid mail search IDs."@)
                } else if ids->0.len() > PAGE_SIZE {
                    fails(r, "Mail server exceeded the requested page limit."@)
                } else if query@.at("queryState"@).text() is None {
                    fails(r, "Missing mail query state."@)
                } else {
                    &&& r is Ok
                    &&& r->Ok_0.wf()
                    &&& r->Ok_0.position == position
                    &&& texts(r->Ok_0.ids@) == ids->0
                    &&& r->Ok_0.state@ == query@.at("queryState"@).text()->0
                    &&& r->Ok_0.files@.len() == 0
                    &&& r->Ok_0.fetched == 0
                }
            }),
    {
        let items = match query.list_at("ids") {
            Some(items) => items,
            None => {
                return Err(other("Invalid mail search IDs."));
            },
        };
        let ids = match read_ids(items) {
            Some(ids) => ids,
            None => {
                return Err(other("Invalid mail search IDs."));
            },
        };
        proof {
            assert(texts(ids@).len() == ids@.len());
        }
        if ids.len() > PAGE_SIZE {
            return Err(other("Mail server exceeded the requested page limit."));
        }
        let state = match query.text_at("queryState") {
            Some(s) => lit(s),
            None => {
                return Err(other("Missing mail query state."));
            },
        };
        Ok(SearchPage { position, ids, state, files: Vec::new(), fetched: 0 })
    }

    /// The messages to read next, at most `limit` of them; `None` where all were read.
    pub fn next_ids(&self, limit: usize) -> (r: Option<Vec<String>>)
        requires
            self.wf(),
            1 <= limit <= 100,
        ensures
            r is None <==> self.fetched == self.ids@.len(),
            r matches Some(ids) ==> texts(ids@) == chunk(
                texts(self.ids@),
                self.fetched as int,
                limit as int,
            ),
    {
        if self.fetched == self.ids.len() {
            return None;
        }
        let end: usize = if self.ids.len() - self.fetched <= limit {
            self.ids.len()
        } else {
            self.fetched + limit
        };
        let mut out: Vec<String> = Vec::new();
        let mut i: usize = self.fetched;
        while i < end
            invariant
                self.fetched <= i <= end <= self.ids@.len(),
                texts(out@) == texts(self.ids@).subrange(self.fetched as int, i as int),
            decreases end - i,
        {
            let ghost before = texts(out@);
            out.push(self.ids[i].clone());
            proof {
                assert(texts(out@) =~= before.push(self.ids@[i as int]@));
                assert(texts(self.ids@).subrange(self.fetched as int, i + 1) =~= before.push(
                    self.ids@[i as int]@,
                ));
            }
            i = i + 1;
        }
        proof {
            let all = texts(self.ids@);
            assert(all.skip(self.fetched as int) =~= all.subrange(
                self.fetched as int,
                all.len() as int,
            ));
        }
        Some(out)
    }

    /// The arguments that read those messages.
    pub fn read_request(ids: &Vec<String>) -> (r: Json)
        ensures
            r@ == read_args(texts(ids@)),
    {
        let properties = Json::list().and(Json::text("id")).and(Json::text("from")).and(
            Json::text("subject"),
        ).and(Json::text("receivedAt")).and(Json::text("attachments"));
        Json::object().with("ids", Json::text_list(ids)).with("properties", properties)
    }

    /// Take the messages that were read for `ids`. Their attachments join the page in the order
    /// of the query.
    pub fn got(&mut self, search: &MailSearch, ids: &Vec<String>, result: &Json) -> (r: Result<()>)
        requires
            old(self).wf(),
            old(self).fetched + ids@.len() <= old(self).ids@.len(),
        ensures
            match result@.at("list"@).items() {
                None => fails(r, "Invalid mail search results."@),
                Some(list) => {
                    let keys = email_keys(list);
                    let emails = pick(list, in_order(texts(ids@), keys));
                    let files = files_of(search.account@, search.local_account, emails);
                    if unexpected(texts(ids@), keys) {
                        fails(r, "JMAP returned an unexpected or duplicate record."@)
                    } else if files is None {
                        fails(r, "Missing email identifier."@)
                    } else {
                        &&& r is Ok
                        &&& attachments(final(self).files@) == attachments(old(self).files@)
                            + files->0
                        &&& final(self).fetched == old(self).fetched + ids@.len()
                        &&& *final(self) == (SearchPage {
                            files: final(self).files,
                            fetched: final(self).fetched,
                            ..*old(self)
                        })
                        &&& final(self).wf()
                    }
                },
            },
    {
        let list = match result.list_at("list") {
            Some(list) => list,
            None => {
                return Err(other("Invalid mail search results."));
            },
        };
        let ghost given = views(list@);
        let mut records: Vec<Json> = Vec::new();
        let mut i: usize = 0;
        while i < list.len()
            invariant
                i <= list.len(),
                given == views(list@),
                records@.len() == i,
                forall|k: int| 0 <= k < i ==> (#[trigger] records@[k])@ == given[k],
            decreases list.len() - i,
        {
            records.push(list[i].copy());
            i = i + 1;
        }
        let ghost copied = records@;
        proof {
            assert(views(copied) =~= given);
        }
        let key = email_key;
        let emails = match ordered_records(ids.as_slice(), records, key) {
            Ok(v) => {
                proof {
                    let keys = choose|keys: Seq<Seq<char>>| #[trigger]
                        keys_of(key, copied, keys) && !unexpected(texts(ids@), keys) && v@ == pick(
                            copied,
                            in_order(texts(ids@), keys),
                        );
                    assert forall|i: int| 0 <= i < keys.len() implies keys[i] == email_keys(
                        given,
                    )[i] by {
                        assert(keyed(key, copied[i], keys[i]));
                        assert(given[i] == copied[i]@);
                    }
                    assert(keys =~= email_keys(given));
                    crate::files::transport::in_order_positions(texts(ids@), keys);
                    pick_views(copied, in_order(texts(ids@), keys));
                }
                v
            },
            Err(e) => {
                proof {
                    let keys = choose|keys: Seq<Seq<char>>| #[trigger]
                        keys_of(key, copied, keys) && unexpected(texts(ids@), keys);
                    assert forall|i: int| 0 <= i < keys.len() implies keys[i] == email_keys(
                        given,
                    )[i] by {
                        assert(keyed(key, copied[i], keys[i]));
                        assert(given[i] == copied[i]@);
                    }
                    assert(keys =~= email_keys(given));
                }
                return Err(e);
            },
        };
        let ghost all = views(emails@);
        let ghost start = attachments(self.files@);
        let mut added: Vec<AttachmentFile> = Vec::new();
        i = 0;
        proof {
            assert(all.take(0) == Seq::<Value>::empty());
            assert(attachments(added@) =~= Seq::<Attachment>::empty());
        }
        while i < emails.len()
            invariant
                i <= emails.len(),
                all == views(emails@),
                result@.at("list"@).items() == Some(given),
                !unexpected(texts(ids@), email_keys(given)),
                all == pick(given, in_order(texts(ids@), email_keys(given))),
                files_of(search.account@, search.local_account, all.take(i as int)) == Some(
                    attachments(added@),
                ),
            decreases emails.len() - i,
        {
            proof {
                assert(all.take(i + 1).drop_last() == all.take(i as int));
                assert(all.take(i + 1).last() == emails@[i as int]@);
            }
            let date: i64 = search.received(&emails[i]);
            match search.email_files(&emails[i], date) {
                Ok(files) => {
                    let mut files = files;
                    let ghost before = attachments(added@);
                    let ghost more = attachments(files@);
                    added.append(&mut files);
                    proof {
                        assert(attachments(added@) =~= before + more);
                    }
                },
                Err(e) => {
                    proof {
                        files_of_stop(search.account@, search.local_account, all, i + 1);
                    }
                    return Err(e);
                },
            }
            i = i + 1;
        }
        proof {
            assert(all.take(all.len() as int) == all);
        }
        let ghost more = attachments(added@);
        self.files.append(&mut added);
        proof {
            assert(attachments(self.files@) =~= start + more);
        }
        self.fetched = self.fetched + ids.len();
        Ok(())
    }

    /// The page.
    pub fn finish(self) -> (r: Page)
        requires
            self.wf(),
            self.position + PAGE_SIZE <= usize::MAX,
        ensures
            r.files == self.files,
            r.state == self.state,
            r.next == (if self.ids@.len() == PAGE_SIZE {
                Some((self.position + PAGE_SIZE) as usize)
            } else {
                None
            }),
    {
        Page {
            files: self.files,
            next: if self.ids.len() == PAGE_SIZE {
                Some(self.position + PAGE_SIZE)
            } else {
                None
            },
            state: self.state,
        }
    }
}

impl MailSearch {
    /// How many messages one call may read.
    pub fn max_get(&self) -> (r: usize)
        ensures
            1 <= r <= 100,
            ({
                let stated = self.session@.at("capabilities"@).at(CORE@).at(
                    "maxObjectsInGet"@,
                ).unsigned();
                r == match stated {
                    Some(n) => if n < 1 {
                        1
                    } else if n > 100 {
                        100
                    } else {
                        n as int
                    },
                    None => 100,
                }
            }),
    {
        let stated: u64 = match self.session.get("capabilities") {
            Some(c) => match c.get(CORE) {
                Some(c) => match c.u64_at("maxObjectsInGet") {
                    Some(n) => n,
                    None => 100,
                },
                None => 100,
            },
            None => 100,
        };
        if stated < 1 {
            1
        } else if stated > 100 {
            100
        } else {
            stated as usize
        }
    }

    /// Where the content of an attachment is downloaded from.
    pub fn download_url(&self, remote: &RemoteAttachment, filename: &str, media_type: &str) -> (r: Result<
        String,
    >)
        ensures
            ({
                let values = seq![
                    ("accountId"@, remote.account@),
                    ("blobId"@, remote.blob@),
                    ("name"@, filename@),
                    ("type"@, media_type@),
                ];
                if remote.account@ != self.account@ {
                    fails(r, "The mail account changed. Repeat the server search."@)
                } else {
                    match self.session@.at("downloadUrl"@).text() {
                        None => fails(r, "Missing mail download URL."@),
                        Some(template) => match fill_failure(template, values) {
                            Some(m) => fails(r, m),
                            None => r is Ok && r->Ok_0@ == filled(template, values),
                        },
                    }
                }
            }),
    {
        if !same(remote.account.as_str(), self.account.as_str()) {
            return Err(other("The mail account changed. Repeat the server search."));
        }
        let template = match self.session.text_at("downloadUrl") {
            Some(t) => t,
            None => {
                return Err(other("Missing mail download URL."));
            },
        };
        let values = [
            ("accountId", remote.account.as_str()),
            ("blobId", remote.blob.as_str()),
            ("name", filename),
            ("type", media_type),
        ];
        proof {
            assert(pairs(values@) =~= seq![
                ("accountId"@, remote.account@),
                ("blobId"@, remote.blob@),
                ("name"@, filename@),
                ("type"@, media_type@),
            ]);
        }
        expand(template, &values)
    }
}

} // verus!
