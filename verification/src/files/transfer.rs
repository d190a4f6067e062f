//! Uploads, downloads, sharing lookups and push events of JMAP file storage.

use crate::error::{fails, other, says, Result};
use crate::files::jmap::{fill_failure, FileClient};
use crate::files::json::{field_views, views, Json, Value};
use crate::files::transport::{expand, filled, pairs};
use crate::files::{FileNode, Node, MAX_TRANSFER};
use crate::text::{
    has_char, is_same_ascii, lit, opt, opt_str, same_ascii, stands_at, starts_with, strip_prefix, texts, trim,
    trim_end, trim_tail, trimmed,
};
use vstd::prelude::*;
use vstd::string::*;

verus! {

/// A limit that the server states, kept within our own.
pub open spec fn upload_limit(c: FileClient) -> int {
    match c.session@.at("capabilities"@).at(crate::files::jmap::CORE@).at(
        "maxSizeUpload"@,
    ).unsigned() {
        Some(n) => if n < MAX_TRANSFER {
            n as int
        } else {
            MAX_TRANSFER as int
        },
        None => MAX_TRANSFER as int,
    }
}

/// Why an endpoint cannot be filled, if it cannot.
pub open spec fn template_failure(
    session: Value,
    key: Seq<char>,
    missing: Seq<char>,
    values: Seq<(Seq<char>, Seq<char>)>,
) -> Option<Seq<char>> {
    match session.at(key).text() {
        None => Some(missing),
        Some(template) => fill_failure(template, values),
    }
}

/// The content type of a file that names none.
pub open spec fn media_type_or_default(o: Option<Seq<char>>) -> Seq<char> {
    match o {
        Some(s) => s,
        None => "application/octet-stream"@,
    }
}

/// What is put into the download template for a node.
pub open spec fn download_values(account: Seq<char>, blob: Seq<char>, n: Node) -> Seq<
    (Seq<char>, Seq<char>),
> {
    seq![
        ("accountId"@, account),
        ("blobId"@, blob),
        ("name"@, n.name),
        ("type"@, media_type_or_default(n.media_type)),
    ]
}

/// What a stored upload says of a file.
pub open spec fn uploaded_value(reply: Value, modified: Seq<char>) -> Value {
    Value::empty().with("blobId"@, Value::Text(reply.at("blobId"@).text()->0)).with(
        "type"@,
        Value::Text(media_type_or_default(reply.at("type"@).text())),
    ).with("modified"@, Value::Text(modified))
}

impl FileClient {
    /// The largest upload.
    pub fn max_upload(&self) -> (r: usize)
        ensures
            r == upload_limit(*self),
            r <= MAX_TRANSFER,
    {
        let stated: u64 = match self.core_limit("maxSizeUpload") {
            Some(n) => n,
            None => MAX_TRANSFER as u64,
        };
        if stated < MAX_TRANSFER as u64 {
            stated as usize
        } else {
            MAX_TRANSFER
        }
    }

    /// Where an upload under that name goes.
    pub fn upload_url(&self, name: &str) -> (r: Result<String>)
        ensures
            if !self.takes_name(name@) {
                fails(r, self.name_refusal(name@))
            } else {
                match template_failure(
                    self.session@,
                    "uploadUrl"@,
                    "Missing upload URL."@,
                    seq![("accountId"@, self.account_id@)],
                ) {
                    Some(m) => fails(r, m),
                    None => r is Ok && r->Ok_0@ == filled(
                        self.session@.at("uploadUrl"@).text()->0,
                        seq![("accountId"@, self.account_id@)],
                    ),
                }
            },
    {
        match self.name(name) {
            Ok(_) => {},
            Err(e) => {
                return Err(e);
            },
        }
        let template = match self.session.text_at("uploadUrl") {
            Some(t) => t,
            None => {
                return Err(other("Missing upload URL."));
            },
        };
        let values = [("accountId", self.account_id.as_str())];
        proof {
            assert(pairs(values@) =~= seq![("accountId"@, self.account_id@)]);
        }
        expand(template, &values)
    }

    /// What a stored upload says of a file; the answer must be about the account in use.
    pub fn uploaded(&self, reply: &Json, modified: &str) -> (r: Result<Json>)
        ensures
            if reply@.at("accountId"@) != Value::Text(self.account_id@) {
                fails(r, "Upload account mismatch."@)
            } else if reply@.at("blobId"@).text() is None {
                fails(r, "Upload did not return a blob."@)
            } else {
                r is Ok && r->Ok_0@ == uploaded_value(reply@, modified@)
            },
    {
        let ours = match reply.get("accountId") {
            Some(id) => id.is_text(self.account_id.as_str()),
            None => false,
        };
        if !ours {
            return Err(other("Upload account mismatch."));
        }
        let blob = match reply.text_at("blobId") {
            Some(b) => b,
            None => {
                return Err(other("Upload did not return a blob."));
            },
        };
        let kind = match reply.text_at("type") {
            Some(k) => k,
            None => "application/octet-stream",
        };
        Ok(
            Json::object().with("blobId", Json::text(blob)).with("type", Json::text(kind)).with(
                "modified",
                Json::text(modified),
            ),
        )
    }

    /// The changes that store an upload, once it was answered: as a new file, or as the content of
    /// one that is there.
    pub fn store_upload(
        &self,
        reply: &Json,
        modified: &str,
        parent: Option<&str>,
        name: &str,
        replace: Option<&str>,
    ) -> (r: Result<Json>)
        ensures
            if reply@.at("accountId"@) != Value::Text(self.account_id@) {
                fails(r, "Upload account mismatch."@)
            } else if reply@.at("blobId"@).text() is None {
                fails(r, "Upload did not return a blob."@)
            } else {
                let value = uploaded_value(reply@, modified@);
                r is Ok && r->Ok_0@ == (match replace {
                    Some(id) => Value::empty().with("update"@, Value::empty().with(id@, value)),
                    None => Value::empty().with(
                        "create"@,
                        Value::empty().with(
                            "new"@,
                            value.with("name"@, Value::Text(name@)).with(
                                "parentId"@,
                                Value::opt_text(opt_str(parent)),
                            ),
                        ),
                    ),
                })
            },
    {
        let value = match self.uploaded(reply, modified) {
            Ok(value) => value,
            Err(e) => {
                return Err(e);
            },
        };
        match replace {
            Some(id) => {
                proof {
                    reveal_strlit("name");
                    reveal_strlit("blobId");
                    reveal_strlit("type");
                    reveal_strlit("modified");
                    let fields = value@->Object_0;
                    assert(fields[0].0 != "name"@ && fields[1].0 != "name"@ && fields[2].0
                        != "name"@) by {
                        assert(fields[1].0[0] != "name"@[0]);
                    }
                    crate::files::json::place_is(fields, "name"@, 3);
                }
                self.update(id, value)
            },
            None => {
                let parent = match parent {
                    Some(p) => Json::text(p),
                    None => Json::Null,
                };
                let node = value.with("name", Json::text(name)).with("parentId", parent);
                Ok(Json::object().with("create", Json::object().with("new", node)))
            },
        }
    }

    /// Where the content of a node is downloaded from.
    pub fn download_url(&self, node: &FileNode) -> (r: Result<String>)
        ensures
            match node.blob_id {
                None => fails(r, "Folders cannot be downloaded as individual files."@),
                Some(blob) => {
                    let values = download_values(self.account_id@, blob@, node@);
                    match template_failure(
                        self.session@,
                        "downloadUrl"@,
                        "Missing download URL."@,
                        values,
                    ) {
                        Some(m) => fails(r, m),
                        None => r is Ok && r->Ok_0@ == filled(
                            self.session@.at("downloadUrl"@).text()->0,
                            values,
                        ),
                    }
                },
            },
    {
        let blob = match &node.blob_id {
            Some(b) => b.as_str(),
            None => {
                return Err(other("Folders cannot be downloaded as individual files."));
            },
        };
        let template = match self.session.text_at("downloadUrl") {
            Some(t) => t,
            None => {
                return Err(other("Missing download URL."));
            },
        };
        let kind = match &node.media_type {
            Some(k) => k.as_str(),
            None => "application/octet-stream",
        };
        let values = [
            ("accountId", self.account_id.as_str()),
            ("blobId", blob),
            ("name", node.name.as_str()),
            ("type", kind),
        ];
        proof {
            assert(pairs(values@) =~= download_values(self.account_id@, blob@, node@));
        }
        expand(template, &values)
    }

    /// Where changes are announced.
    pub fn push_url(&self) -> (r: Result<String>)
        ensures
            match template_failure(
                self.session@,
                "eventSourceUrl"@,
                "File push is not advertised."@,
                push_values(),
            ) {
                Some(m) => fails(r, m),
                None => r is Ok && r->Ok_0@ == filled(
                    self.session@.at("eventSourceUrl"@).text()->0,
                    push_values(),
                ),
            },
    {
        let template = match self.session.text_at("eventSourceUrl") {
            Some(t) => t,
            None => {
                return Err(other("File push is not advertised."));
            },
        };
        let values = [("types", "FileNode"), ("closeafter", "state"), ("ping", "30")];
        proof {
            assert(pairs(values@) =~= push_values());
        }
        expand(template, &values)
    }
}

/// What is put into the push template.
pub open spec fn push_values() -> Seq<(Seq<char>, Seq<char>)> {
    seq![("types"@, "FileNode"@), ("closeafter"@, "state"@), ("ping"@, "30"@)]
}

/// Whether a file may be uploaded: a regular file within the limit.
pub fn check_upload(is_file: bool, length: u64, limit: usize) -> (r: Result<()>)
    ensures
        r is Ok <==> is_file && length <= limit,
        r matches Err(e) ==> says(e, "Select a regular file within the storage upload limit."@),
{
    if !is_file || length > limit as u64 {
        return Err(other("Select a regular file within the storage upload limit."));
    }
    Ok(())
}

/// An upload under way: a fixed number of bytes is announced, and exactly that many are sent.
pub struct Upload {
    pub length: u64,
    pub read: u64,
}

impl Upload {
    pub open spec fn wf(self) -> bool {
        self.read <= self.length
    }

    pub fn begin(length: u64) -> (r: Upload)
        ensures
            r.wf(),
            r.length == length,
            r.read == 0,
    {
        Upload { length, read: 0 }
    }

    /// Whether all bytes were sent.
    pub fn done(&self) -> (r: bool)
        ensures
            r == (self.read == self.length),
    {
        self.read == self.length
    }

    /// Take what was read next. The source is read no further than was announced; a source that
    /// ends early changed while it was read.
    pub fn chunk(&mut self, count: u64) -> (r: Result<()>)
        requires
            old(self).wf(),
            count <= old(self).length - old(self).read,
        ensures
            if count == 0 {
                fails(r, "Upload file changed while reading"@) && *final(self) == *old(self)
            } else {
                r is Ok && final(self).read == old(self).read + count
            },
            final(self).length == old(self).length,
            final(self).wf(),
    {
        if count == 0 {
            return Err(other("Upload file changed while reading"));
        }
        self.read = self.read + count;
        Ok(())
    }
}

/// A download under way: no more than the limit is ever kept.
pub struct Download {
    pub total: usize,
}

impl Download {
    pub open spec fn wf(self) -> bool {
        self.total <= MAX_TRANSFER
    }

    /// Begin a download of the announced length, where one is announced.
    pub fn begin(announced: Option<u64>) -> (r: Result<Download>)
        ensures
            r is Err <==> announced is Some && announced->0 > MAX_TRANSFER,
            r matches Err(e) ==> says(e, "File exceeds the download limit."@),
            r matches Ok(d) ==> d.wf() && d.total == 0,
    {
        match announced {
            Some(n) => {
                if n > MAX_TRANSFER as u64 {
                    return Err(other("File exceeds the download limit."));
                }
            },
            None => {},
        }
        Ok(Download { total: 0 })
    }

    /// Take the next bytes, where they are still within the limit.
    pub fn chunk(&mut self, count: usize) -> (r: Result<()>)
        requires
            old(self).wf(),
        ensures
            if old(self).total + count > MAX_TRANSFER {
                fails(r, "File exceeds the download limit."@) && *final(self) == *old(self)
            } else {
                r is Ok && final(self).total == old(self).total + count
            },
            final(self).wf(),
    {
        if count > MAX_TRANSFER - self.total {
            return Err(other("File exceeds the download limit."));
        }
        self.total = self.total + count;
        Ok(())
    }
}

/// Whether a copy of that many bytes is within the limit.
pub fn check_copied(count: u64) -> (r: Result<()>)
    ensures
        r is Ok <==> count <= MAX_TRANSFER,
        r matches Err(e) ==> says(e, "File exceeds the download limit."@),
{
    if count > MAX_TRANSFER as u64 {
        return Err(other("File exceeds the download limit."));
    }
    Ok(())
}

/// What `String::from_utf8_lossy` makes of a run of bytes.
pub uninterp spec fn utf8_lossy(bytes: Seq<u8>) -> Seq<char>;

/// Calls `String::from_utf8_lossy`, which depends on the bytes alone.
#[verifier::external_body]
pub(crate) fn lossy_text(bytes: &[u8]) -> (r: String)
    ensures
        r@ == utf8_lossy(bytes@),
{
    String::from_utf8_lossy(bytes).into_owned()
}

/// The longest line of a push stream.
pub const MAX_PUSH_LINE: usize = 65536;

/// The data that a line of a push stream carries, if it carries any.
pub open spec fn push_data(line: Seq<char>) -> Option<Seq<char>> {
    let text = trim_end(line);
    if stands_at(text, "data:"@, 0) {
        Some(trimmed(text.skip("data:"@.len() as int)))
    } else {
        None
    }
}

/// The data of a line.
pub fn read_push_line(line: &str) -> (r: Option<String>)
    ensures
        opt(r) == push_data(line@),
{
    let text = trim_tail(line);
    match strip_prefix(text.as_str(), "data:") {
        Some(data) => Some(trim(data.as_str())),
        None => None,
    }
}

/// Whether an answer is a push stream, by what it says that it holds.
pub fn check_push_stream(content_type: Option<&str>) -> (r: Result<()>)
    ensures
        if content_type is Some && stands_at(content_type->0@, "text/event-stream"@, 0) {
            r is Ok
        } else {
            fails(r, "Invalid file push response."@)
        },
{
    match content_type {
        Some(held) => if starts_with(held, "text/event-stream") {
            Ok(())
        } else {
            Err(other("Invalid file push response."))
        },
        None => Err(other("Invalid file push response.")),
    }
}

/// A reader of a push stream: the line that is being read.
pub struct PushReader {
    pub line: Vec<u8>,
}

impl PushReader {
    pub open spec fn wf(self) -> bool {
        self.line@.len() <= MAX_PUSH_LINE
    }

    pub fn new() -> (r: PushReader)
        ensures
            r.wf(),
            r.line@.len() == 0,
    {
        PushReader { line: Vec::new() }
    }

    /// Take one byte of the stream; the end of a line gives the data that the line carries. A
    /// line is never kept beyond the limit.
    pub fn byte(&mut self, byte: u8) -> (r: Result<Option<String>>)
        requires
            old(self).wf(),
        ensures
            if byte == 10 {
                r is Ok && opt(r->Ok_0) == push_data(utf8_lossy(old(self).line@)) && final(
                    self).line@.len() == 0
            } else if old(self).line@.len() >= MAX_PUSH_LINE {
                fails(r, "File push event exceeds the metadata limit."@) && final(self).line@ == old(
                    self).line@
            } else {
                r matches Ok(None) && final(self).line@ == old(self).line@.push(byte)
            },
            final(self).wf(),
    {
        if byte == 10 {
            let text = lossy_text(self.line.as_slice());
            self.line.clear();
            return Ok(read_push_line(text.as_str()));
        }
        if self.line.len() >= MAX_PUSH_LINE {
            return Err(other("File push event exceeds the metadata limit."));
        }
        self.line.push(byte);
        Ok(None)
    }
}

/// Whether a push event announces a change of files.
pub open spec fn announces_files(event: Value) -> bool {
    &&& event.at("@type"@) == Value::Text("StateChange"@)
    &&& event.at("changed"@).fields() is Some
    &&& exists|i: int|
        0 <= i < event.at("changed"@).fields()->0.len() && (#[trigger] event.at(
            "changed"@,
        ).fields()->0[i]).1.has("FileNode"@)
}

/// Whether a push event announces a change of files.
pub fn is_file_change(event: &Json) -> (r: bool)
    ensures
        r == announces_files(event@),
{
    let stated = match event.get("@type") {
        Some(t) => t.is_text("StateChange"),
        None => false,
    };
    if !stated {
        return false;
    }
    let fields = match event.get("changed") {
        Some(c) => match c.as_object() {
            Some(fields) => fields,
            None => {
                return false;
            },
        },
        None => {
            return false;
        },
    };
    let ghost all = event@.at("changed"@).fields()->0;
    let mut i: usize = 0;
    while i < fields.len()
        invariant
            i <= fields.len(),
            event@.at("@type"@) == Value::Text("StateChange"@),
            event@.at("changed"@).fields() == Some(all),
            all == field_views(fields@),
            forall|j: int| 0 <= j < i ==> !(#[trigger] all[j]).1.has("FileNode"@),
        decreases fields.len() - i,
    {
        proof {
            assert(all[i as int].1 == fields@[i as int].1@);
        }
        if fields[i].1.get("FileNode").is_some() {
            proof {
                assert(event@.at("changed"@).fields()->0[i as int].1.has("FileNode"@));
            }
            return true;
        }
        i = i + 1;
    }
    false
}

/// The ids of the principals with that address.
pub open spec fn principals_at(list: Seq<Value>, email: Seq<char>) -> Seq<Seq<char>>
    decreases list.len(),
{
    if list.len() == 0 {
        Seq::empty()
    } else {
        let before = principals_at(list.drop_last(), email);
        let p = list.last();
        if p.at("email"@).text() is Some && same_ascii(p.at("email"@).text()->0, email) && p.at(
            "id"@,
        ).text() is Some {
            before.push(p.at("id"@).text()->0)
        } else {
            before
        }
    }
}

/// Whether a principal has an address, without regard to the case of ASCII letters, and an id.
pub open spec fn is_principal_at(p: Value, email: Seq<char>) -> bool {
    p.at("email"@) is Text && same_ascii(p.at("email"@)->Text_0, email) && p.at("id"@) is Text
}

/// The recipients that an address names are the principals that have it, each by its id.
pub proof fn addresses_name_their_principals(list: Seq<Value>, email: Seq<char>)
    ensures
        ({
            let there = list.filter(|p: Value| is_principal_at(p, email));
            let found = principals_at(list, email);
            &&& found.len() == there.len()
            &&& forall|i: int|
                0 <= i < found.len() ==> there[i].at("id"@) == Value::Text(#[trigger] found[i])
        }),
    decreases list.len(),
{
    reveal(Seq::filter);
    if list.len() > 0 {
        let head = list.drop_last();
        addresses_name_their_principals(head, email);
        let p = |p: Value| is_principal_at(p, email);
        let found = principals_at(list, email);
        assert forall|i: int| 0 <= i < head.filter(p).len() implies found[i] == principals_at(
            head,
            email,
        )[i] && list.filter(p)[i] == head.filter(p)[i] by {}
    }
}

/// What is uploaded is stored with the content and the type that the server answered, and with the
/// moment of the file.
pub proof fn uploads_keep_what_was_answered(reply: Value, modified: Seq<char>)
    requires
        reply.at("blobId"@) is Text,
    ensures
        ({
            let value = uploaded_value(reply, modified);
            &&& value.at("blobId"@) == reply.at("blobId"@)
            &&& reply.at("type"@) is Text ==> value.at("type"@) == reply.at("type"@)
            &&& !(reply.at("type"@) is Text) ==> value.at("type"@) == Value::Text(
                "application/octet-stream"@,
            )
            &&& value.at("modified"@) == Value::Text(modified)
        }),
{
    reveal_strlit("blobId");
    reveal_strlit("type");
    reveal_strlit("modified");
    assert("blobId"@.len() == 6 && "type"@.len() == 4 && "modified"@.len() == 8);
    let fields = uploaded_value(reply, modified)->Object_0;
    crate::files::json::place_is(fields, "blobId"@, 0);
    crate::files::json::place_is(fields, "type"@, 1);
    crate::files::json::place_is(fields, "modified"@, 2);
}

/// Whether a recipient must be looked up: an address must, an id stands for itself.
pub fn needs_lookup(recipient: &str) -> (r: bool)
    ensures
        r == recipient@.contains('@'),
{
    has_char(recipient, '@')
}

/// The arguments that read the principals that a lookup named.
pub fn principal_args(lookup: &Json) -> (r: Result<Json>)
    ensures
        match lookup@.at("ids"@).items() {
            None => fails(r, "Invalid principal lookup."@),
            Some(_) => r is Ok && r->Ok_0@ == Value::empty().with("ids"@, lookup@.at("ids"@)),
        },
{
    match lookup.get("ids") {
        Some(ids) => match ids.as_list() {
            Some(_) => Ok(Json::object().with("ids", ids.copy())),
            None => Err(other("Invalid principal lookup.")),
        },
        None => Err(other("Invalid principal lookup.")),
    }
}

/// The one principal with the recipient's address.
pub fn resolve_principal(result: &Json, recipient: &str) -> (r: Result<String>)
    ensures
        match result@.at("list"@).items() {
            None => fails(r, "Invalid principal lookup."@),
            Some(list) => {
                let found = principals_at(list, recipient@);
                if found.len() == 1 {
                    r is Ok && r->Ok_0@ == found[0]
                } else {
                    fails(
                        r,
                        "The recipient could not be uniquely identified. Use their principal ID if directory lookup is disabled."@,
                    )
                }
            },
        },
{
    let list = match result.list_at("list") {
        Some(list) => list,
        None => {
            return Err(other("Invalid principal lookup."));
        },
    };
    let ghost all = views(list@);
    let mut found: Vec<String> = Vec::new();
    let mut i: usize = 0;
    proof {
        assert(all.take(0) == Seq::<Value>::empty());
        assert(texts(found@) =~= Seq::<Seq<char>>::empty());
    }
    while i < list.len()
        invariant
            i <= list.len(),
            all == views(list@),
            texts(found@) == principals_at(all.take(i as int), recipient@),
        decreases list.len() - i,
    {
        let p = &list[i];
        proof {
            assert(all.take(i + 1).drop_last() == all.take(i as int));
            assert(all.take(i + 1).last() == p@);
        }
        let here = match p.text_at("email") {
            Some(email) => is_same_ascii(email, recipient),
            None => false,
        };
        if here {
            match p.text_at("id") {
                Some(id) => {
                    let ghost before = texts(found@);
                    found.push(lit(id));
                    proof {
                        assert(texts(found@) =~= before.push(id@));
                    }
                },
                None => {},
            }
        }
        i = i + 1;
    }
    proof {
        assert(all.take(all.len() as int) == all);
        assert(texts(found@).len() == found@.len());
    }
    if found.len() != 1 {
        return Err(
            other(
                "The recipient could not be uniquely identified. Use their principal ID if directory lookup is disabled.",
            ),
        );
    }
    proof {
        assert(texts(found@)[0] == found@[0]@);
    }
    Ok(found[0].clone())
}

} // verus!
