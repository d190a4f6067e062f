//! How the workspace words what it shows.

use crate::files::json::{views, Json, Value};
use crate::files::mail_search::{text_or, Attachment};
use crate::files::service::{refuses, Action, Entry, FilesService, Outcome, Row};
use crate::files::{is_valid_name, valid_name, Node};
use crate::text::{decimal, join, join_texts, lit, opt, texts, u64_text};
use vstd::prelude::*;
use vstd::string::*;

verus! {

/// The name of a local file where it is valid, else one that is.
pub open spec fn safe_leaf(name: Seq<char>) -> Seq<char> {
    if valid_name(name) {
        name
    } else {
        "download"@
    }
}

pub fn safe_name(name: &str) -> (r: String)
    ensures
        r@ == safe_leaf(name@),
{
    if is_valid_name(name) {
        lit(name)
    } else {
        lit("download")
    }
}

/// A safe name is always valid, and making a name safe twice changes nothing more.
pub proof fn safe_names_are_valid(name: Seq<char>)
    ensures
        valid_name(safe_leaf(name)),
        safe_leaf(safe_leaf(name)) == safe_leaf(name),
{
    reveal_strlit("download");
    reveal_strlit(".");
    reveal_strlit("..");
    let d = "download"@;
    assert(vstd::utf8::is_ascii_chars(d));
    vstd::utf8::is_ascii_chars_encode_utf8(d);
    assert(valid_name(d)) by {
        assert forall|i: int| 0 <= i < d.len() implies !crate::text::control(#[trigger] d[i])
            && d[i] != '/' && d[i] != '\\' by {}
    }
}

/// The weight of the last binary digit of a 64-bit number that is kept to 53 of them.
pub open spec fn ulp(n: int) -> int {
    if n < 0x20000000000000 {
        1
    } else if n < 0x40000000000000 {
        2
    } else if n < 0x80000000000000 {
        4
    } else if n < 0x100000000000000 {
        8
    } else if n < 0x200000000000000 {
        16
    } else if n < 0x400000000000000 {
        32
    } else if n < 0x800000000000000 {
        64
    } else if n < 0x1000000000000000 {
        128
    } else if n < 0x2000000000000000 {
        256
    } else if n < 0x4000000000000000 {
        512
    } else if n < 0x8000000000000000 {
        1024
    } else {
        2048
    }
}

/// `n / unit` to the nearest integer, to the even one of two that are equally near.
pub open spec fn nearest(n: int, unit: int) -> int {
    let q = n / unit;
    let r = n % unit;
    if 2 * r > unit || (2 * r == unit && q % 2 == 1) {
        q + 1
    } else {
        q
    }
}

/// A number kept to 53 binary digits.
pub open spec fn double(n: int) -> int {
    nearest(n, ulp(n)) * ulp(n)
}

/// A number of tenths with one digit behind the point.
pub open spec fn tenths(n: int) -> Seq<char> {
    decimal((n / 10) as nat) + "."@ + decimal((n % 10) as nat)
}

/// A size in bytes, or to a tenth of a larger unit.
pub open spec fn size_text(bytes: u64) -> Seq<char> {
    if bytes < 1024 {
        decimal(bytes as nat) + " B"@
    } else if bytes < 1048576 {
        tenths(nearest(10 * double(bytes as int), 1024)) + " KB"@
    } else {
        tenths(nearest(10 * double(bytes as int), 1048576)) + " MB"@
    }
}

fn round(n: u128, unit: u128) -> (r: u128)
    requires
        0 < unit <= 0x1_0000_0000,
        n <= 0x1_0000_0000_0000_0000_0000,
    ensures
        r == nearest(n as int, unit as int),
{
    let q: u128 = n / unit;
    let rest: u128 = n % unit;
    proof {
        assert(n as int / unit as int <= n) by (nonlinear_arith)
            requires
                unit > 0,
                n >= 0,
        ;
    }
    if 2 * rest > unit || (2 * rest == unit && q % 2 == 1) {
        q + 1
    } else {
        q
    }
}

fn to_double(n: u64) -> (r: u128)
    ensures
        r == double(n as int),
        r <= 0x1_0000_0000_0000_1000,
{
    let p: u64 = if n < 0x20000000000000 {
        1
    } else if n < 0x40000000000000 {
        2
    } else if n < 0x80000000000000 {
        4
    } else if n < 0x100000000000000 {
        8
    } else if n < 0x200000000000000 {
        16
    } else if n < 0x400000000000000 {
        32
    } else if n < 0x800000000000000 {
        64
    } else if n < 0x1000000000000000 {
        128
    } else if n < 0x2000000000000000 {
        256
    } else if n < 0x4000000000000000 {
        512
    } else if n < 0x8000000000000000 {
        1024
    } else {
        2048
    };
    let q: u128 = round(n as u128, p as u128);
    proof {
        let whole = n as int / p as int;
        assert(q <= whole + 1);
        assert(q * p <= 0x1_0000_0000_0000_1000) by (nonlinear_arith)
            requires
                q <= whole + 1,
                whole == n as int / p as int,
                1 <= p <= 2048,
                n <= 0xffff_ffff_ffff_ffffu64,
        ;
    }
    q * p as u128
}

pub fn size(bytes: u64) -> (r: String)
    ensures
        r@ == size_text(bytes),
{
    if bytes < 1024 {
        u64_text(bytes).concat(" B")
    } else if bytes < 1048576 {
        write_tenths(round(10 * to_double(bytes), 1024)).concat(" KB")
    } else {
        write_tenths(round(10 * to_double(bytes), 1048576)).concat(" MB")
    }
}

fn write_tenths(n: u128) -> (r: String)
    requires
        n <= 0xffff_ffff_ffff_ffff,
    ensures
        r@ == tenths(n as int),
{
    let whole = u64_text((n / 10) as u64);
    let part = u64_text((n % 10) as u64);
    whole.concat(".").concat(part.as_str())
}

/// A text, or a dash where there is none.
pub open spec fn or_dash(o: Option<Seq<char>>) -> Seq<char> {
    match o {
        Some(s) => s,
        None => "—"@,
    }
}

/// How a truth value is shown.
pub open spec fn truth(b: bool) -> Seq<char> {
    if b {
        "true"@
    } else {
        "false"@
    }
}

/// What is known of an attachment.
pub open spec fn attachment_details(a: Attachment) -> Seq<char> {
    a.filename + "\n"@ + a.media_type + " · "@ + size_text(a.size) + "\n\nFrom: "@ + a.sender
        + "\nSubject: "@ + a.subject + "\n\n"@ + (if a.cached {
        "Available offline"@
    } else {
        "Downloads on demand"@
    })
}

/// What is known of a node; `sharing` is how its shares are shown.
pub open spec fn node_details(n: Node, sharing: Option<Seq<char>>) -> Seq<char> {
    n.name + "\n"@ + (match n.media_type {
        Some(s) => s,
        None => "Folder"@,
    }) + " · "@ + (match n.size {
        Some(size) => size_text(size),
        None => Seq::empty(),
    }) + "\n\nCreated: "@ + or_dash(n.created) + "\nModified: "@ + or_dash(n.modified)
        + "\nAccessed: "@ + or_dash(n.accessed) + "\nRole: "@ + or_dash(n.role)
        + "\nExecutable: "@ + truth(n.executable) + "\nSubscribed: "@ + truth(
        n.is_subscribed != Some(false),
    ) + "\n\nSharing:\n"@ + (match sharing {
        Some(s) => s,
        None => "No sharing details returned"@,
    })
}

fn dash(o: &Option<String>) -> (r: String)
    ensures
        r@ == or_dash(opt(*o)),
{
    match o {
        Some(s) => s.clone(),
        None => lit("—"),
    }
}

fn truth_text(b: bool) -> (r: &'static str)
    ensures
        r@ == truth(b),
{
    if b {
        "true"
    } else {
        "false"
    }
}

/// What is known of a row. `sharing` is how the shares of a node are shown, where it has any.
pub fn details(entry: &Entry, sharing: &Option<String>) -> (r: String)
    ensures
        r@ == (match entry@ {
            Row::Attachment(a) => attachment_details(a),
            Row::Remote(n) => node_details(n, opt(*sharing)),
        }),
{
    match entry {
        Entry::Attachment(a) => {
            let bytes = size(a.size);
            a.filename.clone().concat("\n").concat(a.media_type.as_str()).concat(" · ").concat(
                bytes.as_str(),
            ).concat("\n\nFrom: ").concat(a.sender.as_str()).concat("\nSubject: ").concat(
                a.subject.as_str(),
            ).concat("\n\n").concat(
                if a.cached {
                    "Available offline"
                } else {
                    "Downloads on demand"
                },
            )
        },
        Entry::Remote(n) => {
            let kind = match &n.media_type {
                Some(s) => s.clone(),
                None => lit("Folder"),
            };
            let bytes = match n.size {
                Some(b) => size(b),
                None => String::new(),
            };
            let shares = match sharing {
                Some(s) => s.clone(),
                None => lit("No sharing details returned"),
            };
            let subscribed = match n.is_subscribed {
                Some(b) => b,
                None => true,
            };
            n.name.clone().concat("\n").concat(kind.as_str()).concat(" · ").concat(
                bytes.as_str(),
            ).concat("\n\nCreated: ").concat(dash(&n.created).as_str()).concat(
                "\nModified: ",
            ).concat(dash(&n.modified).as_str()).concat("\nAccessed: ").concat(
                dash(&n.accessed).as_str(),
            ).concat("\nRole: ").concat(dash(&n.role).as_str()).concat("\nExecutable: ").concat(
                truth_text(n.executable),
            ).concat("\nSubscribed: ").concat(truth_text(subscribed)).concat(
                "\n\nSharing:\n",
            ).concat(shares.as_str())
        },
    }
}

/// How one sharing notification is shown.
pub open spec fn notice(n: Value) -> Seq<char> {
    text_or(n.at("name"@), "File"@) + "\n"@ + text_or(n.at("changedBy"@).at("name"@), ""@)
        + " · "@ + text_or(n.at("created"@), ""@) + "\n"@ + (if n.at("newRights"@)
        == Value::Null {
        "Access removed"@
    } else {
        "Permissions updated"@
    })
}

/// How the sharing notifications are shown.
pub open spec fn notices(list: Seq<Value>) -> Seq<char> {
    if list.len() == 0 {
        "No sharing notifications."@
    } else {
        join(list.map_values(|n: Value| notice(n)), "\n\n"@)
    }
}

/// The ids of the notifications, those that have one.
pub open spec fn notice_ids(list: Seq<Value>) -> Seq<Seq<char>>
    decreases list.len(),
{
    if list.len() == 0 {
        Seq::empty()
    } else {
        let before = notice_ids(list.drop_last());
        match list.last().at("id"@).text() {
            Some(id) => before.push(id),
            None => before,
        }
    }
}

fn text_of(v: Option<&Json>, default: &str) -> (r: String)
    ensures
        r@ == text_or(
            match v {
                Some(j) => j@,
                None => Value::Null,
            },
            default@,
        ),
{
    match v {
        Some(j) => match j.as_text() {
            Some(s) => lit(s),
            None => lit(default),
        },
        None => lit(default),
    }
}

fn write_notice(n: &Json) -> (r: String)
    ensures
        r@ == notice(n@),
{
    let who = match n.get("changedBy") {
        Some(c) => c.get("name"),
        None => None,
    };
    let name = text_of(n.get("name"), "File");
    let changed = text_of(who, "");
    let created = text_of(n.get("created"), "");
    name.concat("\n").concat(changed.as_str()).concat(" · ").concat(created.as_str()).concat(
        "\n",
    ).concat(
        if n.null_at("newRights") {
            "Access removed"
        } else {
            "Permissions updated"
        },
    )
}

impl FilesService {
    /// Take the sharing notifications, and show them.
    pub fn notified(&mut self, result: &Json) -> (r: Outcome<String>)
        ensures
            match result@.at("list"@).items() {
                None => refuses(r, "Invalid sharing notifications."@),
                Some(list) => {
                    &&& r is Ok
                    &&& r->Ok_0@ == notices(list)
                    &&& texts(final(self).notification_ids@) == notice_ids(list)
                    &&& opt(final(self).notification_state) == result@.at("state"@).text()
                    &&& *final(self) == (FilesService {
                        notification_ids: final(self).notification_ids,
                        notification_state: final(self).notification_state,
                        ..*old(self)
                    })
                },
            },
    {
        let list = match result.list_at("list") {
            Some(list) => list,
            None => {
                return Err(lit("Invalid sharing notifications."));
            },
        };
        let ghost all = views(list@);
        let mut ids: Vec<String> = Vec::new();
        let mut shown: Vec<String> = Vec::new();
        let mut i: usize = 0;
        proof {
            assert(all.take(0) == Seq::<Value>::empty());
            assert(texts(ids@) =~= Seq::<Seq<char>>::empty());
        }
        while i < list.len()
            invariant
                i <= list.len(),
                all == views(list@),
                texts(ids@) == notice_ids(all.take(i as int)),
                shown@.len() == i,
                forall|k: int| 0 <= k < i ==> (#[trigger] shown@[k])@ == notice(all[k]),
            decreases list.len() - i,
        {
            proof {
                assert(all.take(i + 1).drop_last() == all.take(i as int));
                assert(all.take(i + 1).last() == list@[i as int]@);
            }
            match list[i].text_at("id") {
                Some(id) => {
                    let ghost before = texts(ids@);
                    ids.push(lit(id));
                    proof {
                        assert(texts(ids@) =~= before.push(id@));
                    }
                },
                None => {},
            }
            shown.push(write_notice(&list[i]));
            i = i + 1;
        }
        proof {
            assert(all.take(all.len() as int) == all);
            assert(texts(shown@) =~= all.map_values(|n: Value| notice(n)));
        }
        self.notification_state = match result.text_at("state") {
            Some(s) => Some(lit(s)),
            None => None,
        };
        self.notification_ids = ids;
        if shown.len() == 0 {
            Ok(lit("No sharing notifications."))
        } else {
            Ok(join_texts(&shown, "\n\n"))
        }
    }

    /// How many rows are shown, and of what.
    pub open spec fn count_status(self) -> Seq<char> {
        let count = decimal(self.entries@.len());
        if self.attachments {
            count + " attachments · synchronized mail"@
        } else if self.settings.webdav {
            count + " items · search covers this folder"@
        } else {
            count + " items"@
        }
    }

    /// What the user is told when an action is done: what it did, or how much is shown.
    pub fn status_line(&self, status: &str) -> (r: String)
        ensures
            r@ == (if status@.len() > 0 {
                status@
            } else {
                self.count_status()
            }),
    {
        if !status.is_empty() {
            return lit(status);
        }
        let count = u64_text(self.entries.len() as u64);
        if self.attachments {
            count.concat(" attachments · synchronized mail")
        } else if self.settings.webdav {
            count.concat(" items · search covers this folder")
        } else {
            count.concat(" items")
        }
    }
}

/// What an action did.
pub open spec fn done_status(action: Action) -> Seq<char> {
    match action {
        Action::Folder => "Folder created."@,
        Action::Upload | Action::Replace => "File uploaded."@,
        Action::CopySpace => "File copied to the selected storage space."@,
        Action::Rename
        | Action::Move
        | Action::Copy
        | Action::Delete
        | Action::Share
        | Action::Unshare
        | Action::Lock
        | Action::Unlock
        | Action::Metadata
        | Action::RemoveProperty => "File updated."@,
        _ => ""@,
    }
}

/// What the user is told that an action did; nothing where how much is shown says it.
pub fn action_status(action: Action) -> (r: &'static str)
    ensures
        r@ == done_status(action),
{
    match action {
        Action::Folder => "Folder created.",
        Action::Upload | Action::Replace => "File uploaded.",
        Action::CopySpace => "File copied to the selected storage space.",
        Action::Rename
        | Action::Move
        | Action::Copy
        | Action::Delete
        | Action::Share
        | Action::Unshare
        | Action::Lock
        | Action::Unlock
        | Action::Metadata
        | Action::RemoveProperty => "File updated.",
        _ => "",
    }
}

/// What the user is told of an indexing run.
pub fn indexed_status(count: usize) -> (r: String)
    ensures
        r@ == "Indexed "@ + decimal(count as nat)
            + " cached text attachments. Text, JSON and XML up to 1 MiB are supported; other formats remain searchable by metadata."@,
{
    let number = u64_text(count as u64);
    lit("Indexed ").concat(number.as_str()).concat(
        " cached text attachments. Text, JSON and XML up to 1 MiB are supported; other formats remain searchable by metadata.",
    )
}

/// A line of the quota of a storage: `used` and `limit` as the server wrote them.
pub struct QuotaLine {
    pub name: Option<String>,
    pub used: String,
    pub limit: String,
    pub unit: Option<String>,
}

/// How a line of the quota is shown.
pub open spec fn quota_line(q: QuotaLine) -> Seq<char> {
    (match q.name {
        Some(s) => s@,
        None => "Storage"@,
    }) + ": "@ + q.used@ + " / "@ + q.limit@ + " "@ + (match q.unit {
        Some(s) => s@,
        None => Seq::empty(),
    })
}

/// How the quota of a storage is shown.
pub fn quota_text(lines: &Vec<QuotaLine>) -> (r: String)
    ensures
        r@ == join(lines@.map_values(|q: QuotaLine| quota_line(q)), "\n"@),
{
    let mut out: Vec<String> = Vec::new();
    let mut i: usize = 0;
    while i < lines.len()
        invariant
            i <= lines.len(),
            out@.len() == i,
            forall|k: int| 0 <= k < i ==> (#[trigger] out@[k])@ == quota_line(lines@[k]),
        decreases lines.len() - i,
    {
        let q = &lines[i];
        let name = match &q.name {
            Some(s) => s.clone(),
            None => lit("Storage"),
        };
        let unit = match &q.unit {
            Some(s) => s.clone(),
            None => String::new(),
        };
        out.push(
            name.concat(": ").concat(q.used.as_str()).concat(" / ").concat(
                q.limit.as_str(),
            ).concat(" ").concat(unit.as_str()),
        );
        i = i + 1;
    }
    proof {
        assert(texts(out@) =~= lines@.map_values(|q: QuotaLine| quota_line(q)));
    }
    join_texts(&out, "\n")
}

} // verus!
