//! Changes of a node, as each protocol makes them.

use crate::files::dates::{instant, read_rfc3339, rfc3339_moment, Instant, Moment};
use crate::files::json::{place_is, put_is_read_back, Json, Value};
use crate::files::service::{refuses, Action, Outcome};
use crate::files::FileNode;
use crate::text::{
    has_char, lit, once, opt, opt_str, parse_u64, parsed_u64, replace_char, replaced, split,
    split_char, split_once, texts,
};
use vstd::prelude::*;
use vstd::string::*;
use vstd::utf8::encode_utf8;

verus! {

/// How JMAP storage changes a node.
pub enum JmapEdit {
    /// Patch it.
    Update(Json),
    /// Copy it into the destination under that name.
    Copy,
    /// Delete it with everything below.
    Delete,
    /// Look up the recipient and patch its share.
    Share,
}

/// A patch with one date set, or which date cannot be read.
pub open spec fn with_date(
    patch: std::result::Result<Value, Seq<char>>,
    key: Seq<char>,
    date: Seq<char>,
) -> std::result::Result<Value, Seq<char>> {
    match patch {
        Err(m) => Err(m),
        Ok(v) => if date.len() == 0 {
            Ok(v)
        } else {
            dated(v, key, rfc3339_moment(date))
        },
    }
}

/// A patch with one date set to what was read of it, or which date could not be read.
pub open spec fn dated(v: Value, key: Seq<char>, read: Option<Instant>) -> std::result::Result<
    Value,
    Seq<char>,
> {
    match read {
        Some(t) => Ok(v.put(key, Value::Text(t.utc))),
        None => Err("Enter a valid "@ + key + " date with its UTC offset."@),
    }
}

/// Set one date of a patch to what was read of it.
pub fn put_date(patch: Json, key: &str, read: Option<Moment>) -> (r: Outcome<Json>)
    ensures
        match dated(patch@, key@, instant(read)) {
            Ok(v) => r is Ok && r->Ok_0@ == v,
            Err(m) => refuses(r, m),
        },
{
    match read {
        Some(t) => Ok(patch.put(key, Json::Text(t.utc))),
        None => Err(lit("Enter a valid ").concat(key).concat(" date with its UTC offset.")),
    }
}

/// The patch that a change of metadata makes, or why it makes none: three dates, each empty to
/// leave it be, and for a file whether it can be executed.
pub open spec fn metadata_patch(directory: bool, a: Seq<char>, b: Seq<char>) -> std::result::Result<
    Value,
    Seq<char>,
> {
    let dates = split(a, |c: char| c == '|');
    if dates.len() != 3 {
        Err("Invalid dates."@)
    } else {
        let base = if directory {
            Value::empty()
        } else {
            Value::empty().put("executable"@, Value::Bool(b.contains('x')))
        };
        with_date(
            with_date(with_date(Ok(base), "created"@, dates[0]), "modified"@, dates[1]),
            "accessed"@,
            dates[2],
        )
    }
}

fn set_date(patch: Json, key: &str, date: &str) -> (r: Outcome<Json>)
    ensures
        match with_date(Ok(patch@), key@, date@) {
            Ok(v) => r is Ok && r->Ok_0@ == v,
            Err(m) => refuses(r, m),
        },
{
    if date.is_empty() {
        return Ok(patch);
    }
    put_date(patch, key, read_rfc3339(date))
}

fn patch_metadata(directory: bool, a: &str, b: &str) -> (r: Outcome<Json>)
    ensures
        match metadata_patch(directory, a@, b@) {
            Ok(v) => r is Ok && r->Ok_0@ == v,
            Err(m) => refuses(r, m),
        },
{
    let dates = split_char(a, '|');
    proof {
        assert(texts(dates@).len() == dates@.len());
    }
    if dates.len() != 3 {
        return Err(lit("Invalid dates."));
    }
    proof {
        assert(texts(dates@)[0] == dates@[0]@);
        assert(texts(dates@)[1] == dates@[1]@);
        assert(texts(dates@)[2] == dates@[2]@);
    }
    let base = if directory {
        Json::object()
    } else {
        Json::object().put("executable", Json::Bool(has_char(b, 'x')))
    };
    let created = match set_date(base, "created", dates[0].as_str()) {
        Ok(v) => v,
        Err(e) => {
            return Err(e);
        },
    };
    let modified = match set_date(created, "modified", dates[1].as_str()) {
        Ok(v) => v,
        Err(e) => {
            return Err(e);
        },
    };
    set_date(modified, "accessed", dates[2].as_str())
}

/// A patch of dates sets each date that is given, in universal time and under its own name, and no
/// other; of a file it also sets whether it can be run.
pub proof fn dates_are_set_under_their_names(directory: bool, a: Seq<char>, b: Seq<char>)
    requires
        metadata_patch(directory, a, b) is Ok,
    ensures
        ({
            let dates = split(a, |c: char| c == '|');
            let patch = metadata_patch(directory, a, b)->Ok_0;
            &&& dates.len() == 3
            &&& sets_date(patch, "created"@, dates[0])
            &&& sets_date(patch, "modified"@, dates[1])
            &&& sets_date(patch, "accessed"@, dates[2])
            &&& !directory ==> patch.at("executable"@) == Value::Bool(b.contains('x'))
            &&& directory ==> !patch.has("executable"@)
        }),
{
    reveal_strlit("created");
    reveal_strlit("modified");
    reveal_strlit("accessed");
    reveal_strlit("executable");
    assert("created"@.len() == 7 && "modified"@.len() == 8 && "accessed"@.len() == 8);
    assert("modified"@[0] == 'm' && "accessed"@[0] == 'a' && "executable"@.len() == 10);
    let dates = split(a, |c: char| c == '|');
    let none = Value::empty();
    let base = if directory {
        none
    } else {
        none.put("executable"@, Value::Bool(b.contains('x')))
    };
    put_is_read_back(none, "executable"@, Value::Bool(b.contains('x')), "created"@);
    put_is_read_back(none, "executable"@, Value::Bool(b.contains('x')), "modified"@);
    put_is_read_back(none, "executable"@, Value::Bool(b.contains('x')), "accessed"@);
    place_is(none->Object_0, "created"@, 0);
    place_is(none->Object_0, "modified"@, 0);
    place_is(none->Object_0, "accessed"@, 0);
    place_is(none->Object_0, "executable"@, 0);
    let first = with_date(Ok(base), "created"@, dates[0]);
    let second = with_date(first, "modified"@, dates[1]);
    dating_sets(base, "created"@, dates[0]);
    dating_sets(first->Ok_0, "modified"@, dates[1]);
    dating_sets(second->Ok_0, "accessed"@, dates[2]);
}

/// Whether a patch sets a date where one is given.
pub open spec fn sets_date(patch: Value, key: Seq<char>, date: Seq<char>) -> bool {
    if date.len() == 0 {
        !patch.has(key)
    } else {
        match rfc3339_moment(date) {
            Some(t) => patch.at(key) == Value::Text(t.utc),
            None => false,
        }
    }
}

proof fn dating_sets(v: Value, key: Seq<char>, date: Seq<char>)
    requires
        v is Object,
        with_date(Ok(v), key, date) is Ok,
    ensures
        ({
            let after = with_date(Ok(v), key, date)->Ok_0;
            &&& after is Object
            &&& !v.has(key) ==> sets_date(after, key, date)
            &&& forall|k: Seq<char>| k != key ==> #[trigger] after.at(k) == v.at(k)
            &&& forall|k: Seq<char>| k != key ==> #[trigger] after.has(k) == v.has(k)
        }),
{
    if date.len() > 0 {
        let t = rfc3339_moment(date)->0;
        assert forall|k: Seq<char>| k != key implies v.put(key, Value::Text(t.utc)).at(k) == v.at(k)
            && v.put(key, Value::Text(t.utc)).has(k) == v.has(k) by {
            put_is_read_back(v, key, Value::Text(t.utc), k);
        }
        put_is_read_back(v, key, Value::Text(t.utc), key);
    }
}

/// Whether an edit is a patch with that value.
pub open spec fn updates(r: Outcome<JmapEdit>, v: Value) -> bool {
    r is Ok && r->Ok_0 is Update && r->Ok_0->Update_0@ == v
}

/// How JMAP storage makes a change of a node. `parent` is the destination of a move.
pub fn jmap_edit(n: &FileNode, action: Action, a: &str, b: &str, parent: Option<&str>) -> (r: Outcome<
    JmapEdit,
>)
    ensures
        match action {
            Action::Metadata => match metadata_patch(n@.directory(), a@, b@) {
                Ok(v) => updates(r, v),
                Err(m) => refuses(r, m),
            },
            Action::Rename => updates(r, Value::empty().with("name"@, Value::Text(a@))),
            Action::Move => updates(
                r,
                Value::empty().with("name"@, Value::Text(a@)).with(
                    "parentId"@,
                    Value::opt_text(opt_str(parent)),
                ),
            ),
            Action::Copy => r is Ok && r->Ok_0 is Copy,
            Action::Delete => r is Ok && r->Ok_0 is Delete,
            Action::Share | Action::Unshare => if a@.len() == 0 || encode_utf8(a@).len() > 256 {
                refuses(r, "Enter a recipient account ID."@)
            } else {
                r is Ok && r->Ok_0 is Share
            },
            _ => refuses(r, "Locks are available through WebDAV."@),
        },
{
    match action {
        Action::Metadata => match patch_metadata(n.is_directory(), a, b) {
            Ok(v) => Ok(JmapEdit::Update(v)),
            Err(e) => Err(e),
        },
        Action::Rename => Ok(JmapEdit::Update(Json::object().with("name", Json::text(a)))),
        Action::Move => {
            let into = match parent {
                Some(p) => Json::text(p),
                None => Json::Null,
            };
            Ok(
                JmapEdit::Update(
                    Json::object().with("name", Json::text(a)).with("parentId", into),
                ),
            )
        },
        Action::Copy => Ok(JmapEdit::Copy),
        Action::Delete => Ok(JmapEdit::Delete),
        Action::Share | Action::Unshare => {
            if a.is_empty() || a.as_bytes().len() > 256 {
                return Err(lit("Enter a recipient account ID."));
            }
            Ok(JmapEdit::Share)
        },
        _ => Err(lit("Locks are available through WebDAV.")),
    }
}

/// The property that holds the share of a recipient, as a JSON pointer.
pub open spec fn share_key(recipient: Seq<char>) -> Seq<char> {
    "shareWith/"@ + replaced(replaced(recipient, '~', "~0"@), '/', "~1"@)
}

/// The rights that flags grant: one by one where the server knows them so, else reading, writing
/// and sharing.
pub open spec fn shared_rights(modern: bool, flags: Seq<char>) -> Value {
    let base = Value::empty().with("mayRead"@, Value::Bool(true));
    if modern {
        base.with("mayAddChildren"@, Value::Bool(flags.contains('a'))).with(
            "mayRename"@,
            Value::Bool(flags.contains('r')),
        ).with("mayDelete"@, Value::Bool(flags.contains('d'))).with(
            "mayModifyContent"@,
            Value::Bool(flags.contains('w')),
        ).with("mayShare"@, Value::Bool(flags.contains('s')))
    } else {
        base.with(
            "mayWrite"@,
            Value::Bool(
                flags.contains('w') || flags.contains('a') || flags.contains('r')
                    || flags.contains('d'),
            ),
        ).with("mayShare"@, Value::Bool(flags.contains('s')))
    }
}

/// A share grants what its flags say: to add, rename, delete, change and share, each by its letter;
/// on servers with one right to write, any of the first four grants that right. Whoever shares lets
/// read.
pub proof fn shares_grant_what_is_asked(flags: Seq<char>)
    ensures
        ({
            let new = shared_rights(true, flags);
            let old_form = shared_rights(false, flags);
            &&& new.at("mayRead"@) == Value::Bool(true)
            &&& new.at("mayAddChildren"@) == Value::Bool(flags.contains('a'))
            &&& new.at("mayRename"@) == Value::Bool(flags.contains('r'))
            &&& new.at("mayDelete"@) == Value::Bool(flags.contains('d'))
            &&& new.at("mayModifyContent"@) == Value::Bool(flags.contains('w'))
            &&& new.at("mayShare"@) == Value::Bool(flags.contains('s'))
            &&& !new.has("mayWrite"@)
            &&& old_form.at("mayRead"@) == Value::Bool(true)
            &&& old_form.at("mayWrite"@) == Value::Bool(
                flags.contains('a') || flags.contains('r') || flags.contains('d')
                    || flags.contains('w'),
            )
            &&& old_form.at("mayShare"@) == Value::Bool(flags.contains('s'))
        }),
{
    reveal_strlit("mayRead");
    reveal_strlit("mayAddChildren");
    reveal_strlit("mayRename");
    reveal_strlit("mayDelete");
    reveal_strlit("mayModifyContent");
    reveal_strlit("mayShare");
    reveal_strlit("mayWrite");
    assert("mayRead"@.len() == 7 && "mayAddChildren"@.len() == 14 && "mayRename"@.len() == 9);
    assert("mayDelete"@.len() == 9 && "mayModifyContent"@.len() == 16);
    assert("mayShare"@.len() == 8 && "mayWrite"@.len() == 8);
    assert("mayRename"@[3] == 'R' && "mayDelete"@[3] == 'D');
    assert("mayShare"@[3] == 'S' && "mayWrite"@[3] == 'W');
    let new = shared_rights(true, flags)->Object_0;
    place_is(new, "mayRead"@, 0);
    place_is(new, "mayAddChildren"@, 1);
    place_is(new, "mayRename"@, 2);
    place_is(new, "mayDelete"@, 3);
    place_is(new, "mayModifyContent"@, 4);
    place_is(new, "mayShare"@, 5);
    place_is(new, "mayWrite"@, 6);
    let old_form = shared_rights(false, flags)->Object_0;
    place_is(old_form, "mayRead"@, 0);
    place_is(old_form, "mayWrite"@, 1);
    place_is(old_form, "mayShare"@, 2);
}

/// The patch that changes the share of a recipient.
pub fn share_patch(modern: bool, recipient: &str, action: Action, flags: &str) -> (r: Json)
    ensures
        r@ == Value::empty().with(
            share_key(recipient@),
            if action == Action::Unshare {
                Value::Null
            } else {
                shared_rights(modern, flags@)
            },
        ),
{
    let escaped = replace_char(replace_char(recipient, '~', "~0").as_str(), '/', "~1");
    let key = lit("shareWith/").concat(escaped.as_str());
    let rights = if matches!(action, Action::Unshare) {
        Json::Null
    } else {
        let base = Json::object().with("mayRead", Json::Bool(true));
        let w = has_char(flags, 'w');
        let a = has_char(flags, 'a');
        let x = has_char(flags, 'r');
        let d = has_char(flags, 'd');
        let s = has_char(flags, 's');
        if modern {
            base.with("mayAddChildren", Json::Bool(a)).with("mayRename", Json::Bool(x)).with(
                "mayDelete",
                Json::Bool(d),
            ).with("mayModifyContent", Json::Bool(w)).with("mayShare", Json::Bool(s))
        } else {
            base.with("mayWrite", Json::Bool(w || a || x || d)).with("mayShare", Json::Bool(s))
        }
    };
    Json::object().with(key.as_str(), rights)
}

/// How WebDAV storage changes a node.
pub enum DavEdit {
    /// Move it, or copy it.
    Relocate(bool),
    Delete,
    /// Set a property, or remove it: namespace, name and value.
    Patch(String, String, Option<String>),
    /// Grant privileges, or take the share away.
    Share(Vec<&'static str>, bool),
    /// Lock it: shared, with everything below, for so many seconds.
    Lock(bool, bool, u32),
    Unlock,
}

/// The privileges that flags grant.
pub open spec fn flag_privileges(flags: Seq<char>) -> Seq<Seq<char>> {
    let p0 = seq!["read"@];
    let p1 = if flags.contains('w') {
        p0.push("write-content"@)
    } else {
        p0
    };
    let p2 = if flags.contains('p') {
        p1.push("write-properties"@)
    } else {
        p1
    };
    let p3 = if flags.contains('a') {
        p2.push("bind"@)
    } else {
        p2
    };
    let p4 = if flags.contains('d') {
        p3.push("unbind"@)
    } else {
        p3
    };
    if flags.contains('s') {
        p4.push("write-acl"@)
    } else {
        p4
    }
}

/// The privileges of a share are those of its flags, each by its letter, and to read.
pub proof fn flags_grant_their_privileges(flags: Seq<char>)
    ensures
        ({
            let p = flag_privileges(flags);
            &&& p.contains("read"@)
            &&& p.contains("write-content"@) <==> flags.contains('w')
            &&& p.contains("write-properties"@) <==> flags.contains('p')
            &&& p.contains("bind"@) <==> flags.contains('a')
            &&& p.contains("unbind"@) <==> flags.contains('d')
            &&& p.contains("write-acl"@) <==> flags.contains('s')
            &&& forall|k: int|
                0 <= k < p.len() ==> #[trigger] p[k] == "read"@ || p[k] == "write-content"@ || p[k]
                    == "write-properties"@ || p[k] == "bind"@ || p[k] == "unbind"@ || p[k]
                    == "write-acl"@
        }),
{
    reveal_strlit("read");
    reveal_strlit("write-content");
    reveal_strlit("write-properties");
    reveal_strlit("bind");
    reveal_strlit("unbind");
    reveal_strlit("write-acl");
    assert("read"@.len() == 4 && "bind"@.len() == 4 && "unbind"@.len() == 6);
    assert("read"@[0] == 'r' && "bind"@[0] == 'b');
    assert("write-content"@.len() == 13 && "write-properties"@.len() == 16);
    assert("write-acl"@.len() == 9);
    let p0 = seq!["read"@];
    assert(p0[0] == "read"@);
    let p1 = grown(p0, "write-content"@, flags.contains('w'));
    let p2 = grown(p1, "write-properties"@, flags.contains('p'));
    let p3 = grown(p2, "bind"@, flags.contains('a'));
    let p4 = grown(p3, "unbind"@, flags.contains('d'));
    growing_adds(p0, "write-content"@, flags.contains('w'));
    growing_adds(p1, "write-properties"@, flags.contains('p'));
    growing_adds(p2, "bind"@, flags.contains('a'));
    growing_adds(p3, "unbind"@, flags.contains('d'));
    growing_adds(p4, "write-acl"@, flags.contains('s'));
    assert(flag_privileges(flags) == grown(p4, "write-acl"@, flags.contains('s')));
    let p = flag_privileges(flags);
    assert forall|k: int| 0 <= k < p.len() implies #[trigger] p[k] == "read"@ || p[k]
        == "write-content"@ || p[k] == "write-properties"@ || p[k] == "bind"@ || p[k] == "unbind"@
        || p[k] == "write-acl"@ by {
        assert(p.contains(p[k]));
    }
}

/// A list with one more item, where it is asked for.
spec fn grown(list: Seq<Seq<char>>, item: Seq<char>, asked: bool) -> Seq<Seq<char>> {
    if asked {
        list.push(item)
    } else {
        list
    }
}

proof fn growing_adds(list: Seq<Seq<char>>, item: Seq<char>, asked: bool)
    ensures
        forall|x: Seq<char>| #[trigger]
            grown(list, item, asked).contains(x) <==> list.contains(x) || (asked && x == item),
{
    let more = list.push(item);
    assert(more[list.len() as int] == item);
    assert forall|x: Seq<char>| list.contains(x) implies more.contains(x) by {
        let k = choose|k: int| 0 <= k < list.len() && list[k] == x;
        assert(more[k] == x);
    }
}

/// A property that the user names with its namespace; the description where none is named.
pub open spec fn named_property(b: Seq<char>) -> (Seq<char>, Seq<char>) {
    match once(b, '|') {
        Some(parts) => parts,
        None => ("urn:flectar:files"@, "description"@),
    }
}

/// For how long a lock is asked for.
pub open spec fn wanted_seconds(a: Seq<char>) -> u32 {
    match parsed_u64(a) {
        Some(n) => if n <= u32::MAX {
            n as u32
        } else {
            300
        },
        None => 300,
    }
}

fn privileges_for(flags: &str) -> (r: Vec<&'static str>)
    ensures
        crate::files::davwrite::str_texts(r@) == flag_privileges(flags@),
{
    let mut out: Vec<&'static str> = vec!["read"];
    if has_char(flags, 'w') {
        out.push("write-content");
    }
    if has_char(flags, 'p') {
        out.push("write-properties");
    }
    if has_char(flags, 'a') {
        out.push("bind");
    }
    if has_char(flags, 'd') {
        out.push("unbind");
    }
    if has_char(flags, 's') {
        out.push("write-acl");
    }
    proof {
        assert(crate::files::davwrite::str_texts(out@) =~= flag_privileges(flags@));
    }
    out
}

/// An action that changes a node.
pub open spec fn edits(action: Action) -> bool {
    action == Action::Rename || action == Action::Move || action == Action::Copy || action
        == Action::Delete || action == Action::Share || action == Action::Unshare || action
        == Action::Lock || action == Action::Unlock || action == Action::Metadata || action
        == Action::RemoveProperty
}

/// How WebDAV storage makes a change of a node.
pub fn dav_edit(action: Action, a: &str, b: &str) -> (r: DavEdit)
    requires
        edits(action),
    ensures
        match action {
            Action::Rename | Action::Move => r == DavEdit::Relocate(false),
            Action::Copy => r == DavEdit::Relocate(true),
            Action::Delete => r is Delete,
            Action::Metadata | Action::RemoveProperty => r is Patch && (
                r->Patch_0@,
                r->Patch_1@,
            ) == named_property(b@) && opt(r->Patch_2) == (if action == Action::RemoveProperty {
                None
            } else {
                Some(a@)
            }),
            Action::Share | Action::Unshare => r is Share && crate::files::davwrite::str_texts(
                r->Share_0@,
            ) == flag_privileges(b@) && r->Share_1 == (action == Action::Unshare),
            Action::Lock => r == DavEdit::Lock(
                b@.contains('s'),
                b@.contains('r'),
                wanted_seconds(a@),
            ),
            _ => r is Unlock,
        },
{
    match action {
        Action::Rename | Action::Move => DavEdit::Relocate(false),
        Action::Copy => DavEdit::Relocate(true),
        Action::Delete => DavEdit::Delete,
        Action::Metadata | Action::RemoveProperty => {
            let (namespace, name) = match split_once(b, '|') {
                Some(parts) => parts,
                None => (lit("urn:flectar:files"), lit("description")),
            };
            let value = if matches!(action, Action::RemoveProperty) {
                None
            } else {
                Some(lit(a))
            };
            DavEdit::Patch(namespace, name, value)
        },
        Action::Share | Action::Unshare => DavEdit::Share(
            privileges_for(b),
            matches!(action, Action::Unshare),
        ),
        Action::Lock => {
            let seconds: u32 = match parse_u64(a) {
                Some(n) => if n <= 0xffff_ffff {
                    n as u32
                } else {
                    300
                },
                None => 300,
            };
            DavEdit::Lock(has_char(b, 's'), has_char(b, 'r'), seconds)
        },
        _ => DavEdit::Unlock,
    }
}

} // verus!
