//! Labels: their names and scopes, and how they follow the keywords of a server.

use crate::error::{fails, other, says, CoreError, Result};
use crate::repo::ids::holds;
use crate::text::{
    chars, control, from_chars, has_member, i64_text, is_control, is_same_ascii, lit, same_ascii,
    signed_decimal, texts, trim_end_char, trim_end_of, trim_start_char, trim_start_of,
};
use vstd::prelude::*;
use vstd::string::*;

verus! {

/// A label.
#[derive(Debug)]
pub struct Label {
    pub id: i64,
    pub name: String,
    pub color: String,
    pub keyword: String,
    pub position: i64,
    pub owner_account_id: Option<i64>,
    pub is_auto: bool,
}

/// Where a label holds.
#[derive(Debug, Clone, Copy, PartialEq, Eq, Structural)]
pub enum Scope {
    Automatic,
    Global,
    Account,
}

impl Scope {
    /// How a scope is stored.
    pub open spec fn text(self) -> Seq<char> {
        match self {
            Scope::Automatic => "automatic"@,
            Scope::Global => "global"@,
            Scope::Account => "account"@,
        }
    }

    pub fn as_str(self) -> (r: &'static str)
        ensures
            r@ == self.text(),
    {
        match self {
            Scope::Automatic => "automatic",
            Scope::Global => "global",
            Scope::Account => "account",
        }
    }
}

/// A label as it is stored.
#[derive(Debug)]
pub struct LabelRow {
    pub label: Label,
    pub scope: Scope,
}

/// What stands in a keyword for a character of a name: an atom may hold neither controls nor
/// these.
pub open spec fn atom_char(c: char) -> char {
    if c == '(' || c == ')' || c == '{' || c == ' ' || c == '%' || c == '*' || c == '"' || c
        == '\\' || c == ']' || control(c) {
        '_'
    } else {
        c
    }
}

/// The keyword of a name.
pub open spec fn keyword(name: Seq<char>) -> Seq<char> {
    let kept = trim_end_of(trim_start_of(name.map_values(|c: char| atom_char(c)), '_'), '_');
    if kept.len() == 0 {
        "Label"@
    } else {
        kept
    }
}

/// Derive a valid IMAP keyword atom from a label name. IMAP flag-keywords are
/// atoms, so strip the characters an atom may not contain (RFC 3501) and fall
/// back to a stable placeholder when nothing usable remains.
pub fn keyword_for(name: &str) -> (r: String)
    ensures
        r@ == keyword(name@),
{
    let mut out: Vec<char> = Vec::new();
    let all = chars(name);
    let mut i: usize = 0;
    while i < all.len()
        invariant
            i <= all.len(),
            all@ == name@,
            out@ == name@.take(i as int).map_values(|c: char| atom_char(c)),
        decreases all.len() - i,
    {
        let c = all[i];
        let kept = if c == '(' || c == ')' || c == '{' || c == ' ' || c == '%' || c == '*' || c
            == '"' || c == '\\' || c == ']' || is_control(c) {
            '_'
        } else {
            c
        };
        proof {
            assert(name@.take(i + 1) =~= name@.take(i as int).push(name@[i as int]));
        }
        out.push(kept);
        proof {
            assert(out@ =~= name@.take(i + 1).map_values(|c: char| atom_char(c)));
        }
        i = i + 1;
    }
    proof {
        assert(name@.take(name@.len() as int) =~= name@);
    }
    let head = trim_start_char(from_chars(&out).as_str(), '_');
    let kept = trim_end_char(head.as_str(), '_');
    if kept.as_str().is_empty() {
        lit("Label")
    } else {
        kept
    }
}

/// A keyword is never empty and holds nothing that an atom may not hold.
pub proof fn keywords_are_atoms(name: Seq<char>)
    ensures
        keyword(name).len() > 0,
        forall|i: int|
            0 <= i < keyword(name).len() ==> {
                let c = #[trigger] keyword(name)[i];
                atom_char(c) == c && c != '(' && c != ')' && c != '{' && c != ' ' && c != '%' && c
                    != '*' && c != '"' && c != '\\' && c != ']' && !control(c)
            },
        keyword(name) == "Label"@ || (keyword(name)[0] != '_' && keyword(name).last() != '_'),
        name.len() > 0 && name[0] != '_' && name.last() != '_' && (forall|i: int|
            0 <= i < name.len() ==> {
                let c = #[trigger] name[i];
                c != '(' && c != ')' && c != '{' && c != ' ' && c != '%' && c != '*' && c != '"' && c
                    != '\\' && c != ']' && !control(c)
            }) ==> keyword(name) == name,
{
    reveal_strlit("Label");
    let mapped = name.map_values(|c: char| atom_char(c));
    let head = trim_start_of(mapped, '_');
    trimmed_start_is_within(mapped, '_');
    trimmed_end_is_within(head, '_');
    if trim_end_of(head, '_').len() > 0 {
        assert(trim_end_of(head, '_')[0] == head[0]);
    }
    if name.len() > 0 && (forall|i: int| 0 <= i < name.len() ==> atom_char(#[trigger] name[i]) == name[i]) {
        assert(mapped =~= name);
    }
    assert forall|i: int| 0 <= i < keyword(name).len() implies {
        let c = #[trigger] keyword(name)[i];
        atom_char(c) == c
    } by {
        let kept = trim_end_of(head, '_');
        if kept.len() != 0 {
            let from = mapped.len() - head.len();
            assert(kept[i] == head[i]);
            assert(head[i] == mapped[from + i]);
            assert(mapped[from + i] == atom_char(name[from + i]));
        }
    }
}

proof fn trimmed_start_is_within(s: Seq<char>, c: char)
    ensures
        trim_start_of(s, c).len() <= s.len(),
        trim_start_of(s, c) == s.skip(s.len() - trim_start_of(s, c).len()),
        trim_start_of(s, c).len() > 0 ==> trim_start_of(s, c)[0] != c,
    decreases s.len(),
{
    if s.len() > 0 && s[0] == c {
        trimmed_start_is_within(s.skip(1), c);
        let k = s.skip(1).len() - trim_start_of(s.skip(1), c).len();
        assert(s.skip(1).skip(k) =~= s.skip(k + 1));
    } else {
        assert(s.skip(0) =~= s);
    }
}

proof fn trimmed_end_is_within(s: Seq<char>, c: char)
    ensures
        trim_end_of(s, c).len() <= s.len(),
        trim_end_of(s, c) == s.take(trim_end_of(s, c).len() as int),
        trim_end_of(s, c).len() > 0 ==> trim_end_of(s, c).last() != c,
    decreases s.len(),
{
    if s.len() > 0 && s.last() == c {
        trimmed_end_is_within(s.drop_last(), c);
        let n = trim_end_of(s.drop_last(), c).len();
        assert(s.drop_last().take(n as int) =~= s.take(n as int));
    } else {
        assert(s.take(s.len() as int) =~= s);
    }
}

/// What saving a label writes.
#[derive(Debug)]
pub enum LabelWrite {
    /// Rename or recolor: the keyword stays, so that the server mapping is stable even when the
    /// display name changes.
    Update { id: i64, name: String, color: String, position: i64 },
    Insert {
        name: String,
        color: String,
        keyword: String,
        position: i64,
        scope: Scope,
        owner_account_id: Option<i64>,
    },
}

/// The scope of the labels of an owner.
pub open spec fn scope_of(owner: Option<i64>) -> Scope {
    if owner is Some {
        Scope::Account
    } else {
        Scope::Global
    }
}

/// Whether a label other than `id` has that name in the scope of an owner.
pub open spec fn clashes(row: LabelRow, name: Seq<char>, owner: Option<i64>, id: Option<i64>) -> bool {
    same_ascii(row.label.name@, name) && row.scope == scope_of(owner) && (owner is Some
        ==> row.label.owner_account_id == owner) && id != Some(row.label.id)
}

/// Whether a label has that id.
pub open spec fn stored(rows: Seq<LabelRow>, id: i64) -> bool {
    exists|i: int| 0 <= i < rows.len() && (#[trigger] rows[i]).label.id == id
}

/// The place of the first label with that id.
pub open spec fn row_of(rows: Seq<LabelRow>, id: i64) -> int
    decreases rows.len(),
{
    if rows.len() == 0 || rows[0].label.id == id {
        0
    } else {
        1 + row_of(rows.skip(1), id)
    }
}

proof fn row_is(rows: Seq<LabelRow>, id: i64, k: int)
    requires
        0 <= k < rows.len(),
        rows[k].label.id == id,
        forall|j: int| 0 <= j < k ==> (#[trigger] rows[j]).label.id != id,
    ensures
        row_of(rows, id) == k,
    decreases rows.len(),
{
    if k > 0 {
        assert(rows[0].label.id != id);
        assert(forall|j: int| 0 <= j < k - 1 ==> #[trigger] rows.skip(1)[j] == rows[j + 1]);
        row_is(rows.skip(1), id, k - 1);
    }
}

/// The owner whose scope a saved label is in: a stored label keeps its owner.
pub open spec fn owner_of(rows: Seq<LabelRow>, id: Option<i64>, owner: Option<i64>) -> Option<i64> {
    match id {
        Some(id) => rows[row_of(rows, id)].label.owner_account_id,
        None => owner,
    }
}

/// Whether a write saves a label under a name, with its color and position: a stored one keeps
/// everything else, and a new one belongs to its owner.
pub open spec fn saves(
    write: LabelWrite,
    id: Option<i64>,
    name: Seq<char>,
    color: Seq<char>,
    position: i64,
    owner: Option<i64>,
) -> bool {
    match write {
        LabelWrite::Update { id: i, name: n, color: c, position: p } => id == Some(i) && n@ == name
            && c@ == color && p == position,
        LabelWrite::Insert {
            name: n,
            color: c,
            keyword: k,
            position: p,
            scope,
            owner_account_id: o,
        } => id is None && n@ == name && c@ == color && k@ == keyword(name) && p == position
            && scope == scope_of(owner) && o == owner,
    }
}

/// Decide what saving a label writes. A name is given once within a scope.
pub fn save(
    rows: &Vec<LabelRow>,
    id: Option<i64>,
    name: &str,
    color: &str,
    position: i64,
    owner_account_id: Option<i64>,
) -> (r: Result<LabelWrite>)
    ensures
        ({
            let owner = owner_of(rows@, id, owner_account_id);
            if id is Some && !stored(rows@, id->0) {
                r is Err && r->Err_0 is NotFound && r->Err_0->NotFound_0@ == "label "@
                    + signed_decimal(id->0 as int)
            } else if exists|i: int|
                0 <= i < rows@.len() && clashes(#[trigger] rows@[i], name@, owner, id) {
                fails(r, "a label named '"@ + name@ + "' already exists in this scope"@)
            } else {
                r is Ok && saves(r->Ok_0, id, name@, color@, position, owner)
            }
        }),
{
    let owner: Option<i64> = match id {
        Some(id) => {
            let mut i: usize = 0;
            let mut found: Option<usize> = None;
            while i < rows.len() && found.is_none()
                invariant
                    i <= rows.len(),
                    match found {
                        Some(k) => k < rows@.len() && rows@[k as int].label.id == id && row_of(
                            rows@,
                            id,
                        ) == k,
                        None => forall|j: int| 0 <= j < i ==> (#[trigger] rows@[j]).label.id != id,
                    },
                decreases rows.len() - i,
            {
                if rows[i].label.id == id {
                    proof {
                        row_is(rows@, id, i as int);
                    }
                    found = Some(i);
                }
                i = i + 1;
            }
            match found {
                Some(k) => rows[k].label.owner_account_id,
                None => {
                    return Err(
                        CoreError::NotFound(lit("label ").concat(i64_text(id).as_str())),
                    );
                },
            }
        },
        None => owner_account_id,
    };
    let scope = if owner.is_some() {
        Scope::Account
    } else {
        Scope::Global
    };
    let mut i: usize = 0;
    while i < rows.len()
        invariant
            i <= rows.len(),
            scope == scope_of(owner),
            owner == owner_of(rows@, id, owner_account_id),
            id is Some ==> stored(rows@, id->0),
            forall|j: int| 0 <= j < i ==> !clashes(#[trigger] rows@[j], name@, owner, id),
        decreases rows.len() - i,
    {
        let row = &rows[i];
        let own = match (owner, row.label.owner_account_id) {
            (Some(a), Some(b)) => a == b,
            (Some(_), None) => false,
            (None, _) => true,
        };
        let other_label = match id {
            Some(id) => id != row.label.id,
            None => true,
        };
        if is_same_ascii(row.label.name.as_str(), name) && row.scope == scope && own
            && other_label {
            proof {
                assert(clashes(rows@[i as int], name@, owner, id));
            }
            return Err(
                other(
                    lit("a label named '").concat(name).concat(
                        "' already exists in this scope",
                    ).as_str(),
                ),
            );
        }
        i = i + 1;
    }
    match id {
        Some(id) => Ok(LabelWrite::Update { id, name: lit(name), color: lit(color), position }),
        None => Ok(
            LabelWrite::Insert {
                name: lit(name),
                color: lit(color),
                keyword: keyword_for(name),
                position,
                scope,
                owner_account_id: owner,
            },
        ),
    }
}

/// The labels after a write; a new label gets the id `fresh`.
pub open spec fn written(rows: Seq<LabelRow>, write: LabelWrite, fresh: i64) -> Seq<LabelRow> {
    match write {
        LabelWrite::Update { id, name, color, position } => rows.map_values(
            |row: LabelRow|
                if row.label.id == id {
                    LabelRow { label: Label { name, color, position, ..row.label }, ..row }
                } else {
                    row
                },
        ),
        LabelWrite::Insert { name, color, keyword, position, scope, owner_account_id } => rows.push(
            LabelRow {
                label: Label {
                    id: fresh,
                    name,
                    color,
                    keyword,
                    position,
                    owner_account_id,
                    is_auto: false,
                },
                scope,
            },
        ),
    }
}

/// Whether the labels of users are told apart by their names within their scope, and every label
/// by its id, and whether the labels with an owner are those of an account.
pub open spec fn names_are_unique(rows: Seq<LabelRow>) -> bool {
    &&& forall|i: int, j: int|
        0 <= i < j < rows.len() ==> (#[trigger] rows[i]).label.id != (#[trigger] rows[j]).label.id
    &&& forall|i: int|
        0 <= i < rows.len() ==> ((#[trigger] rows[i]).scope == Scope::Account
            <==> rows[i].label.owner_account_id is Some)
    &&& forall|i: int, j: int|
        0 <= i < j < rows.len() && (#[trigger] rows[i]).scope != Scope::Automatic ==> !clashes(
            #[trigger] rows[j],
            rows[i].label.name@,
            rows[i].label.owner_account_id,
            Some(rows[i].label.id),
        )
}

proof fn same_ascii_is_symmetric(a: Seq<char>, b: Seq<char>)
    ensures
        same_ascii(a, b) == same_ascii(b, a),
{
}

/// Saving a label leaves every name of users given once within its scope, and a stored label's
/// keyword, owner and scope as they were, whatever it is renamed to.
pub proof fn saving_keeps_names_unique(
    rows: Seq<LabelRow>,
    id: Option<i64>,
    name: Seq<char>,
    color: Seq<char>,
    position: i64,
    owner: Option<i64>,
    write: LabelWrite,
    fresh: i64,
)
    requires
        names_are_unique(rows),
        !stored(rows, fresh),
        id is Some ==> stored(rows, id->0),
        forall|k: int|
            0 <= k < rows.len() ==> !clashes(
                #[trigger] rows[k],
                name,
                owner_of(rows, id, owner),
                id,
            ),
        saves(write, id, name, color, position, owner_of(rows, id, owner)),
    ensures
        names_are_unique(written(rows, write, fresh)),
        forall|k: int|
            0 <= k < rows.len() ==> {
                let after = #[trigger] written(rows, write, fresh)[k];
                after.label.id == rows[k].label.id && after.label.keyword == rows[k].label.keyword
                    && after.label.owner_account_id == rows[k].label.owner_account_id && after.scope
                    == rows[k].scope
            },
{
    let after = written(rows, write, fresh);
    match write {
        LabelWrite::Update { id: changed, .. } => {
            let at = choose|k: int| 0 <= k < rows.len() && (#[trigger] rows[k]).label.id == changed;
            assert forall|j: int| 0 <= j < at implies (#[trigger] rows[j]).label.id != changed by {}
            row_is(rows, changed, at);
            assert forall|i: int, j: int|
                0 <= i < j < after.len() && (#[trigger] after[i]).scope
                    != Scope::Automatic implies !clashes(
                #[trigger] after[j],
                after[i].label.name@,
                after[i].label.owner_account_id,
                Some(after[i].label.id),
            ) by {
                assert(rows[i].label.id != rows[j].label.id);
                assert(!clashes(
                    rows[i],
                    name,
                    rows[at].label.owner_account_id,
                    Some(changed),
                ));
                assert(!clashes(
                    rows[j],
                    name,
                    rows[at].label.owner_account_id,
                    Some(changed),
                ));
                same_ascii_is_symmetric(after[i].label.name@, after[j].label.name@);
            }
        },
        LabelWrite::Insert { .. } => {
            assert forall|i: int, j: int|
                0 <= i < j < after.len() && (#[trigger] after[i]).scope
                    != Scope::Automatic implies !clashes(
                #[trigger] after[j],
                after[i].label.name@,
                after[i].label.owner_account_id,
                Some(after[i].label.id),
            ) by {
                if j == rows.len() {
                    assert(!clashes(rows[i], name, owner, None));
                    same_ascii_is_symmetric(after[i].label.name@, after[j].label.name@);
                } else {
                    assert(after[i] == rows[i] && after[j] == rows[j]);
                }
            }
            assert forall|i: int, j: int| 0 <= i < j < after.len() implies (
            #[trigger] after[i]).label.id != (#[trigger] after[j]).label.id by {
                assert(rows[i].label.id != fresh);
            }
        },
    }
}

/// The tab that shows what was routed to a label.
pub open spec fn label_tab(id: i64) -> Seq<char> {
    "label:"@ + signed_decimal(id as int)
}

/// The tab of a label. Whatever is routed there falls back to its own tab when the label goes.
pub fn tab_key(id: i64) -> (r: String)
    ensures
        r@ == label_tab(id),
{
    lit("label:").concat(i64_text(id).as_str())
}

/// A built-in category.
#[derive(Debug)]
pub struct AutoLabel {
    pub name: &'static str,
    pub color: &'static str,
    pub keyword: &'static str,
    pub position: i64,
}

/// The built-in categories.
pub open spec fn defaults() -> Seq<AutoLabel> {
    seq![
        AutoLabel {
            name: "Marketing",
            color: "#e0708a",
            keyword: "FlectarMailAutoMarketing",
            position: 1000,
        },
        AutoLabel {
            name: "News",
            color: "#5b9dd9",
            keyword: "FlectarMailAutoNews",
            position: 1001,
        },
        AutoLabel {
            name: "Social",
            color: "#7bc47f",
            keyword: "FlectarMailAutoSocial",
            position: 1002,
        },
        AutoLabel {
            name: "Pitch",
            color: "#c9a04e",
            keyword: "FlectarMailAutoPitch",
            position: 1003,
        },
    ]
}

/// The built-in categories that none of the keywords stands for.
pub open spec fn missing(all: Seq<AutoLabel>, keywords: Seq<Seq<char>>) -> Seq<AutoLabel> {
    all.filter(|l: AutoLabel| !keywords.contains(l.keyword@))
}

fn default_labels() -> (r: Vec<AutoLabel>)
    ensures
        r@ == defaults(),
{
    let mut all: Vec<AutoLabel> = Vec::new();
    all.push(
        AutoLabel {
            name: "Marketing",
            color: "#e0708a",
            keyword: "FlectarMailAutoMarketing",
            position: 1000,
        },
    );
    all.push(
        AutoLabel {
            name: "News",
            color: "#5b9dd9",
            keyword: "FlectarMailAutoNews",
            position: 1001,
        },
    );
    all.push(
        AutoLabel {
            name: "Social",
            color: "#7bc47f",
            keyword: "FlectarMailAutoSocial",
            position: 1002,
        },
    );
    all.push(
        AutoLabel {
            name: "Pitch",
            color: "#c9a04e",
            keyword: "FlectarMailAutoPitch",
            position: 1003,
        },
    );
    all
}

/// The built-in auto categories to recreate, given the keywords of those that are there. Existing
/// categories and their user-defined order are left untouched.
pub fn restore_auto_defaults(keywords: &Vec<String>) -> (r: Vec<AutoLabel>)
    ensures
        r@ == missing(defaults(), texts(keywords@)),
{
    let all = default_labels();
    let ghost known = texts(keywords@);
    let ghost p = |l: AutoLabel| !known.contains(l.keyword@);
    let mut out: Vec<AutoLabel> = Vec::new();
    let mut i: usize = 0;
    proof {
        assert(all@.take(0) == Seq::<AutoLabel>::empty());
        reveal(Seq::filter);
    }
    while i < all.len()
        invariant
            i <= all.len(),
            all@ == defaults(),
            known == texts(keywords@),
            p == (|l: AutoLabel| !known.contains(l.keyword@)),
            out@ == all@.take(i as int).filter(p),
        decreases all.len() - i,
    {
        proof {
            assert(all@.take(i + 1) =~= all@.take(i as int).push(all@[i as int]));
            crate::text::filter_push(all@.take(i as int), all@[i as int], p);
        }
        if !has_member(keywords, all[i].keyword) {
            out.push(
                AutoLabel {
                    name: all[i].name,
                    color: all[i].color,
                    keyword: all[i].keyword,
                    position: all[i].position,
                },
            );
        }
        i = i + 1;
    }
    proof {
        assert(all@.take(all@.len() as int) =~= all@);
    }
    out
}

/// A label that a message gains or loses.
#[derive(Debug, Clone, Copy)]
pub struct LabelChange {
    pub label_id: i64,
    pub add: bool,
}

/// How one label follows the keywords of a message.
pub open spec fn follow(
    label: Label,
    account_id: i64,
    keywords: Seq<Seq<char>>,
    held: Seq<i64>,
) -> Option<LabelChange> {
    let present = keywords.contains(label.keyword@);
    if label.owner_account_id == Some(account_id) && present != held.contains(label.id) {
        Some(LabelChange { label_id: label.id, add: present })
    } else {
        None
    }
}

/// How labels follow the keywords of a message, in order.
pub open spec fn followed(
    labels: Seq<Label>,
    account_id: i64,
    keywords: Seq<Seq<char>>,
    held: Seq<i64>,
) -> Seq<LabelChange>
    decreases labels.len(),
{
    if labels.len() == 0 {
        Seq::empty()
    } else {
        let before = followed(labels.drop_last(), account_id, keywords, held);
        match follow(labels.last(), account_id, keywords, held) {
            Some(c) => before.push(c),
            None => before,
        }
    }
}

/// Reconcile a message's label memberships against the IMAP keywords the server
/// reports. Only labels we know about are touched - unknown server keywords are
/// left alone so foreign keywords never masquerade as labels. Auto labels have no
/// owner and are local-only, so they are left alone too.
pub fn reconcile_keywords(
    labels: &Vec<Label>,
    account_id: i64,
    keywords: &Vec<String>,
    held: &Vec<i64>,
) -> (r: Vec<LabelChange>)
    ensures
        r@ == followed(labels@, account_id, texts(keywords@), held@),
{
    let mut out: Vec<LabelChange> = Vec::new();
    let mut i: usize = 0;
    proof {
        assert(labels@.take(0) == Seq::<Label>::empty());
    }
    while i < labels.len()
        invariant
            i <= labels.len(),
            out@ == followed(labels@.take(i as int), account_id, texts(keywords@), held@),
        decreases labels.len() - i,
    {
        let label = &labels[i];
        proof {
            assert(labels@.take(i + 1).drop_last() =~= labels@.take(i as int));
            assert(labels@.take(i + 1).last() == labels@[i as int]);
        }
        let own = match label.owner_account_id {
            Some(owner) => owner == account_id,
            None => false,
        };
        if own {
            let present = has_member(keywords, label.keyword.as_str());
            let has = holds(held, label.id);
            if present != has {
                out.push(LabelChange { label_id: label.id, add: present });
            }
        }
        i = i + 1;
    }
    proof {
        assert(labels@.take(labels@.len() as int) =~= labels@);
    }
    out
}

/// Whether a label is held after changes: as the change of it says, or as before.
pub open spec fn held_after(held: Seq<i64>, changes: Seq<LabelChange>, id: i64) -> bool
    decreases changes.len(),
{
    if changes.len() == 0 {
        held.contains(id)
    } else if changes.last().label_id == id {
        changes.last().add
    } else {
        held_after(held, changes.drop_last(), id)
    }
}

/// After reconciling, a message holds exactly those labels of its account whose keyword the server
/// reports, and every other label as before.
pub proof fn labels_follow_the_server(
    labels: Seq<Label>,
    account_id: i64,
    keywords: Seq<Seq<char>>,
    held: Seq<i64>,
)
    requires
        forall|i: int, j: int|
            0 <= i < j < labels.len() ==> (#[trigger] labels[i]).id != (#[trigger] labels[j]).id,
    ensures
        forall|i: int|
            0 <= i < labels.len() ==> held_after(
                held,
                followed(labels, account_id, keywords, held),
                (#[trigger] labels[i]).id,
            ) == if labels[i].owner_account_id == Some(account_id) {
                keywords.contains(labels[i].keyword@)
            } else {
                held.contains(labels[i].id)
            },
        forall|id: i64|
            (forall|i: int| 0 <= i < labels.len() ==> (#[trigger] labels[i]).id != id)
                ==> #[trigger] held_after(held, followed(labels, account_id, keywords, held), id)
                == held.contains(id),
    decreases labels.len(),
{
    if labels.len() > 0 {
        let head = labels.drop_last();
        let last = labels.last();
        let before = followed(head, account_id, keywords, held);
        let after = followed(labels, account_id, keywords, held);
        labels_follow_the_server(head, account_id, keywords, held);
        assert forall|id: i64| id != last.id implies #[trigger] held_after(held, after, id)
            == held_after(held, before, id) by {
            if after.len() > before.len() {
                assert(after.drop_last() =~= before);
            }
        }
        assert(held_after(held, before, last.id) == held.contains(last.id)) by {
            assert forall|i: int| 0 <= i < head.len() implies (#[trigger] head[i]).id
                != last.id by {
                assert(labels[i].id != labels[labels.len() - 1].id);
            }
        }
        assert(held_after(held, after, last.id) == if last.owner_account_id == Some(account_id) {
            keywords.contains(last.keyword@)
        } else {
            held.contains(last.id)
        });
        assert forall|i: int| 0 <= i < labels.len() implies held_after(
            held,
            after,
            (#[trigger] labels[i]).id,
        ) == if labels[i].owner_account_id == Some(account_id) {
            keywords.contains(labels[i].keyword@)
        } else {
            held.contains(labels[i].id)
        } by {
            if i < head.len() {
                assert(head[i] == labels[i]);
                assert(labels[i].id != labels[labels.len() - 1].id);
            }
        }
        assert forall|id: i64|
            (forall|i: int| 0 <= i < labels.len() ==> (#[trigger] labels[i]).id
                != id) implies #[trigger] held_after(held, after, id) == held.contains(id) by {
            assert(labels[labels.len() - 1].id != id);
            assert forall|i: int| 0 <= i < head.len() implies (#[trigger] head[i]).id != id by {
                assert(labels[i].id != id);
            }
        }
    }
}

} // verus!
