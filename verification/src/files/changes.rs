//! Changes to JMAP file storage: what a change asks for, and whether the user may make it.

use crate::error::{fails, other, says, CoreError, Result};
use crate::files::jmap::FileClient;
use crate::files::json::{field_views, find, put_is_read_back, views, Json, Value};
use crate::files::{CollisionPolicy, Rights};
use crate::text::{lit, opt, opt_str, same, split, split_char, texts};
use vstd::prelude::*;
use vstd::string::*;

verus! {

/// Rights that were looked up.
pub struct Grant {
    pub id: String,
    pub rights: Rights,
}

/// The rights of a node, where they were looked up.
pub open spec fn granted(grants: Seq<Grant>, id: Seq<char>) -> Option<Rights>
    decreases grants.len(),
{
    if grants.len() == 0 {
        None
    } else if grants[0].id@ == id {
        Some(grants[0].rights)
    } else {
        granted(grants.skip(1), id)
    }
}

fn find_grant(grants: &Vec<Grant>, id: &str) -> (r: Option<Rights>)
    ensures
        r == granted(grants@, id@),
{
    let mut i: usize = 0;
    proof {
        assert(grants@.skip(0) == grants@);
    }
    while i < grants.len()
        invariant
            i <= grants.len(),
            granted(grants@.skip(i as int), id@) == granted(grants@, id@),
        decreases grants.len() - i,
    {
        proof {
            assert(grants@.skip(i as int)[0] == grants@[i as int]);
            assert(grants@.skip(i as int).skip(1) == grants@.skip(i + 1));
        }
        if same(grants[i].id.as_str(), id) {
            return Some(grants[i].rights);
        }
        i = i + 1;
    }
    None
}

/// Whether a change may be made.
pub enum Verdict {
    Allowed,
    /// The rights of this node must be looked up first.
    Need(String),
    /// It may not, and this is why.
    Refused(CoreError),
}

/// The model of a [`Verdict`].
pub enum Ruling {
    Allowed,
    Need(Seq<char>),
    Refused(Seq<char>),
}

impl Verdict {
    /// Whether the verdict is that ruling.
    pub open spec fn is_ruling(self, r: Ruling) -> bool {
        match (self, r) {
            (Verdict::Allowed, Ruling::Allowed) => true,
            (Verdict::Need(a), Ruling::Need(b)) => a@ == b,
            (Verdict::Refused(e), Ruling::Refused(m)) => says(e, m),
            _ => false,
        }
    }
}

/// Whether something may be put into a folder, or at the top level.
pub open spec fn destination_ruling(
    c: FileClient,
    parent: Option<Seq<char>>,
    grants: Seq<Grant>,
) -> Ruling {
    match parent {
        Some(id) => match granted(grants, id) {
            None => Ruling::Need(id),
            Some(rights) => if rights.can_add() {
                Ruling::Allowed
            } else {
                Ruling::Refused("You cannot create files in this folder."@)
            },
        },
        None => if c.may_create_root() {
            Ruling::Allowed
        } else {
            Ruling::Refused("You cannot create files in this folder."@)
        },
    }
}

/// Whether one node may be created, among all that are.
pub open spec fn create_one(
    c: FileClient,
    all: Seq<(Seq<char>, Value)>,
    node: Value,
    grants: Seq<Grant>,
) -> Ruling {
    match node.at("name"@).text() {
        None => Ruling::Refused("File name is required."@),
        Some(name) => if !c.takes_name(name) {
            Ruling::Refused(c.name_refusal(name))
        } else {
            let parent = node.at("parentId"@).text();
            if parent is Some && parent->0.len() > 0 && parent->0[0] == '#' {
                if find(all, parent->0.skip(1)) is Some {
                    Ruling::Allowed
                } else {
                    Ruling::Refused("Unknown parent creation reference."@)
                }
            } else {
                destination_ruling(c, parent, grants)
            }
        },
    }
}

/// Whether the nodes from position `i` on may be created.
pub open spec fn create_ruling(
    c: FileClient,
    all: Seq<(Seq<char>, Value)>,
    i: int,
    grants: Seq<Grant>,
) -> Ruling
    decreases all.len() - i,
{
    if i < 0 || i >= all.len() {
        Ruling::Allowed
    } else {
        match create_one(c, all, all[i].1, grants) {
            Ruling::Allowed => create_ruling(c, all, i + 1, grants),
            stop => stop,
        }
    }
}

/// The right that a change of a property takes.
pub open spec fn may_patch(rights: Rights, key: Seq<char>) -> bool {
    let head = split(key, |c: char| c == '/')[0];
    if head == "shareWith"@ {
        rights.may_share
    } else if head == "name"@ || head == "parentId"@ {
        rights.can_rename()
    } else if head == "isSubscribed"@ {
        rights.may_read
    } else {
        rights.can_modify()
    }
}

/// Whether one node may be patched so.
pub open spec fn update_one(
    c: FileClient,
    id: Seq<char>,
    patch: Value,
    grants: Seq<Grant>,
) -> Ruling {
    match granted(grants, id) {
        None => Ruling::Need(id),
        Some(rights) => match patch.fields() {
            None => Ruling::Refused("Invalid file patch."@),
            Some(fields) => if exists|i: int|
                0 <= i < fields.len() && !may_patch(rights, (#[trigger] fields[i]).0) {
                Ruling::Refused("You do not have permission to change this file."@)
            } else if patch.has("parentId"@) {
                destination_ruling(c, patch.at("parentId"@).text(), grants)
            } else {
                Ruling::Allowed
            },
        },
    }
}

/// Whether the patches from position `i` on may be made.
pub open spec fn update_ruling(
    c: FileClient,
    all: Seq<(Seq<char>, Value)>,
    i: int,
    grants: Seq<Grant>,
) -> Ruling
    decreases all.len() - i,
{
    if i < 0 || i >= all.len() {
        Ruling::Allowed
    } else {
        match update_one(c, all[i].0, all[i].1, grants) {
            Ruling::Allowed => update_ruling(c, all, i + 1, grants),
            stop => stop,
        }
    }
}

/// Whether one node may be deleted.
pub open spec fn destroy_one(id: Value, grants: Seq<Grant>) -> Ruling {
    match id.text() {
        None => Ruling::Refused("Invalid file ID."@),
        Some(id) => match granted(grants, id) {
            None => Ruling::Need(id),
            Some(rights) => if rights.can_delete() {
                Ruling::Allowed
            } else {
                Ruling::Refused("You cannot delete this file."@)
            },
        },
    }
}

/// Whether the nodes from position `i` on may be deleted.
pub open spec fn destroy_ruling(all: Seq<Value>, i: int, grants: Seq<Grant>) -> Ruling
    decreases all.len() - i,
{
    if i < 0 || i >= all.len() {
        Ruling::Allowed
    } else {
        match destroy_one(all[i], grants) {
            Ruling::Allowed => destroy_ruling(all, i + 1, grants),
            stop => stop,
        }
    }
}

/// Whether a set of changes may be made: its creations, then its patches, then its deletions.
pub open spec fn set_ruling(c: FileClient, args: Value, grants: Seq<Grant>) -> Ruling {
    let create = match args.at("create"@).fields() {
        Some(fields) => create_ruling(c, fields, 0, grants),
        None => Ruling::Allowed,
    };
    let update = match args.at("update"@).fields() {
        Some(fields) => update_ruling(c, fields, 0, grants),
        None => Ruling::Allowed,
    };
    let destroy = match args.at("destroy"@).items() {
        Some(items) => destroy_ruling(items, 0, grants),
        None => Ruling::Allowed,
    };
    if !(create is Allowed) {
        create
    } else if !(update is Allowed) {
        update
    } else {
        destroy
    }
}

impl FileClient {
    /// Whether something may be put into a folder, or at the top level.
    pub fn require_destination(&self, parent: Option<&str>, grants: &Vec<Grant>) -> (r: Verdict)
        ensures
            r.is_ruling(destination_ruling(*self, opt_str(parent), grants@)),
    {
        let allowed = match parent {
            Some(id) => match find_grant(grants, id) {
                Some(rights) => rights.add(),
                None => {
                    return Verdict::Need(lit(id));
                },
            },
            None => self.can_create_root(),
        };
        if allowed {
            Verdict::Allowed
        } else {
            Verdict::Refused(other("You cannot create files in this folder."))
        }
    }

    fn check_create(&self, create: &Json, node: &Json, grants: &Vec<Grant>) -> (r: Verdict)
        requires
            create@ is Object,
        ensures
            r.is_ruling(create_one(*self, create@->Object_0, node@, grants@)),
    {
        let name = match node.text_at("name") {
            Some(name) => name,
            None => {
                return Verdict::Refused(other("File name is required."));
            },
        };
        match self.name(name) {
            Ok(_) => {},
            Err(e) => {
                return Verdict::Refused(e);
            },
        }
        let parent = node.text_at("parentId");
        match parent {
            Some(p) => {
                if p.unicode_len() > 0 && p.get_char(0) == '#' {
                    let reference = p.substring_char(1, p.unicode_len());
                    proof {
                        assert(reference@ =~= p@.skip(1));
                    }
                    return if create.get(reference).is_some() {
                        Verdict::Allowed
                    } else {
                        Verdict::Refused(other("Unknown parent creation reference."))
                    };
                }
            },
            None => {},
        }
        self.require_destination(parent, grants)
    }

    fn check_update(&self, id: &str, patch: &Json, grants: &Vec<Grant>) -> (r: Verdict)
        ensures
            r.is_ruling(update_one(*self, id@, patch@, grants@)),
    {
        let rights = match find_grant(grants, id) {
            Some(rights) => rights,
            None => {
                return Verdict::Need(lit(id));
            },
        };
        let fields = match patch.as_object() {
            Some(fields) => fields,
            None => {
                return Verdict::Refused(other("Invalid file patch."));
            },
        };
        let mut i: usize = 0;
        while i < fields.len()
            invariant
                i <= fields.len(),
                granted(grants@, id@) == Some(rights),
                patch@.fields() == Some(field_views(fields@)),
                forall|j: int|
                    0 <= j < i ==> may_patch(rights, (#[trigger] field_views(fields@)[j]).0),
            decreases fields.len() - i,
        {
            if !patch_allowed(&rights, fields[i].0.as_str()) {
                proof {
                    let all = patch@.fields()->0;
                    assert(!may_patch(rights, all[i as int].0));
                }
                return Verdict::Refused(
                    other("You do not have permission to change this file."),
                );
            }
            i = i + 1;
        }
        match patch.get("parentId") {
            Some(p) => self.require_destination(p.as_text(), grants),
            None => Verdict::Allowed,
        }
    }

    /// Whether the user may make a set of changes. A verdict that needs the rights of a node is
    /// asked for again once they are looked up.
    pub fn validate_set_rights(&self, args: &Json, grants: &Vec<Grant>) -> (r: Verdict)
        ensures
            r.is_ruling(set_ruling(*self, args@, grants@)),
    {
        match args.get("create") {
            Some(create) => match create.as_object() {
                Some(fields) => {
                    let ghost all = field_views(fields@);
                    let mut i: usize = 0;
                    while i < fields.len()
                        invariant
                            i <= fields.len(),
                            all == field_views(fields@),
                            create@ == Value::Object(all),
                            create@ == args@.at("create"@),
                            create_ruling(*self, all, 0, grants@) == create_ruling(
                                *self,
                                all,
                                i as int,
                                grants@,
                            ),
                        decreases fields.len() - i,
                    {
                        proof {
                            assert(all[i as int].1 == fields@[i as int].1@);
                        }
                        match self.check_create(create, &fields[i].1, grants) {
                            Verdict::Allowed => {},
                            stop => {
                                return stop;
                            },
                        }
                        i = i + 1;
                    }
                },
                None => {},
            },
            None => {},
        }
        match args.get("update") {
            Some(update) => match update.as_object() {
                Some(fields) => {
                    let ghost all = field_views(fields@);
                    let mut i: usize = 0;
                    while i < fields.len()
                        invariant
                            i <= fields.len(),
                            all == field_views(fields@),
                            args@.at("update"@).fields() == Some(all),
                            args@.at("create"@).fields() is Some ==> create_ruling(
                                *self,
                                args@.at("create"@).fields()->0,
                                0,
                                grants@,
                            ) is Allowed,
                            update_ruling(*self, all, 0, grants@) == update_ruling(
                                *self,
                                all,
                                i as int,
                                grants@,
                            ),
                        decreases fields.len() - i,
                    {
                        proof {
                            assert(all[i as int] == (fields@[i as int].0@, fields@[i as int].1@));
                        }
                        match self.check_update(fields[i].0.as_str(), &fields[i].1, grants) {
                            Verdict::Allowed => {},
                            stop => {
                                return stop;
                            },
                        }
                        i = i + 1;
                    }
                },
                None => {},
            },
            None => {},
        }
        match args.list_at("destroy") {
            Some(items) => {
                let ghost all = views(items@);
                let mut i: usize = 0;
                while i < items.len()
                    invariant
                        i <= items.len(),
                        all == views(items@),
                        args@.at("destroy"@).items() == Some(all),
                        args@.at("create"@).fields() is Some ==> create_ruling(
                            *self,
                            args@.at("create"@).fields()->0,
                            0,
                            grants@,
                        ) is Allowed,
                        args@.at("update"@).fields() is Some ==> update_ruling(
                            *self,
                            args@.at("update"@).fields()->0,
                            0,
                            grants@,
                        ) is Allowed,
                        destroy_ruling(all, 0, grants@) == destroy_ruling(all, i as int, grants@),
                    decreases items.len() - i,
                {
                    proof {
                        assert(all[i as int] == items@[i as int]@);
                    }
                    match items[i].as_text() {
                        None => {
                            return Verdict::Refused(other("Invalid file ID."));
                        },
                        Some(id) => match find_grant(grants, id) {
                            None => {
                                return Verdict::Need(lit(id));
                            },
                            Some(rights) => {
                                if !rights.delete() {
                                    return Verdict::Refused(other("You cannot delete this file."));
                                }
                            },
                        },
                    }
                    i = i + 1;
                }
            },
            None => {},
        }
        Verdict::Allowed
    }
}

fn patch_allowed(rights: &Rights, key: &str) -> (r: bool)
    ensures
        r == may_patch(*rights, key@),
{
    let parts = split_char(key, '/');
    proof {
        assert(texts(parts@)[0] == parts@[0]@);
    }
    let head = parts[0].as_str();
    if same(head, "shareWith") {
        rights.may_share
    } else if same(head, "name") || same(head, "parentId") {
        rights.rename()
    } else if same(head, "isSubscribed") {
        rights.may_read
    } else {
        rights.modify()
    }
}

proof fn create_ruling_covers(
    c: FileClient,
    all: Seq<(Seq<char>, Value)>,
    i: int,
    grants: Seq<Grant>,
    k: int,
)
    requires
        0 <= i <= k < all.len(),
        create_ruling(c, all, i, grants) is Allowed,
    ensures
        create_one(c, all, all[k].1, grants) is Allowed,
    decreases all.len() - i,
{
    if i < k {
        create_ruling_covers(c, all, i + 1, grants, k);
    }
}

proof fn update_ruling_covers(
    c: FileClient,
    all: Seq<(Seq<char>, Value)>,
    i: int,
    grants: Seq<Grant>,
    k: int,
)
    requires
        0 <= i <= k < all.len(),
        update_ruling(c, all, i, grants) is Allowed,
    ensures
        update_one(c, all[k].0, all[k].1, grants) is Allowed,
    decreases all.len() - i,
{
    if i < k {
        update_ruling_covers(c, all, i + 1, grants, k);
    }
}

proof fn destroy_ruling_covers(all: Seq<Value>, i: int, grants: Seq<Grant>, k: int)
    requires
        0 <= i <= k < all.len(),
        destroy_ruling(all, i, grants) is Allowed,
    ensures
        destroy_one(all[k], grants) is Allowed,
    decreases all.len() - i,
{
    if i < k {
        destroy_ruling_covers(all, i + 1, grants, k);
    }
}

/// Whether the rights of a node that were looked up cover every property of a patch.
pub open spec fn covers_patch(grants: Seq<Grant>, id: Seq<char>, patch: Value) -> bool {
    granted(grants, id) is Some && patch.fields() is Some && forall|m: int|
        0 <= m < patch.fields()->0.len() ==> may_patch(
            granted(grants, id)->0,
            (#[trigger] patch.fields()->0[m]).0,
        )
}

/// No change goes out that the user has no right to: in a set of changes that is allowed, every
/// created node has a name that the server takes, every patched property is one that the rights
/// of its node cover, and every deleted node is one that may be deleted.
pub proof fn allowed_changes_are_permitted(c: FileClient, args: Value, grants: Seq<Grant>)
    requires
        set_ruling(c, args, grants) is Allowed,
    ensures
        args.at("create"@).fields() matches Some(all) ==> forall|k: int|
            0 <= k < all.len() ==> (#[trigger] all[k]).1.at("name"@).text() is Some && c.takes_name(
                all[k].1.at("name"@).text()->0,
            ),
        args.at("update"@).fields() matches Some(all) ==> forall|k: int|
            0 <= k < all.len() ==> covers_patch(grants, (#[trigger] all[k]).0, all[k].1),
        args.at("destroy"@).items() matches Some(all) ==> forall|k: int|
            0 <= k < all.len() ==> (#[trigger] all[k]).text() is Some && granted(
                grants,
                all[k].text()->0,
            ) is Some && granted(grants, all[k].text()->0)->0.can_delete(),
{
    if let Some(all) = args.at("create"@).fields() {
        assert forall|k: int| 0 <= k < all.len() implies (#[trigger] all[k]).1.at(
            "name"@,
        ).text() is Some && c.takes_name(all[k].1.at("name"@).text()->0) by {
            create_ruling_covers(c, all, 0, grants, k);
        }
    }
    if let Some(all) = args.at("update"@).fields() {
        assert forall|k: int| 0 <= k < all.len() implies covers_patch(
            grants,
            (#[trigger] all[k]).0,
            all[k].1,
        ) by {
            update_ruling_covers(c, all, 0, grants, k);
        }
    }
    if let Some(all) = args.at("destroy"@).items() {
        assert forall|k: int| 0 <= k < all.len() implies (#[trigger] all[k]).text() is Some
            && granted(grants, all[k].text()->0) is Some && granted(
            grants,
            all[k].text()->0,
        )->0.can_delete() by {
            destroy_ruling_covers(all, 0, grants, k);
        }
    }
}

/// Whether the user may put something into a folder, or at the top level.
pub open spec fn may_put_into(c: FileClient, parent: Option<Seq<char>>, grants: Seq<Grant>) -> bool {
    match parent {
        Some(id) => match granted(grants, id) {
            Some(rights) => rights.may_add_children || rights.may_write,
            None => false,
        },
        None => c.may_create_root(),
    }
}

/// Whether the user may make a node: it has a name that the server takes, and it goes into a folder
/// that the same change makes, or into one that takes it.
pub open spec fn may_make(
    c: FileClient,
    made: Seq<(Seq<char>, Value)>,
    node: Value,
    grants: Seq<Grant>,
) -> bool {
    let parent = node.at("parentId"@).text();
    let within = parent is Some && parent->0.len() > 0 && parent->0[0] == '#';
    &&& node.at("name"@) is Text && c.takes_name(node.at("name"@)->Text_0)
    &&& within ==> find(made, parent->0.skip(1)) is Some
    &&& !within ==> may_put_into(c, parent, grants)
}

/// Whether the rights to a node let a property be changed, by the part of its path before the first
/// slash: its shares by who may share it, its name and its folder by who may rename it, whether it
/// is subscribed by who may read it, and everything else by who may change its content.
pub open spec fn rights_cover(rights: Rights, head: Seq<char>) -> bool {
    &&& head == "shareWith"@ ==> rights.may_share
    &&& head == "name"@ || head == "parentId"@ ==> rights.may_rename || rights.may_write
    &&& head == "isSubscribed"@ ==> rights.may_read
    &&& head != "shareWith"@ && head != "name"@ && head != "parentId"@ && head != "isSubscribed"@
        ==> rights.may_modify_content || rights.may_write
}

/// Whether the user may patch a node.
pub open spec fn may_change(
    c: FileClient,
    id: Seq<char>,
    patch: Value,
    grants: Seq<Grant>,
) -> bool {
    &&& granted(grants, id) is Some
    &&& patch is Object
    &&& forall|i: int|
        0 <= i < patch->Object_0.len() ==> rights_cover(
            granted(grants, id)->0,
            split((#[trigger] patch->Object_0[i]).0, |c: char| c == '/')[0],
        )
    &&& patch.has("parentId"@) ==> may_put_into(c, patch.at("parentId"@).text(), grants)
}

/// Whether the user may delete a node.
pub open spec fn may_remove(id: Value, grants: Seq<Grant>) -> bool {
    &&& id is Text
    &&& match granted(grants, id->Text_0) {
        Some(rights) => rights.may_delete || rights.may_write,
        None => false,
    }
}

proof fn keys_of_patches_differ()
    ensures
        "shareWith"@ != "name"@ && "shareWith"@ != "parentId"@ && "shareWith"@ != "isSubscribed"@,
        "name"@ != "isSubscribed"@ && "parentId"@ != "isSubscribed"@,
{
    reveal_strlit("shareWith");
    reveal_strlit("name");
    reveal_strlit("parentId");
    reveal_strlit("isSubscribed");
    assert("shareWith"@.len() == 9 && "name"@.len() == 4);
    assert("parentId"@.len() == 8 && "isSubscribed"@.len() == 12);
}

proof fn creations_are_ruled(
    c: FileClient,
    all: Seq<(Seq<char>, Value)>,
    i: int,
    grants: Seq<Grant>,
)
    requires
        0 <= i <= all.len(),
    ensures
        create_ruling(c, all, i, grants) is Allowed <==> forall|k: int|
            i <= k < all.len() ==> may_make(c, all, (#[trigger] all[k]).1, grants),
    decreases all.len() - i,
{
    if i < all.len() {
        creations_are_ruled(c, all, i + 1, grants);
        assert(create_one(c, all, all[i].1, grants) is Allowed <==> may_make(
            c,
            all,
            all[i].1,
            grants,
        ));
    }
}

proof fn updates_are_ruled(
    c: FileClient,
    all: Seq<(Seq<char>, Value)>,
    i: int,
    grants: Seq<Grant>,
)
    requires
        0 <= i <= all.len(),
    ensures
        update_ruling(c, all, i, grants) is Allowed <==> forall|k: int|
            i <= k < all.len() ==> may_change(c, (#[trigger] all[k]).0, all[k].1, grants),
    decreases all.len() - i,
{
    if i < all.len() {
        updates_are_ruled(c, all, i + 1, grants);
        keys_of_patches_differ();
        let (id, patch) = all[i];
        assert(update_one(c, id, patch, grants) is Allowed <==> may_change(c, id, patch, grants)) by {
            if granted(grants, id) is Some && patch is Object {
                let rights = granted(grants, id)->0;
                let fields = patch->Object_0;
                assert forall|k: int| 0 <= k < fields.len() implies may_patch(
                    rights,
                    (#[trigger] fields[k]).0,
                ) == rights_cover(rights, split(fields[k].0, |c: char| c == '/')[0]) by {}
                let refused = exists|k: int|
                    0 <= k < fields.len() && !may_patch(rights, (#[trigger] fields[k]).0);
                let covered = forall|k: int|
                    0 <= k < fields.len() ==> rights_cover(
                        rights,
                        split((#[trigger] fields[k]).0, |c: char| c == '/')[0],
                    );
                assert(refused == !covered);
                assert(patch.fields() == Some(fields));
                let parent = patch.at("parentId"@).text();
                assert(destination_ruling(c, parent, grants) is Allowed <==> may_put_into(
                    c,
                    parent,
                    grants,
                ));
                let placed = patch.has("parentId"@) ==> may_put_into(c, parent, grants);
                assert(may_change(c, id, patch, grants) == (covered && placed));
                let shown = patch.fields()->0;
                if refused {
                    let k = choose|k: int|
                        0 <= k < fields.len() && !may_patch(rights, (#[trigger] fields[k]).0);
                    assert(!may_patch(rights, shown[k].0));
                    assert(update_one(c, id, patch, grants) is Refused);
                } else {
                    assert forall|k: int| 0 <= k < shown.len() implies may_patch(
                        rights,
                        (#[trigger] shown[k]).0,
                    ) by {
                        assert(may_patch(rights, fields[k].0));
                    }
                    assert(!(exists|k: int|
                        0 <= k < shown.len() && !may_patch(rights, (#[trigger] shown[k]).0)));
                }
            }
        }
    }
}

proof fn deletions_are_ruled(all: Seq<Value>, i: int, grants: Seq<Grant>)
    requires
        0 <= i <= all.len(),
    ensures
        destroy_ruling(all, i, grants) is Allowed <==> forall|k: int|
            i <= k < all.len() ==> may_remove(#[trigger] all[k], grants),
    decreases all.len() - i,
{
    if i < all.len() {
        deletions_are_ruled(all, i + 1, grants);
        assert(destroy_one(all[i], grants) is Allowed <==> may_remove(all[i], grants));
    }
}

/// A set of changes is allowed exactly where the user may make each of them: every node that is
/// made, every property of every node that is patched, and every node that is deleted.
pub proof fn changes_need_their_rights(c: FileClient, args: Value, grants: Seq<Grant>)
    ensures
        set_ruling(c, args, grants) is Allowed <==> {
            &&& args.at("create"@) is Object ==> forall|k: int|
                0 <= k < args.at("create"@)->Object_0.len() ==> may_make(
                    c,
                    args.at("create"@)->Object_0,
                    (#[trigger] args.at("create"@)->Object_0[k]).1,
                    grants,
                )
            &&& args.at("update"@) is Object ==> forall|k: int|
                0 <= k < args.at("update"@)->Object_0.len() ==> may_change(
                    c,
                    (#[trigger] args.at("update"@)->Object_0[k]).0,
                    args.at("update"@)->Object_0[k].1,
                    grants,
                )
            &&& args.at("destroy"@) is List ==> forall|k: int|
                0 <= k < args.at("destroy"@)->List_0.len() ==> may_remove(
                    #[trigger] args.at("destroy"@)->List_0[k],
                    grants,
                )
        },
{
    if args.at("create"@) is Object {
        creations_are_ruled(c, args.at("create"@)->Object_0, 0, grants);
    }
    if args.at("update"@) is Object {
        updates_are_ruled(c, args.at("update"@)->Object_0, 0, grants);
    }
    if args.at("destroy"@) is List {
        deletions_are_ruled(args.at("destroy"@)->List_0, 0, grants);
    }
}

/// How the server names a policy.
pub open spec fn policy_name(p: CollisionPolicy) -> Seq<char> {
    match p {
        CollisionPolicy::Reject => "reject"@,
        CollisionPolicy::Rename => "rename"@,
        CollisionPolicy::Replace => "replace"@,
        CollisionPolicy::Newest => "newest"@,
    }
}

impl CollisionPolicy {
    pub fn as_str(&self) -> (r: &'static str)
        ensures
            r@ == policy_name(*self),
    {
        match self {
            CollisionPolicy::Reject => "reject",
            CollisionPolicy::Rename => "rename",
            CollisionPolicy::Replace => "replace",
            CollisionPolicy::Newest => "newest",
        }
    }

    /// The policy of that name.
    pub fn from_name(name: &str) -> (r: Option<CollisionPolicy>)
        ensures
            match r {
                Some(p) => policy_name(p) == name@,
                None => forall|p: CollisionPolicy| #[trigger] policy_name(p) != name@,
            },
    {
        if same(name, "reject") {
            Some(CollisionPolicy::Reject)
        } else if same(name, "rename") {
            Some(CollisionPolicy::Rename)
        } else if same(name, "replace") {
            Some(CollisionPolicy::Replace)
        } else if same(name, "newest") {
            Some(CollisionPolicy::Newest)
        } else {
            None
        }
    }
}

/// What is sent of a set of changes: it applies to the state that is shown and no other, with the
/// policy for names that are taken where there is one.
pub open spec fn guarded(c: FileClient, args: Value) -> Value {
    let stated = args.put("ifInState"@, Value::Text(c.state->0@));
    let policed = if c.collision == CollisionPolicy::Reject {
        stated
    } else {
        stated.put("onExists"@, Value::Text(policy_name(c.collision)))
    };
    policed.put("compareCaseInsensitively"@, Value::Bool(c.compare_case_insensitively))
}

/// A change that goes out carries the state that the user saw, so that it fails where the storage
/// has changed since; what it does where a name is taken, unless it is to fail; and how names
/// compare. Everything else it carries is as it was.
pub proof fn changes_carry_their_conditions(c: FileClient, args: Value, key: Seq<char>)
    requires
        args is Object,
        c.state is Some,
    ensures
        ({
            let sent = guarded(c, args);
            &&& sent.at("ifInState"@) == Value::Text(c.state->0@)
            &&& sent.at("compareCaseInsensitively"@) == Value::Bool(c.compare_case_insensitively)
            &&& c.collision == CollisionPolicy::Rename ==> sent.at("onExists"@) == Value::Text(
                "rename"@,
            )
            &&& c.collision == CollisionPolicy::Replace ==> sent.at("onExists"@) == Value::Text(
                "replace"@,
            )
            &&& c.collision == CollisionPolicy::Newest ==> sent.at("onExists"@) == Value::Text(
                "newest"@,
            )
            &&& c.collision == CollisionPolicy::Reject ==> sent.at("onExists"@) == args.at(
                "onExists"@,
            )
            &&& key != "ifInState"@ && key != "onExists"@ && key != "compareCaseInsensitively"@
                ==> sent.at(key) == args.at(key)
        }),
{
    reveal_strlit("ifInState");
    reveal_strlit("onExists");
    reveal_strlit("compareCaseInsensitively");
    assert("ifInState"@.len() == 9 && "onExists"@.len() == 8);
    assert("compareCaseInsensitively"@.len() == 24);
    let stated = args.put("ifInState"@, Value::Text(c.state->0@));
    let name = Value::Text(policy_name(c.collision));
    let policed = if c.collision == CollisionPolicy::Reject {
        stated
    } else {
        stated.put("onExists"@, name)
    };
    let compares = Value::Bool(c.compare_case_insensitively);
    put_is_read_back(args, "ifInState"@, Value::Text(c.state->0@), "onExists"@);
    put_is_read_back(args, "ifInState"@, Value::Text(c.state->0@), key);
    put_is_read_back(stated, "onExists"@, name, "ifInState"@);
    put_is_read_back(stated, "onExists"@, name, key);
    put_is_read_back(policed, "compareCaseInsensitively"@, compares, "ifInState"@);
    put_is_read_back(policed, "compareCaseInsensitively"@, compares, "onExists"@);
    put_is_read_back(policed, "compareCaseInsensitively"@, compares, key);
}

/// Why a set of changes is not sent, if it is not.
pub open spec fn set_failure(c: FileClient, args: Value, grants: Seq<Grant>) -> Option<Seq<char>> {
    if c.is_read_only() {
        Some("This storage account is read-only."@)
    } else if set_ruling(c, args, grants) is Refused {
        Some(set_ruling(c, args, grants)->Refused_0)
    } else if set_ruling(c, args, grants) is Allowed && c.state is None {
        Some("Refresh storage before changing files."@)
    } else {
        None
    }
}

/// What comes next of a change.
pub enum Change {
    /// The rights of this node must be looked up first.
    Need(String),
    /// Send these arguments.
    Send(Json),
}

impl FileClient {
    /// The arguments of a set of changes, once every right that they take is looked up.
    pub fn set(&self, args: Json, grants: &Vec<Grant>) -> (r: Result<Change>)
        ensures
            match set_failure(*self, args@, grants@) {
                Some(m) => fails(r, m),
                None => match set_ruling(*self, args@, grants@) {
                    Ruling::Need(id) => r is Ok && (r->Ok_0 is Need) && r->Ok_0->Need_0@ == id,
                    _ => r is Ok && (r->Ok_0 is Send) && r->Ok_0->Send_0@ == guarded(*self, args@),
                },
            },
    {
        if self.read_only() {
            return Err(other("This storage account is read-only."));
        }
        match self.validate_set_rights(&args, grants) {
            Verdict::Allowed => {},
            Verdict::Need(id) => {
                return Ok(Change::Need(id));
            },
            Verdict::Refused(e) => {
                return Err(e);
            },
        }
        let state = match &self.state {
            Some(state) => state.clone(),
            None => {
                return Err(other("Refresh storage before changing files."));
            },
        };
        let stated = args.put("ifInState", Json::Text(state));
        let policed = match self.collision {
            CollisionPolicy::Reject => stated,
            _ => stated.put("onExists", Json::text(self.collision.as_str())),
        };
        Ok(
            Change::Send(
                policed.put(
                    "compareCaseInsensitively",
                    Json::Bool(self.compare_case_insensitively),
                ),
            ),
        )
    }

    /// Take the answer to a set of changes: its new state is the one that is shown.
    pub fn changed(&mut self, result: &Json)
        ensures
            opt(final(self).state) == result@.at("newState"@).text(),
            *final(self) == (FileClient { state: final(self).state, ..*old(self) }),
    {
        self.state = match result.text_at("newState") {
            Some(s) => Some(lit(s)),
            None => None,
        };
    }

    /// The changes that create a folder.
    pub fn create_folder(&self, parent: Option<&str>, name: &str) -> (r: Result<Json>)
        ensures
            r is Ok <==> self.takes_name(name@),
            r matches Err(e) ==> says(e, self.name_refusal(name@)),
            r matches Ok(j) ==> j@ == Value::empty().with(
                "create"@,
                Value::empty().with(
                    "new"@,
                    Value::empty().with("name"@, Value::Text(name@)).with(
                        "parentId"@,
                        Value::opt_text(opt_str(parent)),
                    ).with("blobId"@, Value::Null),
                ),
            ),
    {
        match self.name(name) {
            Ok(_) => {},
            Err(e) => {
                return Err(e);
            },
        }
        let parent = match parent {
            Some(id) => Json::text(id),
            None => Json::Null,
        };
        let node = Json::object().with("name", Json::text(name)).with("parentId", parent).with(
            "blobId",
            Json::Null,
        );
        Ok(Json::object().with("create", Json::object().with("new", node)))
    }

    /// The changes that patch a node.
    pub fn update(&self, id: &str, patch: Json) -> (r: Result<Json>)
        ensures
            r is Err <==> patch@.at("name"@).text() is Some && !self.takes_name(
                patch@.at("name"@).text()->0,
            ),
            r matches Err(e) ==> says(e, self.name_refusal(patch@.at("name"@).text()->0)),
            r matches Ok(j) ==> j@ == Value::empty().with(
                "update"@,
                Value::empty().with(id@, patch@),
            ),
    {
        match patch.text_at("name") {
            Some(name) => match self.name(name) {
                Ok(_) => {},
                Err(e) => {
                    return Err(e);
                },
            },
            None => {},
        }
        Ok(Json::object().with("update", Json::object().with(id, patch)))
    }

    /// The changes that delete a node.
    pub fn delete(&self, id: &str, recursive: bool) -> (r: Json)
        ensures
            r@ == Value::empty().with("destroy"@, Value::none().and(Value::Text(id@))).with(
                "onDestroyRemoveChildren"@,
                Value::Bool(recursive),
            ),
    {
        Json::object().with("destroy", Json::list().and(Json::text(id))).with(
            "onDestroyRemoveChildren",
            Json::Bool(recursive),
        )
    }
}

} // verus!
