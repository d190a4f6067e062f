//! The listing of a WebDAV folder.

use crate::error::{fails, other, says, Result};
use crate::files::dav::{
    any_granted, dav_node, failed, granted_properties, href_result, is_place_of, node,
    places_are_unique, successful_properties, tells, worth_is_told, worth_of, DavClient,
};
use crate::files::xml::{children_are_trees, prop, trees, Property, Tree};
use crate::files::{nodes, FileNode, Node, Rights};
use crate::sorting::{
    in_order, sort_list, sorted_by, sorting_maps, sorting_orders_what_is_there,
};
use crate::text::{
    has_char, lowercase, opt, order_texts, parse_u64, parsed_u64, same, stands_at, strip_prefix,
    text_order, text_order_is_total, trim, trim_end_char, trim_end_of, trimmed,
};
use vstd::prelude::*;
use vstd::string::*;

verus! {

/// A folder: the folder itself, what is in it, and what the server says of its space.
pub struct Listing {
    pub nodes: Vec<FileNode>,
    pub current: FileNode,
    pub quota_available: Option<u64>,
    pub quota_used: Option<u64>,
    pub sync_token: Option<String>,
}

/// The model of a [`Listing`], with whether the folder itself was among the answers.
#[verifier::ext_equal]
pub struct Folder {
    pub nodes: Seq<Node>,
    pub current: Node,
    pub quota_available: Option<u64>,
    pub quota_used: Option<u64>,
    pub sync_token: Option<Seq<char>>,
    pub found: bool,
}

impl Folder {
    pub open spec fn empty() -> Folder {
        Folder {
            nodes: Seq::empty(),
            current: Node::blank(),
            quota_available: None,
            quota_used: None,
            sync_token: None,
            found: false,
        }
    }
}

impl Listing {
    pub open spec fn model(self, found: bool) -> Folder {
        Folder {
            nodes: nodes(self.nodes@),
            current: self.current@,
            quota_available: self.quota_available,
            quota_used: self.quota_used,
            sync_token: opt(self.sync_token),
            found,
        }
    }
}

/// A number that a property writes.
pub open spec fn number_of(props: Seq<Tree>, name: Seq<char>) -> Option<u64> {
    match worth_of(props, name) {
        Some(n) => parsed_u64(n),
        None => None,
    }
}

/// The name of a resource within a folder: what its path adds to the folder's.
pub open spec fn name_within(url: Seq<char>, href: Seq<char>) -> Seq<char> {
    let prefix = trim_end_of(url, '/') + "/"@;
    if stands_at(href, prefix, 0) {
        trim_end_of(href.skip(prefix.len() as int), '/')
    } else {
        Seq::empty()
    }
}

/// The folder with one more answer taken in: the answer about the folder itself, or one about a
/// resource directly in it. Navigation stays one level deep.
pub open spec fn take_answer(
    root: Seq<char>,
    url: Seq<char>,
    folder: Folder,
    t: Tree,
) -> std::result::Result<Folder, Seq<char>> {
    if !t.is("response"@) {
        Ok(folder)
    } else if t.worth("href"@) is None {
        Err("WebDAV response has no href."@)
    } else {
        match href_result(root, url, t.worth("href"@)->0) {
            Err(m) => Err(m),
            Ok(href) => if failed(t) {
                Err("A WebDAV resource could not be loaded."@)
            } else if !any_granted(t.children) {
                Err("No readable properties were returned for this resource."@)
            } else {
                let props = granted_properties(t.children);
                let n = dav_node(href, props);
                if trim_end_of(href, '/') == trim_end_of(url, '/') {
                    Ok(
                        Folder {
                            nodes: folder.nodes,
                            current: n,
                            quota_available: number_of(props, "quota-available-bytes"@),
                            quota_used: number_of(props, "quota-used-bytes"@),
                            sync_token: worth_of(props, "sync-token"@),
                            found: true,
                        },
                    )
                } else if name_within(url, href).len() > 0 && !name_within(url, href).contains(
                    '/',
                ) {
                    Ok(Folder { nodes: folder.nodes.push(n), ..folder })
                } else {
                    Ok(folder)
                }
            },
        }
    }
}

/// The folder that the answers describe, or why it cannot be read.
pub open spec fn take_answers(root: Seq<char>, url: Seq<char>, list: Seq<Tree>) -> std::result::Result<
    Folder,
    Seq<char>,
>
    decreases list.len(),
{
    if list.len() == 0 {
        Ok(Folder::empty())
    } else {
        match take_answers(root, url, list.drop_last()) {
            Err(m) => Err(m),
            Ok(folder) => take_answer(root, url, folder, list.last()),
        }
    }
}

/// A resource as it stands in its folder: it may be removed where the folder lets go of its
/// children, and renamed where the folder also takes new ones.
pub open spec fn in_folder(current: Node, n: Node) -> Node {
    Node {
        my_rights: Rights {
            may_delete: current.my_rights.may_delete,
            may_rename: current.my_rights.may_delete && current.my_rights.can_add(),
            ..n.my_rights
        },
        ..n
    }
}

/// Folders come before files, and each by name without regard to case.
pub open spec fn folder_order(a: Node, b: Node) -> bool {
    if a.directory() != b.directory() {
        a.directory()
    } else {
        text_order(lowercase(a.name), lowercase(b.name)) < 0
    }
}

/// What a folder shows.
pub open spec fn shown(folder: Folder) -> Folder {
    Folder {
        nodes: sorted_by(
            folder.nodes.map_values(|n: Node| in_folder(folder.current, n)),
            |a: Node, b: Node| folder_order(a, b),
        ),
        ..folder
    }
}

fn number(props: &Vec<Property>, name: &str) -> (r: Option<u64>)
    ensures
        r == number_of(trees(props@), name@),
{
    match prop(props, name) {
        Some(p) => parse_u64(trim(p.text.as_str()).as_str()),
        None => None,
    }
}

fn comes_first(a: &FileNode, b: &FileNode) -> (r: bool)
    ensures
        r == folder_order(a@, b@),
{
    let x = a.is_directory();
    let y = b.is_directory();
    if x != y {
        x
    } else {
        order_texts(
            a.name.as_str().to_lowercase().as_str(),
            b.name.as_str().to_lowercase().as_str(),
        ) < 0
    }
}

proof fn take_answers_stop(root: Seq<char>, url: Seq<char>, list: Seq<Tree>, k: int)
    requires
        0 <= k <= list.len(),
        take_answers(root, url, list.take(k)) is Err,
    ensures
        take_answers(root, url, list) == take_answers(root, url, list.take(k)),
    decreases list.len() - k,
{
    if k == list.len() {
        assert(list.take(k) == list);
    } else {
        assert(list.take(k + 1).drop_last() == list.take(k));
        take_answers_stop(root, url, list, k + 1);
    }
}

impl DavClient {
    /// Take one answer into a listing; returns whether the answer was about the folder itself.
    fn take(&self, url: &str, listing: &mut Listing, found: bool, response: &Property) -> (r: Result<
        bool,
    >)
        ensures
            match take_answer(self.root@, url@, old(listing).model(found), response@) {
                Ok(f) => r is Ok && final(listing).model(r->Ok_0) == f,
                Err(m) => fails(r, m),
            },
    {
        if !response.is("response") {
            return Ok(found);
        }
        let value = match response.value("href") {
            Some(v) => v,
            None => {
                return Err(other("WebDAV response has no href."));
            },
        };
        let href = match self.href(url, value.as_str()) {
            Ok(h) => h,
            Err(e) => {
                return Err(e);
            },
        };
        let props = match successful_properties(response) {
            Ok(p) => p,
            Err(e) => {
                return Err(e);
            },
        };
        let n = node(href.as_str(), &props);
        if same(
            trim_end_char(href.as_str(), '/').as_str(),
            trim_end_char(url, '/').as_str(),
        ) {
            listing.quota_available = number(&props, "quota-available-bytes");
            listing.quota_used = number(&props, "quota-used-bytes");
            listing.sync_token = match prop(&props, "sync-token") {
                Some(p) => Some(trim(p.text.as_str())),
                None => None,
            };
            listing.current = n;
            return Ok(true);
        }
        let prefix = trim_end_char(url, '/').concat("/");
        let relative = match strip_prefix(href.as_str(), prefix.as_str()) {
            Some(rest) => trim_end_char(rest.as_str(), '/'),
            None => String::new(),
        };
        if !relative.as_str().is_empty() && !has_char(relative.as_str(), '/') {
            let ghost before = nodes(listing.nodes@);
            listing.nodes.push(n);
            proof {
                assert(nodes(listing.nodes@) =~= before.push(n@));
            }
        }
        Ok(found)
    }

    /// Read the answers about a folder. `url` is the folder in the form that [`DavClient::href`]
    /// gives.
    pub fn read_listing(&self, url: &str, tree: &Property) -> (r: Result<Listing>)
        ensures
            if !tree@.is("multistatus"@) {
                fails(r, "Expected a WebDAV multistatus response."@)
            } else {
                match take_answers(self.root@, url@, tree@.children) {
                    Err(m) => fails(r, m),
                    Ok(folder) => if !folder.found {
                        fails(r, "The server omitted the requested folder."@)
                    } else {
                        r is Ok && r->Ok_0.model(true) == shown(folder)
                    },
                }
            },
    {
        if !tree.is("multistatus") {
            return Err(other("Expected a WebDAV multistatus response."));
        }
        let ghost all = tree@.children;
        let mut listing = Listing {
            nodes: Vec::new(),
            current: FileNode::default(),
            quota_available: None,
            quota_used: None,
            sync_token: None,
        };
        let mut found = false;
        let mut i: usize = 0;
        proof {
            children_are_trees(*tree);
            assert(all.take(0) == Seq::<Tree>::empty());
            assert(listing.model(false).nodes =~= Folder::empty().nodes);
            assert(listing.model(false) == Folder::empty());
        }
        while i < tree.children.len()
            invariant
                i <= tree.children.len(),
                all == tree@.children,
                all == trees(tree.children@),
                tree@.is("multistatus"@),
                take_answers(self.root@, url@, all.take(i as int)) is Ok,
                take_answers(self.root@, url@, all.take(i as int))->Ok_0 == listing.model(found),
            decreases tree.children.len() - i,
        {
            proof {
                assert(all.take(i + 1).drop_last() == all.take(i as int));
                assert(all.take(i + 1).last() == tree.children@[i as int]@);
            }
            match self.take(url, &mut listing, found, &tree.children[i]) {
                Ok(f) => {
                    found = f;
                },
                Err(e) => {
                    proof {
                        take_answers_stop(self.root@, url@, all, i + 1);
                    }
                    return Err(e);
                },
            }
            i = i + 1;
        }
        proof {
            assert(all.take(all.len() as int) == all);
        }
        if !found {
            return Err(other("The server omitted the requested folder."));
        }
        let removable = listing.current.my_rights.may_delete;
        let renamable = removable && listing.current.my_rights.add();
        let ghost folder = listing.model(true);
        let mut placed: Vec<FileNode> = Vec::new();
        let ghost own = listing.nodes@;
        for n in it: listing.nodes
            invariant
                it.seq() == own,
                removable == folder.current.my_rights.may_delete,
                renamable == (folder.current.my_rights.may_delete
                    && folder.current.my_rights.can_add()),
                placed@.len() == it.index(),
                forall|k: int|
                    0 <= k < it.index() ==> (#[trigger] placed@[k])@ == in_folder(
                        folder.current,
                        own[k]@,
                    ),
        {
            let mut n = n;
            n.my_rights.may_delete = removable;
            n.my_rights.may_rename = renamable;
            placed.push(n);
        }
        let ghost held = placed@;
        let ghost ahead = |a: FileNode, b: FileNode| folder_order(a@, b@);
        let ghost seen = |a: Node, b: Node| folder_order(a, b);
        let order = |a: &FileNode, b: &FileNode| -> (r: bool)
            ensures
                r == folder_order(a@, b@),
            {
                comes_first(a, b)
            };
        let sorted = sort_list(placed, order, Ghost(ahead));
        proof {
            sorting_maps(held, ahead, |n: FileNode| n@, seen);
            assert(nodes(held) =~= folder.nodes.map_values(
                |n: Node| in_folder(folder.current, n),
            ));
        }
        Ok(
            Listing {
                nodes: sorted,
                current: listing.current,
                quota_available: listing.quota_available,
                quota_used: listing.quota_used,
                sync_token: listing.sync_token,
            },
        )
    }
}

/// A folder shows everything that was found in it, each once for each answer, folders before
/// files and each by name.
pub proof fn folders_are_shown_in_order(folder: Folder)
    ensures
        in_order(shown(folder).nodes, |a: Node, b: Node| folder_order(a, b)),
        shown(folder).nodes.to_multiset() == folder.nodes.map_values(
            |n: Node| in_folder(folder.current, n),
        ).to_multiset(),
{
    let before = |a: Node, b: Node| folder_order(a, b);
    assert forall|a: Node, b: Node| #[trigger] before(a, b) implies !before(b, a) by {
        text_order_is_total(lowercase(a.name), lowercase(b.name), lowercase(a.name));
    }
    assert forall|a: Node, b: Node, c: Node|
        !#[trigger] before(b, a) && !#[trigger] before(c, b) implies !before(c, a) by {
        text_order_is_total(lowercase(a.name), lowercase(b.name), lowercase(c.name));
        text_order_is_total(lowercase(b.name), lowercase(c.name), lowercase(a.name));
        text_order_is_total(lowercase(a.name), lowercase(c.name), lowercase(b.name));
    }
    sorting_orders_what_is_there(
        folder.nodes.map_values(|n: Node| in_folder(folder.current, n)),
        before,
    );
}

/// What an answer adds to a listing. That of the folder itself tells the folder, the space that is
/// left and that is used, and the token of its state, each from the property of its name. That of a
/// resource right in the folder adds the resource. Any other adds nothing.
pub proof fn answers_add_what_they_describe(
    root: Seq<char>,
    url: Seq<char>,
    folder: Folder,
    t: Tree,
)
    requires
        t.is("response"@),
        take_answer(root, url, folder, t) is Ok,
    ensures
        ({
            let after = take_answer(root, url, folder, t)->Ok_0;
            let href = href_result(root, url, t.worth("href"@)->0)->Ok_0;
            let props = granted_properties(t.children);
            let name = name_within(url, href);
            if trim_end_of(href, '/') == trim_end_of(url, '/') {
                &&& after.found && after.nodes == folder.nodes
                &&& after.current == dav_node(href, props)
                &&& tells(props, "sync-token"@, after.sync_token)
                &&& forall|i: int|
                    #[trigger] is_place_of(props, "quota-available-bytes"@, i)
                        ==> after.quota_available == parsed_u64(trimmed(props[i].text))
                &&& forall|i: int|
                    #[trigger] is_place_of(props, "quota-used-bytes"@, i) ==> after.quota_used
                        == parsed_u64(trimmed(props[i].text))
            } else if name.len() > 0 && !name.contains('/') {
                after == (Folder { nodes: folder.nodes.push(dav_node(href, props)), ..folder })
            } else {
                after == folder
            }
        }),
{
    let props = granted_properties(t.children);
    worth_is_told(props, "sync-token"@);
    number_is_told(props, "quota-available-bytes"@);
    number_is_told(props, "quota-used-bytes"@);
}

proof fn number_is_told(props: Seq<Tree>, name: Seq<char>)
    ensures
        forall|i: int|
            #[trigger] is_place_of(props, name, i) ==> number_of(props, name) == parsed_u64(
                trimmed(props[i].text),
            ),
{
    worth_is_told(props, name);
    assert forall|i: int| #[trigger] is_place_of(props, name, i) implies number_of(props, name)
        == parsed_u64(trimmed(props[i].text)) by {
        let worth = worth_of(props, name);
        let k = choose|k: int|
            #[trigger] is_place_of(props, name, k) && worth->0 == trimmed(props[k].text);
        places_are_unique(props, name, i, k);
    }
}

/// A folder shows what was found in it and nothing else: folders before files, and each by name
/// without regard to case. A resource can be deleted where its folder lets, and renamed where its
/// folder lets delete and add; it keeps its other rights.
pub proof fn folders_rule_their_resources(folder: Folder)
    ensures
        ({
            let list = shown(folder).nodes;
            let may = folder.current.my_rights;
            &&& list.len() == folder.nodes.len()
            &&& forall|i: int, j: int|
                0 <= i < j < list.len() ==> ((#[trigger] list[i]).directory() || !(
                #[trigger] list[j]).directory()) && (list[i].directory() == list[j].directory()
                    ==> text_order(lowercase(list[i].name), lowercase(list[j].name)) <= 0)
            &&& forall|n: Node| #[trigger]
                list.contains(n) ==> n.my_rights.may_delete == may.may_delete
                    && n.my_rights.may_rename == (may.may_delete && (may.may_add_children
                    || may.may_write))
            &&& forall|n: Node| #[trigger]
                folder.nodes.contains(n) ==> list.contains(
                    Node {
                        my_rights: Rights {
                            may_delete: may.may_delete,
                            may_rename: may.may_delete && (may.may_add_children || may.may_write),
                            ..n.my_rights
                        },
                        ..n
                    },
                )
        }),
{
    broadcast use vstd::seq_lib::group_to_multiset_ensures;

    folders_are_shown_in_order(folder);
    let ruled = folder.nodes.map_values(|n: Node| in_folder(folder.current, n));
    let before = |a: Node, b: Node| folder_order(a, b);
    let list = shown(folder).nodes;
    assert(list.to_multiset().len() == list.len());
    assert(ruled.to_multiset().len() == ruled.len());
    assert forall|i: int, j: int| 0 <= i < j < list.len() implies ((#[trigger] list[i]).directory()
        || !(#[trigger] list[j]).directory()) && (list[i].directory() == list[j].directory()
        ==> text_order(lowercase(list[i].name), lowercase(list[j].name)) <= 0) by {
        assert(!before(list[j], list[i]));
        text_order_is_total(
            lowercase(list[i].name),
            lowercase(list[j].name),
            lowercase(list[i].name),
        );
    }
    assert forall|n: Node| #[trigger] list.contains(n) <==> ruled.contains(n) by {
        assert(list.contains(n) <==> list.to_multiset().count(n) > 0);
        assert(ruled.contains(n) <==> ruled.to_multiset().count(n) > 0);
    }
    assert forall|n: Node| #[trigger] folder.nodes.contains(n) implies list.contains(
        in_folder(folder.current, n),
    ) by {
        let k = choose|k: int| 0 <= k < folder.nodes.len() && folder.nodes[k] == n;
        assert(ruled[k] == in_folder(folder.current, n));
        assert(ruled.contains(in_folder(folder.current, n)));
    }
}

/// A collection report: whether anything changed, and the token that stands for what is known now.
pub fn read_changes(tree: &Property) -> (r: Result<(bool, String)>)
    ensures
        if !tree@.is("multistatus"@) {
            fails(r, "Invalid collection sync response."@)
        } else if tree@.worth("sync-token"@) is None {
            fails(r, "Missing collection sync token."@)
        } else {
            r is Ok && r->Ok_0.1@ == tree@.worth("sync-token"@)->0 && r->Ok_0.0 == exists|i: int|
                0 <= i < tree@.children.len() && (#[trigger] tree@.children[i]).is("response"@)
        },
{
    if !tree.is("multistatus") {
        return Err(other("Invalid collection sync response."));
    }
    let token = match tree.value("sync-token") {
        Some(t) => t,
        None => {
            return Err(other("Missing collection sync token."));
        },
    };
    proof {
        children_are_trees(*tree);
    }
    let mut i: usize = 0;
    while i < tree.children.len()
        invariant
            i <= tree.children.len(),
            tree@.is("multistatus"@),
            tree@.worth("sync-token"@) == Some(token@),
            tree@.children == trees(tree.children@),
            forall|j: int| 0 <= j < i ==> !(#[trigger] tree@.children[j]).is("response"@),
        decreases tree.children.len() - i,
    {
        proof {
            assert(tree@.children[i as int] == tree.children@[i as int]@);
        }
        if tree.children[i].is("response") {
            return Ok((true, token));
        }
        i = i + 1;
    }
    Ok((false, token))
}

} // verus!
