//! A page of a JMAP listing: what is asked for, how the answers make up the page, and the rights
//! that its nodes inherit.

use crate::error::{fails, other, says, Result};
use crate::files::jmap::{
    filename_pattern, matches_pattern, name_pattern, patterns_find_the_text, Browse, BrowseOptions,
    FileClient, FilePage, CORE,
};
use crate::files::json::{place_is, views, Json, Value};
use crate::files::transport::{in_order, keys_of, ordered_records, pick, unexpected};
use crate::files::{nodes, FileNode, Node, Rights, PAGE_SIZE};
use crate::text::{has_member, has_text, lit, opt, opt_str, same, texts};
use vstd::prelude::*;
use vstd::string::*;

verus! {

/// An object with a field where there is a value for it.
pub open spec fn with_some(v: Value, key: Seq<char>, field: Option<Value>) -> Value {
    match field {
        Some(x) => v.put(key, x),
        None => v,
    }
}

/// A number of the options as a value.
pub open spec fn opt_number(n: Option<u32>) -> Option<Value> {
    match n {
        Some(n) => Some(Value::Unsigned(n as u64)),
        None => None,
    }
}

/// A text of the options as a value.
pub open spec fn opt_value(s: Option<Seq<char>>) -> Option<Value> {
    match s {
        Some(s) => Some(Value::Text(s)),
        None => None,
    }
}

/// What a listing asks for: the children of a folder, the top level, or every node below whose
/// name holds the text; narrowed by the options.
pub open spec fn list_filter(
    modern: bool,
    parent: Option<Seq<char>>,
    text: Seq<char>,
    options: Browse,
) -> Value {
    let place = if text.len() == 0 {
        match parent {
            Some(id) => Value::empty().with("parentId"@, Value::Text(id)),
            None => if modern {
                Value::empty().with("isTopLevel"@, Value::Bool(true))
            } else {
                Value::empty().with("hasParentId"@, Value::Bool(false))
            },
        }
    } else {
        with_some(
            Value::empty().with("nameMatch"@, Value::Text(name_pattern(text))),
            "ancestorId"@,
            opt_value(parent),
        )
    };
    with_some(
        with_some(
            with_some(place, "nodeType"@, opt_value(options.node_type)),
            "minSize"@,
            opt_number(options.min_size),
        ),
        "maxSize"@,
        opt_number(options.max_size),
    )
}

/// The property that a listing is ordered by.
pub open spec fn sort_property(options: Browse) -> Seq<char> {
    if options.sort.len() == 0 {
        "name"@
    } else {
        options.sort
    }
}

/// The order that a listing asks for: none where the server cannot give it.
pub open spec fn list_sort(c: FileClient, options: Browse) -> Value {
    if c.can_sort_by(sort_property(options)) {
        Value::none().and(
            Value::empty().with("property"@, Value::Text(sort_property(options))).with(
                "isAscending"@,
                Value::Bool(!options.descending),
            ),
        )
    } else {
        Value::none()
    }
}

/// The arguments of a query for one page.
pub open spec fn query_args(filter: Value, position: usize, sort: Value) -> Value {
    Value::empty().with("filter"@, filter).with("position"@, Value::Unsigned(position as u64)).with(
        "limit"@,
        Value::Unsigned(PAGE_SIZE as u64),
    ).with("sort"@, sort).with("calculateTotal"@, Value::Bool(true))
}

fn put_some(v: Json, key: &str, field: Option<Json>) -> (r: Json)
    ensures
        r@ == with_some(
            v@,
            key@,
            match field {
                Some(x) => Some(x@),
                None => None,
            },
        ),
{
    match field {
        Some(x) => v.put(key, x),
        None => v,
    }
}

fn number(n: Option<u32>) -> (r: Option<Json>)
    ensures
        (match r {
            Some(x) => Some(x@),
            None => None,
        }) == opt_number(n),
{
    match n {
        Some(n) => Some(Json::Unsigned(n as u64)),
        None => None,
    }
}

fn some_text(s: Option<&str>) -> (r: Option<Json>)
    ensures
        (match r {
            Some(x) => Some(x@),
            None => None,
        }) == opt_value(opt_str(s)),
{
    match s {
        Some(s) => Some(Json::text(s)),
        None => None,
    }
}

/// A node as the server keeps it.
pub struct Stored {
    /// The folder that the node stands in; `None` at the top level.
    pub parent: Option<Seq<char>>,
    /// All folders that the node stands below.
    pub above: Set<Seq<char>>,
    pub name: Seq<char>,
    pub node_type: Seq<char>,
    pub size: u64,
}

/// Whether a node meets one condition of a filter. Servers after the change of the draft know the
/// top level as such, those before it as the nodes without a parent; what a server does not know
/// no node meets.
pub open spec fn meets(modern: bool, n: Stored, key: Seq<char>, value: Value) -> bool {
    if key == "parentId"@ {
        value is Text && n.parent == Some(value->Text_0)
    } else if key == "isTopLevel"@ {
        modern && value == Value::Bool(n.parent is None)
    } else if key == "hasParentId"@ {
        !modern && value == Value::Bool(n.parent is Some)
    } else if key == "ancestorId"@ {
        value is Text && n.above.contains(value->Text_0)
    } else if key == "nameMatch"@ {
        value is Text && matches_pattern(n.name, value->Text_0)
    } else if key == "nodeType"@ {
        value == Value::Text(n.node_type)
    } else if key == "minSize"@ {
        value is Unsigned && n.size >= value->Unsigned_0
    } else if key == "maxSize"@ {
        value is Unsigned && n.size <= value->Unsigned_0
    } else {
        false
    }
}

/// Whether a node passes a filter: it meets every condition.
pub open spec fn passes(modern: bool, n: Stored, filter: Value) -> bool {
    filter is Object && forall|i: int|
        0 <= i < filter->Object_0.len() ==> #[trigger] meets(
            modern,
            n,
            filter->Object_0[i].0,
            filter->Object_0[i].1,
        )
}

/// Whether a listing is to show a node: without a text, a child of the folder, or a node of the top
/// level where there is no folder; with a text, a node below the folder, or any node where there is
/// none, whose name holds the text. It is of the type and of the size that the options ask for.
pub open spec fn belongs(
    n: Stored,
    parent: Option<Seq<char>>,
    text: Seq<char>,
    options: Browse,
) -> bool {
    &&& text.len() == 0 ==> n.parent == parent
    &&& text.len() > 0 ==> has_text(n.name, text)
    &&& text.len() > 0 && parent is Some ==> n.above.contains(parent->0)
    &&& options.node_type is Some ==> n.node_type == options.node_type->0
    &&& options.min_size is Some ==> n.size >= options.min_size->0
    &&& options.max_size is Some ==> n.size <= options.max_size->0
}

/// One more condition.
proof fn one_more_condition(modern: bool, n: Stored, filter: Value, key: Seq<char>, value: Value)
    requires
        filter is Object,
    ensures
        passes(modern, n, filter.with(key, value)) <==> passes(modern, n, filter) && meets(
            modern,
            n,
            key,
            value,
        ),
{
    let before = filter->Object_0;
    let after = filter.with(key, value)->Object_0;
    assert(after.last() == (key, value));
    if passes(modern, n, filter.with(key, value)) {
        assert forall|i: int| 0 <= i < before.len() implies #[trigger] meets(
            modern,
            n,
            before[i].0,
            before[i].1,
        ) by {
            assert(after[i] == before[i]);
            assert(meets(modern, n, after[i].0, after[i].1));
        }
        let last = before.len() as int;
        assert(meets(modern, n, after[last].0, after[last].1));
    }
}

/// Whether no condition of a filter has a key.
spec fn lacks(filter: Value, key: Seq<char>) -> bool {
    filter is Object && forall|i: int|
        0 <= i < filter->Object_0.len() ==> (#[trigger] filter->Object_0[i]).0 != key
}

/// A condition that is set where there was none of its key is one more.
proof fn new_condition(modern: bool, n: Stored, filter: Value, key: Seq<char>, field: Option<Value>)
    requires
        lacks(filter, key),
    ensures
        with_some(filter, key, field) is Object,
        passes(modern, n, with_some(filter, key, field)) <==> passes(modern, n, filter) && (field
            is Some ==> meets(modern, n, key, field->0)),
        forall|k: Seq<char>|
            k != key && lacks(filter, k) ==> #[trigger] lacks(with_some(filter, key, field), k),
{
    place_is(filter->Object_0, key, filter->Object_0.len() as int);
    if field is Some {
        one_more_condition(modern, n, filter, key, field->0);
        assert(filter.put(key, field->0) == filter.with(key, field->0));
        let after = filter.put(key, field->0)->Object_0;
        assert forall|k: Seq<char>| k != key && lacks(filter, k) implies #[trigger] lacks(
            with_some(filter, key, field),
            k,
        ) by {
            assert forall|i: int| 0 <= i < after.len() implies (#[trigger] after[i]).0 != k by {
                if i < filter->Object_0.len() {
                    assert(after[i] == filter->Object_0[i]);
                }
            }
        }
    }
}

/// The keys of filters differ.
proof fn keys_differ()
    ensures
        "isTopLevel"@ != "parentId"@,
        "hasParentId"@ != "parentId"@ && "hasParentId"@ != "isTopLevel"@,
        "ancestorId"@ != "parentId"@ && "ancestorId"@ != "isTopLevel"@ && "ancestorId"@
            != "hasParentId"@,
        "nameMatch"@ != "parentId"@ && "nameMatch"@ != "isTopLevel"@ && "nameMatch"@
            != "hasParentId"@ && "nameMatch"@ != "ancestorId"@,
        "nodeType"@ != "parentId"@ && "nodeType"@ != "isTopLevel"@ && "nodeType"@ != "hasParentId"@
            && "nodeType"@ != "ancestorId"@ && "nodeType"@ != "nameMatch"@,
        "minSize"@ != "parentId"@ && "minSize"@ != "isTopLevel"@ && "minSize"@ != "hasParentId"@
            && "minSize"@ != "ancestorId"@ && "minSize"@ != "nameMatch"@ && "minSize"@
            != "nodeType"@,
        "maxSize"@ != "parentId"@ && "maxSize"@ != "isTopLevel"@ && "maxSize"@ != "hasParentId"@
            && "maxSize"@ != "ancestorId"@ && "maxSize"@ != "nameMatch"@ && "maxSize"@
            != "nodeType"@ && "maxSize"@ != "minSize"@,
{
    reveal_strlit("parentId");
    reveal_strlit("isTopLevel");
    reveal_strlit("hasParentId");
    reveal_strlit("ancestorId");
    reveal_strlit("nameMatch");
    reveal_strlit("nodeType");
    reveal_strlit("minSize");
    reveal_strlit("maxSize");
    assert("parentId"@.len() == 8 && "nodeType"@.len() == 8 && "nameMatch"@.len() == 9);
    assert("isTopLevel"@.len() == 10 && "ancestorId"@.len() == 10 && "hasParentId"@.len() == 11);
    assert("minSize"@.len() == 7 && "maxSize"@.len() == 7);
    assert("parentId"@[0] == 'p' && "nodeType"@[0] == 'n');
    assert("isTopLevel"@[0] == 'i' && "ancestorId"@[0] == 'a');
    assert("minSize"@[1] == 'i' && "maxSize"@[1] == 'a');
}

/// The filter of a listing passes the nodes that the listing is to show, and no other.
proof fn filter_passes_what_belongs(
    modern: bool,
    parent: Option<Seq<char>>,
    text: Seq<char>,
    options: Browse,
    n: Stored,
)
    ensures
        passes(modern, n, list_filter(modern, parent, text, options)) <==> belongs(
            n,
            parent,
            text,
            options,
        ),
{
    keys_differ();
    let none = Value::empty();
    assert(passes(modern, n, none));
    let place = if text.len() == 0 {
        match parent {
            Some(id) => {
                one_more_condition(modern, n, none, "parentId"@, Value::Text(id));
                none.with("parentId"@, Value::Text(id))
            },
            None => {
                let (key, value) = if modern {
                    ("isTopLevel"@, true)
                } else {
                    ("hasParentId"@, false)
                };
                one_more_condition(modern, n, none, key, Value::Bool(value));
                none.with(key, Value::Bool(value))
            },
        }
    } else {
        let pattern = Value::Text(name_pattern(text));
        one_more_condition(modern, n, none, "nameMatch"@, pattern);
        patterns_find_the_text(n.name, text);
        let named = none.with("nameMatch"@, pattern);
        assert(lacks(named, "ancestorId"@));
        assert(lacks(named, "nodeType"@) && lacks(named, "minSize"@) && lacks(named, "maxSize"@));
        new_condition(modern, n, named, "ancestorId"@, opt_value(parent));
        with_some(named, "ancestorId"@, opt_value(parent))
    };
    assert(lacks(place, "nodeType"@) && lacks(place, "minSize"@) && lacks(place, "maxSize"@));
    new_condition(modern, n, place, "nodeType"@, opt_value(options.node_type));
    let typed = with_some(place, "nodeType"@, opt_value(options.node_type));
    new_condition(modern, n, typed, "minSize"@, opt_number(options.min_size));
    let large = with_some(typed, "minSize"@, opt_number(options.min_size));
    new_condition(modern, n, large, "maxSize"@, opt_number(options.max_size));
}

/// What the arguments of a query say under each key.
proof fn arguments_are_read(filter: Value, position: usize, sort: Value)
    ensures
        query_args(filter, position, sort).at("filter"@) == filter,
        query_args(filter, position, sort).at("position"@) == Value::Unsigned(position as u64),
        query_args(filter, position, sort).at("limit"@) == Value::Unsigned(PAGE_SIZE as u64),
        query_args(filter, position, sort).at("sort"@) == sort,
        query_args(filter, position, sort).at("calculateTotal"@) == Value::Bool(true),
{
    reveal_strlit("filter");
    reveal_strlit("position");
    reveal_strlit("limit");
    reveal_strlit("sort");
    reveal_strlit("calculateTotal");
    assert("filter"@.len() == 6 && "position"@.len() == 8 && "limit"@.len() == 5);
    assert("sort"@.len() == 4 && "calculateTotal"@.len() == 14);
    let fields = query_args(filter, position, sort)->Object_0;
    place_is(fields, "filter"@, 0);
    place_is(fields, "position"@, 1);
    place_is(fields, "limit"@, 2);
    place_is(fields, "sort"@, 3);
    place_is(fields, "calculateTotal"@, 4);
}

/// The query of a listing asks for the nodes that the listing is to show: those that pass the filter
/// that it carries are the children of the folder, or the nodes of the top level; with a text, the
/// nodes below the folder whose name holds it.
pub proof fn listings_find_what_belongs(
    client: FileClient,
    parent: Option<Seq<char>>,
    text: Seq<char>,
    position: usize,
    options: Browse,
    n: Stored,
)
    ensures
        ({
            let modern = client.is_modern();
            let query = query_args(
                list_filter(modern, parent, text, options),
                position,
                list_sort(client, options),
            );
            let asked = passes(modern, n, query.at("filter"@));
            let wanted = (options.node_type is Some ==> options.node_type->0 == n.node_type) && (
            options.min_size is Some ==> options.min_size->0 <= n.size) && (options.max_size is Some
                ==> n.size <= options.max_size->0);
            &&& text.len() == 0 && parent is Some ==> (asked <==> n.parent == Some(parent->0)
                && wanted)
            &&& text.len() == 0 && parent is None ==> (asked <==> n.parent is None && wanted)
            &&& text.len() > 0 && parent is Some ==> (asked <==> n.above.contains(parent->0)
                && has_text(n.name, text) && wanted)
            &&& text.len() > 0 && parent is None ==> (asked <==> has_text(n.name, text) && wanted)
        }),
{
    let modern = client.is_modern();
    let filter = list_filter(modern, parent, text, options);
    arguments_are_read(filter, position, list_sort(client, options));
    filter_passes_what_belongs(modern, parent, text, options, n);
}

/// What an order of one property says under each key.
proof fn order_is_read(property: Seq<char>, ascending: bool)
    ensures
        ({
            let order = Value::empty().with("property"@, Value::Text(property)).with(
                "isAscending"@,
                Value::Bool(ascending),
            );
            &&& order.at("property"@) == Value::Text(property)
            &&& order.at("isAscending"@) == Value::Bool(ascending)
        }),
{
    reveal_strlit("property");
    reveal_strlit("isAscending");
    assert("property"@.len() == 8 && "isAscending"@.len() == 11);
    let fields = Value::empty().with("property"@, Value::Text(property)).with(
        "isAscending"@,
        Value::Bool(ascending),
    )->Object_0;
    place_is(fields, "property"@, 0);
    place_is(fields, "isAscending"@, 1);
}

impl FileClient {
    /// The arguments of a query for one page of a listing. A filter that is given stands in place
    /// of the one that the folder, the text and the options make.
    pub fn list_query(
        &self,
        parent: Option<&str>,
        text: &str,
        position: usize,
        override_filter: Option<Json>,
        options: &BrowseOptions,
    ) -> (r: Json)
        ensures
            r@ == query_args(
                match override_filter {
                    Some(f) => f@,
                    None => list_filter(self.is_modern(), opt_str(parent), text@, options@),
                },
                position,
                list_sort(*self, options@),
            ),
            override_filter is None ==> forall|n: Stored|
                #[trigger] passes(self.is_modern(), n, r@.at("filter"@)) <==> belongs(
                    n,
                    opt_str(parent),
                    text@,
                    options@,
                ),
            override_filter is Some ==> r@.at("filter"@) == override_filter->0@,
            r@.at("position"@) == Value::Unsigned(position as u64),
            r@.at("limit"@) == Value::Unsigned(PAGE_SIZE as u64),
            r@.at("calculateTotal"@) == Value::Bool(true),
            r@.at("sort"@).items() is Some,
            r@.at("sort"@).items()->0.len() == (if self.can_sort_by(sort_property(options@)) {
                1int
            } else {
                0
            }),
            self.can_sort_by(sort_property(options@)) ==> {
                let order = r@.at("sort"@).items()->0[0];
                &&& options.sort@.len() == 0 ==> order.at("property"@) == Value::Text("name"@)
                &&& options.sort@.len() > 0 ==> order.at("property"@) == Value::Text(options.sort@)
                &&& order.at("isAscending"@) == Value::Bool(!options.descending)
            },
    {
        proof {
            let filter = if override_filter is Some {
                override_filter->0@
            } else {
                list_filter(self.is_modern(), opt_str(parent), text@, options@)
            };
            arguments_are_read(filter, position, list_sort(*self, options@));
            order_is_read(sort_property(options@), !options@.descending);
            assert forall|n: Stored|
                override_filter is None implies (#[trigger] passes(self.is_modern(), n, filter)
                <==> belongs(n, opt_str(parent), text@, options@)) by {
                filter_passes_what_belongs(
                    self.is_modern(),
                    opt_str(parent),
                    text@,
                    options@,
                    n,
                );
            }
        }
        let place = if text.is_empty() {
            match parent {
                Some(id) => Json::object().with("parentId", Json::text(id)),
                None => if self.modern() {
                    Json::object().with("isTopLevel", Json::Bool(true))
                } else {
                    Json::object().with("hasParentId", Json::Bool(false))
                },
            }
        } else {
            let pattern = Json::Text(filename_pattern(text));
            put_some(Json::object().with("nameMatch", pattern), "ancestorId", some_text(parent))
        };
        let kind = match &options.node_type {
            Some(kind) => Some(kind.as_str()),
            None => None,
        };
        let filter = put_some(place, "nodeType", some_text(kind));
        let filter = put_some(filter, "minSize", number(options.min_size));
        let filter = put_some(filter, "maxSize", number(options.max_size));
        let filter = match override_filter {
            Some(f) => f,
            None => filter,
        };
        let property = if options.sort.as_str().is_empty() {
            lit("name")
        } else {
            options.sort.clone()
        };
        let sort = if self.sorts_by(property.as_str()) {
            Json::list().and(
                Json::object().with("property", Json::Text(property)).with(
                    "isAscending",
                    Json::Bool(!options.descending),
                ),
            )
        } else {
            Json::list()
        };
        Json::object().with("filter", filter).with(
            "position",
            Json::Unsigned(position as u64),
        ).with("limit", Json::Unsigned(PAGE_SIZE as u64)).with("sort", sort).with(
            "calculateTotal",
            Json::Bool(true),
        )
    }

    /// How many objects one get may ask for.
    pub open spec fn get_limit(self) -> int {
        match self.session@.at("capabilities"@).at(CORE@).at("maxObjectsInGet"@).unsigned() {
            Some(n) => if n < 1 {
                1
            } else if n > 100 {
                100
            } else {
                n as int
            },
            None => 100,
        }
    }

    fn max_get(&self) -> (r: usize)
        ensures
            r == self.get_limit(),
            1 <= r <= 100,
    {
        let limit: u64 = match self.core_limit("maxObjectsInGet") {
            Some(n) => n,
            None => 100,
        };
        if limit < 1 {
            1
        } else if limit > 100 {
            100
        } else {
            limit as usize
        }
    }

    /// A limit of the core protocol that the server states.
    pub(crate) fn core_limit(&self, key: &str) -> (r: Option<u64>)
        ensures
            r == self.session@.at("capabilities"@).at(CORE@).at(key@).unsigned(),
    {
        match self.session.get("capabilities") {
            Some(c) => match c.get(CORE) {
                Some(c) => c.u64_at(key),
                None => None,
            },
            None => None,
        }
    }
}

/// What the server answered to a query.
pub struct QueryReply {
    pub ids: Vec<String>,
    pub total: Option<u64>,
    pub query_state: String,
}

/// The ids of a query, where all of them are texts.
pub open spec fn id_list(items: Seq<Value>) -> Option<Seq<Seq<char>>>
    decreases items.len(),
{
    if items.len() == 0 {
        Some(Seq::empty())
    } else {
        match (id_list(items.drop_last()), items.last().text()) {
            (Some(before), Some(id)) => Some(before.push(id)),
            _ => None,
        }
    }
}

/// Read the ids of a list; `None` where one of them is no text.
pub fn read_ids(items: &Vec<Json>) -> (r: Option<Vec<String>>)
    ensures
        match r {
            Some(ids) => id_list(views(items@)) == Some(texts(ids@)),
            None => id_list(views(items@)) is None,
        },
{
    let ghost all = views(items@);
    let mut out: Vec<String> = Vec::new();
    let mut i: usize = 0;
    let mut sound = true;
    proof {
        assert(all.take(0) == Seq::<Value>::empty());
        assert(texts(out@) =~= Seq::<Seq<char>>::empty());
    }
    while i < items.len()
        invariant
            i <= items.len(),
            all == views(items@),
            sound ==> id_list(all.take(i as int)) == Some(texts(out@)),
            !sound ==> id_list(all.take(i as int)) is None,
        decreases items.len() - i,
    {
        proof {
            assert(all.take(i + 1).drop_last() == all.take(i as int));
            assert(all.take(i + 1).last() == items@[i as int]@);
        }
        match items[i].as_text() {
            Some(id) => {
                let ghost before = texts(out@);
                out.push(lit(id));
                proof {
                    assert(texts(out@) =~= before.push(id@));
                }
            },
            None => {
                sound = false;
            },
        }
        i = i + 1;
    }
    proof {
        assert(all.take(all.len() as int) == all);
    }
    if sound {
        Some(out)
    } else {
        None
    }
}

/// Read the answer to a query; `None` where its ids are no list of texts.
pub fn read_query(query: &Json) -> (r: Option<QueryReply>)
    ensures
        match r {
            Some(q) => query@.at("ids"@).items() is Some && id_list(
                query@.at("ids"@).items()->0,
            ) == Some(texts(q.ids@)) && q.total == query@.at("total"@).unsigned()
                && q.query_state@ == (match query@.at("queryState"@).text() {
                Some(s) => s,
                None => Seq::empty(),
            }),
            None => query@.at("ids"@).items() is None || id_list(
                query@.at("ids"@).items()->0,
            ) is None,
        },
{
    let items = match query.list_at("ids") {
        Some(items) => items,
        None => {
            return None;
        },
    };
    match read_ids(items) {
        Some(ids) => {
            let query_state = match query.text_at("queryState") {
                Some(s) => lit(s),
                None => String::new(),
            };
            Some(QueryReply { ids, total: query.u64_at("total"), query_state })
        },
        None => None,
    }
}

/// What the server answered to a get.
pub struct GetReply {
    pub state: Option<String>,
    pub list: Vec<FileNode>,
}

/// A page in the making: the query is answered, its records are being fetched.
pub struct Listing {
    pub position: usize,
    pub query: QueryReply,
    pub nodes: Vec<FileNode>,
    pub state: Option<String>,
    /// How many of the ids were asked for.
    pub fetched: usize,
}

/// The ids of a list of nodes.
pub open spec fn ids_of(list: Seq<FileNode>) -> Seq<Seq<char>> {
    list.map_values(|n: FileNode| n.id@)
}

/// The next ids to ask for.
pub open spec fn chunk(ids: Seq<Seq<char>>, fetched: int, limit: int) -> Seq<Seq<char>> {
    if ids.len() - fetched <= limit {
        ids.skip(fetched)
    } else {
        ids.subrange(fetched, fetched + limit)
    }
}

fn node_id(n: &FileNode) -> (k: &str)
    ensures
        k@ == n.id@,
{
    n.id.as_str()
}

impl Listing {
    pub open spec fn wf(self) -> bool {
        self.fetched <= self.query.ids@.len() <= PAGE_SIZE
    }

    /// Whether every record was asked for. A state is read even for an empty folder, so that a
    /// create uses a fresh precondition.
    pub open spec fn complete(self) -> bool {
        self.state is Some && self.fetched == self.query.ids@.len()
    }

    /// A page that begins with the answer to its query.
    pub fn begin(position: usize, query: QueryReply) -> (r: Result<Listing>)
        ensures
            if query.ids@.len() > PAGE_SIZE {
                fails(r, "File server exceeded the requested page limit."@)
            } else {
                r is Ok && r->Ok_0.wf() && r->Ok_0.position == position && r->Ok_0.query == query
                    && r->Ok_0.nodes@.len() == 0 && r->Ok_0.state is None && r->Ok_0.fetched == 0
            },
    {
        if query.ids.len() > PAGE_SIZE {
            return Err(other("File server exceeded the requested page limit."));
        }
        Ok(Listing { position, query, nodes: Vec::new(), state: None, fetched: 0 })
    }

    /// The ids to ask for next; `None` where all were asked for.
    pub fn next_ids(&self, client: &FileClient) -> (r: Option<Vec<String>>)
        requires
            self.wf(),
        ensures
            r is None <==> self.complete(),
            r matches Some(ids) ==> texts(ids@) == chunk(
                texts(self.query.ids@),
                self.fetched as int,
                client.get_limit(),
            ),
    {
        if self.state.is_some() && self.fetched == self.query.ids.len() {
            return None;
        }
        let limit: usize = client.max_get();
        let end: usize = if self.query.ids.len() - self.fetched <= limit {
            self.query.ids.len()
        } else {
            self.fetched + limit
        };
        let mut out: Vec<String> = Vec::new();
        let mut i: usize = self.fetched;
        while i < end
            invariant
                self.fetched <= i <= end <= self.query.ids@.len(),
                texts(out@) == texts(self.query.ids@).subrange(self.fetched as int, i as int),
            decreases end - i,
        {
            let ghost before = texts(out@);
            out.push(self.query.ids[i].clone());
            proof {
                assert(texts(out@) =~= before.push(self.query.ids@[i as int]@));
                assert(texts(self.query.ids@).subrange(self.fetched as int, i + 1) =~= before.push(
                    self.query.ids@[i as int]@,
                ));
            }
            i = i + 1;
        }
        proof {
            let all = texts(self.query.ids@);
            assert(all.skip(self.fetched as int) =~= all.subrange(
                self.fetched as int,
                all.len() as int,
            ));
        }
        Some(out)
    }

    /// Take the answer to a get for `ids`, the ids that were asked for last. The records join the
    /// page in the order of the query; an answer from another state of the storage is refused.
    pub fn got(&mut self, ids: &Vec<String>, reply: GetReply) -> (r: Result<()>)
        requires
            old(self).wf(),
            old(self).fetched + ids@.len() <= old(self).query.ids@.len(),
        ensures
            ({
                let keys = ids_of(reply.list@);
                if reply.state is None {
                    fails(r, "Missing FileNode state."@)
                } else if old(self).state is Some && old(self).state->0@ != reply.state->0@ {
                    fails(r, "Storage changed while loading. Refresh to try again."@)
                } else if unexpected(texts(ids@), keys) {
                    fails(r, "JMAP returned an unexpected or duplicate record."@)
                } else {
                    &&& r is Ok
                    &&& final(self).nodes@ == old(self).nodes@ + pick(
                        reply.list@,
                        in_order(texts(ids@), keys),
                    )
                    &&& opt(final(self).state) == opt(reply.state)
                    &&& final(self).fetched == old(self).fetched + ids@.len()
                }
            }),
            final(self).position == old(self).position,
            final(self).query == old(self).query,
            r is Err ==> *final(self) == *old(self),
            final(self).wf(),
    {
        let current = match reply.state {
            Some(s) => s,
            None => {
                return Err(other("Missing FileNode state."));
            },
        };
        match &self.state {
            Some(s) => {
                if !same(s.as_str(), current.as_str()) {
                    return Err(other("Storage changed while loading. Refresh to try again."));
                }
            },
            None => {},
        }
        let key = node_id;
        let ghost records = reply.list@;
        let mut ordered = match ordered_records(ids.as_slice(), reply.list, key) {
            Ok(v) => {
                proof {
                    let keys = choose|keys: Seq<Seq<char>>| #[trigger]
                        keys_of(key, records, keys) && !unexpected(texts(ids@), keys) && v@ == pick(
                            records,
                            in_order(texts(ids@), keys),
                        );
                    assert forall|i: int| 0 <= i < keys.len() implies keys[i] == ids_of(
                        records,
                    )[i] by {
                        assert(crate::files::transport::keyed(key, records[i], keys[i]));
                    }
                    assert(keys =~= ids_of(records));
                }
                v
            },
            Err(e) => {
                proof {
                    let keys = choose|keys: Seq<Seq<char>>| #[trigger]
                        keys_of(key, records, keys) && unexpected(texts(ids@), keys);
                    assert forall|i: int| 0 <= i < keys.len() implies keys[i] == ids_of(
                        records,
                    )[i] by {
                        assert(crate::files::transport::keyed(key, records[i], keys[i]));
                    }
                    assert(keys =~= ids_of(records));
                }
                return Err(e);
            },
        };
        self.nodes.append(&mut ordered);
        self.state = Some(current);
        self.fetched = self.fetched + ids.len();
        Ok(())
    }
}

/// What is known of a node on the way to the root.
pub struct Known {
    pub id: String,
    pub rights: Rights,
    pub parent: Option<String>,
}

/// The model of [`Known`].
pub struct Ancestor {
    pub id: Seq<char>,
    pub rights: Rights,
    pub parent: Option<Seq<char>>,
}

impl View for Known {
    type V = Ancestor;

    open spec fn view(&self) -> Ancestor {
        Ancestor { id: self.id@, rights: self.rights, parent: opt(self.parent) }
    }
}

/// The models of a list of known nodes.
pub open spec fn ancestors(v: Seq<Known>) -> Seq<Ancestor> {
    v.map_values(|k: Known| k@)
}

/// What is known of an id: the last entry for it.
pub open spec fn lookup(known: Seq<Ancestor>, id: Seq<char>) -> Option<Ancestor>
    decreases known.len(),
{
    if known.len() == 0 {
        None
    } else if known.last().id == id {
        Some(known.last())
    } else {
        lookup(known.drop_last(), id)
    }
}

/// How far a walk towards the root got.
pub enum Climb {
    /// It reached the end; these are the rights it gathered.
    Rights(Rights),
    /// It needs to know of this node.
    Need(String),
    /// The parents go round in a circle, or on for more than 64 levels.
    Invalid,
}

/// The model of [`Climb`].
pub enum Climbed {
    Rights(Rights),
    Need(Seq<char>),
    Invalid,
}

impl View for Climb {
    type V = Climbed;

    open spec fn view(&self) -> Climbed {
        match self {
            Climb::Rights(r) => Climbed::Rights(*r),
            Climb::Need(id) => Climbed::Need(id@),
            Climb::Invalid => Climbed::Invalid,
        }
    }
}

/// The deepest hierarchy that is walked.
pub const MAX_DEPTH: usize = 64;

/// The walk from `next` towards the root, with the rights gathered and the ids passed so far. It
/// ends at a node without a parent, and at the node that the server does not show.
pub open spec fn climb_from(
    known: Seq<Ancestor>,
    hidden: Option<Seq<char>>,
    rights: Rights,
    next: Option<Seq<char>>,
    seen: Seq<Seq<char>>,
) -> Climbed
    decreases MAX_DEPTH - seen.len(),
{
    match next {
        None => Climbed::Rights(rights),
        Some(id) => if seen.len() >= MAX_DEPTH || seen.contains(id) {
            Climbed::Invalid
        } else if hidden == Some(id) {
            Climbed::Rights(rights)
        } else {
            match lookup(known, id) {
                None => Climbed::Need(id),
                Some(a) => climb_from(
                    known,
                    hidden,
                    rights.union(a.rights),
                    a.parent,
                    seen.push(id),
                ),
            }
        },
    }
}

fn find_known(known: &Vec<Known>, id: &str) -> (r: Option<usize>)
    ensures
        match r {
            Some(i) => i < known@.len() && lookup(ancestors(known@), id@) == Some(
                known@[i as int]@,
            ),
            None => lookup(ancestors(known@), id@) is None,
        },
{
    let ghost all = ancestors(known@);
    let mut i: usize = known.len();
    proof {
        assert(all.take(all.len() as int) == all);
    }
    while i > 0
        invariant
            i <= known@.len(),
            all == ancestors(known@),
            lookup(all, id@) == lookup(all.take(i as int), id@),
        decreases i,
    {
        proof {
            assert(all.take(i as int).last() == known@[i - 1]@);
            assert(all.take(i as int).drop_last() == all.take(i - 1));
        }
        if same(known[i - 1].id.as_str(), id) {
            return Some(i - 1);
        }
        i = i - 1;
    }
    None
}

/// Walk from a node towards the root through what is known.
pub fn climb(
    known: &Vec<Known>,
    hidden: Option<&str>,
    own_rights: Rights,
    start: Option<&str>,
) -> (r: Climb)
    ensures
        r@ == climb_from(
            ancestors(known@),
            opt_str(hidden),
            own_rights,
            opt_str(start),
            Seq::empty(),
        ),
{
    let mut seen: Vec<String> = Vec::new();
    let mut rights = own_rights;
    let mut next: Option<String> = match start {
        Some(id) => Some(lit(id)),
        None => None,
    };
    let ghost whole = climb_from(
        ancestors(known@),
        opt_str(hidden),
        rights,
        opt_str(start),
        Seq::empty(),
    );
    proof {
        assert(texts(seen@) =~= Seq::<Seq<char>>::empty());
    }
    loop
        invariant
            seen@.len() <= MAX_DEPTH,
            whole == climb_from(
                ancestors(known@),
                opt_str(hidden),
                own_rights,
                opt_str(start),
                Seq::empty(),
            ),
            whole == climb_from(
                ancestors(known@),
                opt_str(hidden),
                rights,
                opt(next),
                texts(seen@),
            ),
        decreases MAX_DEPTH - seen@.len(),
    {
        let id = match next {
            Some(id) => id,
            None => {
                return Climb::Rights(rights);
            },
        };
        if seen.len() >= MAX_DEPTH || has_member(seen.as_slice(), id.as_str()) {
            return Climb::Invalid;
        }
        let stop = match hidden {
            Some(h) => same(h, id.as_str()),
            None => false,
        };
        if stop {
            return Climb::Rights(rights);
        }
        match find_known(known, id.as_str()) {
            None => {
                return Climb::Need(id);
            },
            Some(i) => {
                let ghost passed = texts(seen@);
                rights.inherit(&known[i].rights);
                next = known[i].parent.clone();
                seen.push(id);
                proof {
                    assert(texts(seen@) =~= passed.push(id@));
                }
            },
        }
    }
}

/// A walk towards the root only ever adds rights, and adds none that no known node grants.
pub proof fn climbing_only_adds(
    known: Seq<Ancestor>,
    hidden: Option<Seq<char>>,
    rights: Rights,
    next: Option<Seq<char>>,
    seen: Seq<Seq<char>>,
    bound: Rights,
)
    requires
        rights.within(bound),
        forall|i: int| 0 <= i < known.len() ==> (#[trigger] known[i]).rights.within(bound),
    ensures
        climb_from(known, hidden, rights, next, seen) matches Climbed::Rights(r) ==> rights.within(
            r,
        ) && r.within(bound),
    decreases MAX_DEPTH - seen.len(),
{
    match next {
        None => {},
        Some(id) => {
            if !(seen.len() >= MAX_DEPTH || seen.contains(id)) && hidden != Some(id) {
                match lookup(known, id) {
                    None => {},
                    Some(a) => {
                        lookup_is_known(known, id);
                        crate::files::inheritance_is_additive(rights, a.rights, bound);
                        climbing_only_adds(
                            known,
                            hidden,
                            rights.union(a.rights),
                            a.parent,
                            seen.push(id),
                            bound,
                        );
                    },
                }
            }
        },
    }
}

proof fn lookup_is_known(known: Seq<Ancestor>, id: Seq<char>)
    requires
        lookup(known, id) is Some,
    ensures
        exists|i: int| 0 <= i < known.len() && #[trigger] known[i] == lookup(known, id)->0,
    decreases known.len(),
{
    if known.last().id == id {
        assert(known[known.len() - 1] == lookup(known, id)->0);
    } else {
        lookup_is_known(known.drop_last(), id);
        let i = choose|i: int|
            0 <= i < known.drop_last().len() && #[trigger] known.drop_last()[i] == lookup(
                known,
                id,
            )->0;
        assert(known[i] == lookup(known, id)->0);
    }
}

/// What the nodes of a page say of themselves, before they inherit anything.
pub open spec fn own(list: Seq<Node>) -> Seq<Ancestor> {
    list.map_values(|n: Node| Ancestor { id: n.id, rights: n.my_rights, parent: n.parent_id })
}

impl Listing {
    /// What the nodes of the page say of themselves.
    pub fn known(&self) -> (r: Vec<Known>)
        ensures
            ancestors(r@) == own(nodes(self.nodes@)),
    {
        let mut out: Vec<Known> = Vec::new();
        let mut i: usize = 0;
        while i < self.nodes.len()
            invariant
                i <= self.nodes@.len(),
                out@.len() == i,
                forall|k: int|
                    0 <= k < i ==> (#[trigger] out@[k])@ == own(nodes(self.nodes@))[k],
            decreases self.nodes.len() - i,
        {
            let n = &self.nodes[i];
            out.push(
                Known { id: n.id.clone(), rights: n.my_rights, parent: n.parent_id.clone() },
            );
            i = i + 1;
        }
        proof {
            assert(ancestors(out@) =~= own(nodes(self.nodes@)));
        }
        out
    }

    /// Let a node of the page inherit the rights of its ancestors. `Some` id asks for a node that
    /// is not known yet; the walk is then made again.
    pub fn inherit(&mut self, index: usize, known: &Vec<Known>, hidden: Option<&str>) -> (r: Result<
        Option<String>,
    >)
        requires
            index < old(self).nodes@.len(),
        ensures
            ({
                let node = old(self).nodes@[index as int]@;
                match climb_from(
                    ancestors(known@),
                    opt_str(hidden),
                    node.my_rights,
                    node.parent_id,
                    Seq::empty(),
                ) {
                    Climbed::Invalid => fails(r, "Invalid FileNode ancestor hierarchy."@)
                        && *final(self) == *old(self),
                    Climbed::Need(id) => r is Ok && opt(r->Ok_0) == Some(id) && *final(self)
                        == *old(self),
                    Climbed::Rights(rights) => {
                        &&& r matches Ok(None)
                        &&& nodes(final(self).nodes@) == nodes(old(self).nodes@).update(
                            index as int,
                            Node { my_rights: rights, ..node },
                        )
                        &&& *final(self) == (Listing { nodes: final(self).nodes, ..*old(self) })
                    },
                }
            }),
    {
        let start = match &self.nodes[index].parent_id {
            Some(id) => Some(id.as_str()),
            None => None,
        };
        match climb(known, hidden, self.nodes[index].my_rights, start) {
            Climb::Invalid => Err(other("Invalid FileNode ancestor hierarchy.")),
            Climb::Need(id) => Ok(Some(id)),
            Climb::Rights(rights) => {
                let ghost before = self.nodes@;
                self.nodes[index].my_rights = rights;
                proof {
                    assert(nodes(self.nodes@) =~= nodes(before).update(
                        index as int,
                        Node { my_rights: rights, ..before[index as int]@ },
                    ));
                }
                Ok(None)
            },
        }
    }

    /// Whether an answer about an ancestor comes from the state of the storage that the page shows.
    pub fn check_ancestor(&self, state: Option<&str>) -> (r: Result<()>)
        ensures
            r is Ok <==> opt_str(state) == opt(self.state),
            r matches Err(e) ==> says(
                e,
                "Storage changed while resolving permissions. Refresh."@,
            ),
    {
        let current = match (&self.state, state) {
            (Some(a), Some(b)) => same(a.as_str(), b),
            (None, None) => true,
            _ => false,
        };
        if current {
            Ok(())
        } else {
            Err(other("Storage changed while resolving permissions. Refresh."))
        }
    }

    /// The page, and the state of the storage that it shows.
    pub fn finish(self, client: &mut FileClient) -> (r: FilePage)
        requires
            self.wf(),
            self.complete(),
            self.position + PAGE_SIZE <= usize::MAX,
        ensures
            r.nodes == self.nodes,
            r.state@ == self.state->0@,
            r.query_state == self.query.query_state,
            r.next_position == next_page(
                self.position,
                self.query.ids@.len(),
                self.query.total,
            ),
            opt(final(client).state) == opt(self.state),
            *final(client) == (FileClient { state: final(client).state, ..*old(client) }),
    {
        let state = match &self.state {
            Some(s) => s.clone(),
            None => String::new(),
        };
        let count: usize = self.query.ids.len();
        let next: usize = self.position + count;
        let more = match self.query.total {
            Some(n) => (next as u64) < n,
            None => count == PAGE_SIZE,
        };
        client.state = Some(state.clone());
        FilePage {
            nodes: self.nodes,
            state,
            query_state: self.query.query_state,
            next_position: if count > 0 && more {
                Some(next)
            } else {
                None
            },
        }
    }
}

/// Where the next page begins: behind this one, where this one held anything and the total says
/// that more is there, or, without a total, where this one was full.
pub open spec fn next_page(position: usize, count: nat, total: Option<u64>) -> Option<usize> {
    let next = position + count;
    if count > 0 && match total {
        Some(n) => next < n,
        None => count == PAGE_SIZE,
    } {
        Some(next as usize)
    } else {
        None
    }
}

/// Following the pages always gets on: a next page begins behind the one before it, and within
/// the total where the server states one.
pub proof fn pages_get_on(position: usize, count: nat, total: Option<u64>)
    requires
        count <= PAGE_SIZE,
        position + PAGE_SIZE <= usize::MAX,
    ensures
        next_page(position, count, total) matches Some(next) ==> next > position && next
            == position + count && (total is Some ==> next < total->0),
{
}

impl FileClient {
    /// The rights of a node, gathered from it and its ancestors. `Some` id asks for a node that is
    /// not known yet; a node that the server does not show ends the walk, unless it is the node
    /// itself.
    pub fn rights(&self, id: &str, known: &Vec<Known>, hidden: Option<&str>) -> (r: Result<Climb>)
        ensures
            ({
                let walk = climb_from(
                    ancestors(known@),
                    opt_str(hidden),
                    Rights::none(),
                    Some(id@),
                    Seq::empty(),
                );
                if opt_str(hidden) == Some(id@) {
                    fails(r, "File no longer exists."@)
                } else if walk is Invalid {
                    fails(r, "Invalid file hierarchy."@)
                } else {
                    r is Ok && r->Ok_0@ == walk
                }
            }),
    {
        let gone = match hidden {
            Some(h) => same(h, id),
            None => false,
        };
        if gone {
            return Err(other("File no longer exists."));
        }
        match climb(known, hidden, Rights::default(), Some(id)) {
            Climb::Invalid => Err(other("Invalid file hierarchy.")),
            other => Ok(other),
        }
    }

    /// Whether an answer about a node comes from the state of the storage that is shown.
    pub fn check_state(&self, state: Option<&str>) -> (r: Result<()>)
        ensures
            r is Ok <==> opt_str(state) == opt(self.state),
            r matches Err(e) ==> says(e, "Storage changed. Refresh before editing files."@),
    {
        let current = match (&self.state, state) {
            (Some(a), Some(b)) => same(a.as_str(), b),
            (None, None) => true,
            _ => false,
        };
        if current {
            Ok(())
        } else {
            Err(other("Storage changed. Refresh before editing files."))
        }
    }
}

} // verus!
