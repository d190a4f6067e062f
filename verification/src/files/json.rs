//! JSON values, as the storage protocols exchange them.

use crate::text::{lit, same, texts};
use vstd::prelude::*;
use vstd::std_specs::vec::*;
use vstd::string::*;

verus! {

/// A JSON value. An object's fields keep the order in which they were added.
#[derive(Debug)]
pub enum Json {
    Null,
    Bool(bool),
    Unsigned(u64),
    Signed(i64),
    /// A number that no integer of the above holds, in its JSON form.
    Real(String),
    Text(String),
    List(Vec<Json>),
    Object(Vec<(String, Json)>),
}

/// What a JSON value is: the model of [`Json`].
#[verifier::ext_equal]
pub enum Value {
    Null,
    Bool(bool),
    Unsigned(u64),
    Signed(i64),
    Real(Seq<char>),
    Text(Seq<char>),
    List(Seq<Value>),
    Object(Seq<(Seq<char>, Value)>),
}

/// The first field of that name.
pub open spec fn find(fields: Seq<(Seq<char>, Value)>, key: Seq<char>) -> Option<Value>
    decreases fields.len(),
{
    if fields.len() == 0 {
        None
    } else if fields[0].0 == key {
        Some(fields[0].1)
    } else {
        find(fields.skip(1), key)
    }
}

/// Where the first field of that name stands; the number of fields where there is none.
pub open spec fn place(fields: Seq<(Seq<char>, Value)>, key: Seq<char>) -> int
    decreases fields.len(),
{
    if fields.len() == 0 || fields[0].0 == key {
        0
    } else {
        1 + place(fields.skip(1), key)
    }
}

/// The first field of a name is found where it stands.
pub(crate) proof fn place_is(fields: Seq<(Seq<char>, Value)>, key: Seq<char>, k: int)
    requires
        0 <= k <= fields.len(),
        forall|j: int| 0 <= j < k ==> (#[trigger] fields[j]).0 != key,
        k < fields.len() ==> fields[k].0 == key,
    ensures
        place(fields, key) == k,
        find(fields, key) == (if k < fields.len() {
            Some(fields[k].1)
        } else {
            None
        }),
    decreases fields.len(),
{
    if k > 0 {
        assert(forall|j: int| 0 <= j < k - 1 ==> fields.skip(1)[j] == fields[j + 1]);
        place_is(fields.skip(1), key, k - 1);
    }
}

/// A field that was set is the one that is read, and every other field reads as before.
pub proof fn put_is_read_back(v: Value, key: Seq<char>, value: Value, probe: Seq<char>)
    requires
        v is Object,
    ensures
        v.put(key, value).at(key) == value,
        v.put(key, value).has(key),
        probe != key ==> v.put(key, value).at(probe) == v.at(probe),
        probe != key ==> v.put(key, value).has(probe) == v.has(probe),
{
    let fields = v->Object_0;
    let after = v.put(key, value)->Object_0;
    let k = first_place(fields, key);
    place_is(fields, key, k);
    place_is(after, key, k);
    if probe != key {
        let m = first_place(fields, probe);
        place_is(fields, probe, m);
        if m < fields.len() {
            place_is(after, probe, m);
        } else {
            place_is(after, probe, after.len() as int);
        }
    }
}

/// The position that [`place`] gives, with what is known of it.
proof fn first_place(fields: Seq<(Seq<char>, Value)>, key: Seq<char>) -> (k: int)
    ensures
        0 <= k <= fields.len(),
        forall|j: int| 0 <= j < k ==> (#[trigger] fields[j]).0 != key,
        k < fields.len() ==> fields[k].0 == key,
    decreases fields.len(),
{
    if fields.len() == 0 || fields[0].0 == key {
        0
    } else {
        let k = first_place(fields.skip(1), key);
        assert(forall|j: int| 1 <= j < k + 1 ==> fields[j] == fields.skip(1)[j - 1]);
        k + 1
    }
}

impl Value {
    /// An object without fields.
    pub open spec fn empty() -> Value {
        Value::Object(Seq::empty())
    }

    /// A list without items.
    pub open spec fn none() -> Value {
        Value::List(Seq::empty())
    }

    /// The object with one more field.
    pub open spec fn with(self, key: Seq<char>, value: Value) -> Value {
        match self {
            Value::Object(fields) => Value::Object(fields.push((key, value))),
            other => other,
        }
    }

    /// The object with a field set: in its place where the object has it, else behind the others.
    pub open spec fn put(self, key: Seq<char>, value: Value) -> Value {
        match self {
            Value::Object(fields) => if find(fields, key) is Some {
                Value::Object(fields.update(place(fields, key), (key, value)))
            } else {
                Value::Object(fields.push((key, value)))
            },
            other => other,
        }
    }

    /// The list with one more item.
    pub open spec fn and(self, item: Value) -> Value {
        match self {
            Value::List(items) => Value::List(items.push(item)),
            other => other,
        }
    }

    /// A list of texts.
    pub open spec fn text_list(items: Seq<Seq<char>>) -> Value {
        Value::List(items.map_values(|s: Seq<char>| Value::Text(s)))
    }

    /// A text, or null where there is none.
    pub open spec fn opt_text(o: Option<Seq<char>>) -> Value {
        match o {
            Some(s) => Value::Text(s),
            None => Value::Null,
        }
    }

    /// The field of an object by name; `Null` where there is none, and of anything else.
    pub open spec fn at(self, key: Seq<char>) -> Value {
        match self {
            Value::Object(fields) => match find(fields, key) {
                Some(v) => v,
                None => Value::Null,
            },
            _ => Value::Null,
        }
    }

    /// The item of a list by position; `Null` where there is none, and of anything else.
    pub open spec fn item(self, i: int) -> Value {
        match self {
            Value::List(v) => if 0 <= i < v.len() {
                v[i]
            } else {
                Value::Null
            },
            _ => Value::Null,
        }
    }

    /// Whether there is a field of that name.
    pub open spec fn has(self, key: Seq<char>) -> bool {
        self matches Value::Object(fields) && find(fields, key) is Some
    }

    /// The text, where the value is one.
    pub open spec fn text(self) -> Option<Seq<char>> {
        match self {
            Value::Text(s) => Some(s),
            _ => None,
        }
    }

    /// The boolean, where the value is one.
    pub open spec fn bool(self) -> Option<bool> {
        match self {
            Value::Bool(b) => Some(b),
            _ => None,
        }
    }

    /// The number, where the value is an integer that is not negative.
    pub open spec fn unsigned(self) -> Option<u64> {
        match self {
            Value::Unsigned(n) => Some(n),
            Value::Signed(n) => if n >= 0 {
                Some(n as u64)
            } else {
                None
            },
            _ => None,
        }
    }

    /// The number, where the value is an integer that fits.
    pub open spec fn signed(self) -> Option<i64> {
        match self {
            Value::Unsigned(n) => if n <= i64::MAX {
                Some(n as i64)
            } else {
                None
            },
            Value::Signed(n) => Some(n),
            _ => None,
        }
    }

    /// The items, where the value is a list.
    pub open spec fn items(self) -> Option<Seq<Value>> {
        match self {
            Value::List(v) => Some(v),
            _ => None,
        }
    }

    /// The fields, where the value is an object.
    pub open spec fn fields(self) -> Option<Seq<(Seq<char>, Value)>> {
        match self {
            Value::Object(v) => Some(v),
            _ => None,
        }
    }
}

/// The model of a value.
pub open spec fn model(j: Json) -> Value
    decreases j,
{
    match j {
        Json::Null => Value::Null,
        Json::Bool(b) => Value::Bool(b),
        Json::Unsigned(n) => Value::Unsigned(n),
        Json::Signed(n) => Value::Signed(n),
        Json::Real(s) => Value::Real(s@),
        Json::Text(s) => Value::Text(s@),
        Json::List(v) => Value::List(
            Seq::new(
                v@.len(),
                |i: int|
                    if 0 <= i < v@.len() {
                        model(v@[i])
                    } else {
                        Value::Null
                    },
            ),
        ),
        Json::Object(v) => Value::Object(
            Seq::new(
                v@.len(),
                |i: int|
                    if 0 <= i < v@.len() {
                        (v@[i].0@, model(v@[i].1))
                    } else {
                        (Seq::empty(), Value::Null)
                    },
            ),
        ),
    }
}

impl View for Json {
    type V = Value;

    open spec fn view(&self) -> Value {
        model(*self)
    }
}

impl Json {
    /// The same value again.
    pub fn copy(&self) -> (r: Json)
        ensures
            r@ == self@,
        decreases self,
    {
        match self {
            Json::Null => Json::Null,
            Json::Bool(b) => Json::Bool(*b),
            Json::Unsigned(n) => Json::Unsigned(*n),
            Json::Signed(n) => Json::Signed(*n),
            Json::Real(s) => Json::Real(s.clone()),
            Json::Text(s) => Json::Text(s.clone()),
            Json::List(v) => {
                let mut out: Vec<Json> = Vec::new();
                let mut i: usize = 0;
                while i < v.len()
                    invariant
                        *self == Json::List(*v),
                        i <= v.len(),
                        out@.len() == i,
                        forall|k: int| 0 <= k < i ==> model(#[trigger] out@[k]) == model(v@[k]),
                    decreases v.len() - i,
                {
                    proof {
                        assert(decreases_to!(*v => v[i as int]));
                        assert(decreases_to!(*self => self->List_0));
                    }
                    out.push(v[i].copy());
                    i = i + 1;
                }
                let r = Json::List(out);
                proof {
                    assert(model(r)->List_0 =~= model(*self)->List_0);
                }
                r
            },
            Json::Object(v) => {
                let mut out: Vec<(String, Json)> = Vec::new();
                let mut i: usize = 0;
                while i < v.len()
                    invariant
                        *self == Json::Object(*v),
                        i <= v.len(),
                        out@.len() == i,
                        forall|k: int|
                            0 <= k < i ==> (#[trigger] out@[k]).0@ == v@[k].0@ && model(out@[k].1)
                                == model(v@[k].1),
                    decreases v.len() - i,
                {
                    proof {
                        assert(decreases_to!(*v => v[i as int]));
                        assert(decreases_to!(v[i as int] => v[i as int].1));
                        assert(decreases_to!(*self => self->Object_0));
                    }
                    out.push((v[i].0.clone(), v[i].1.copy()));
                    i = i + 1;
                }
                let r = Json::Object(out);
                proof {
                    assert(model(r)->Object_0 =~= model(*self)->Object_0);
                }
                r
            },
        }
    }

    /// A text.
    pub fn text(s: &str) -> (r: Json)
        ensures
            r@ == Value::Text(s@),
    {
        Json::Text(lit(s))
    }

    /// A text, or null where there is none.
    pub fn opt_text(o: &Option<String>) -> (r: Json)
        ensures
            r@ == Value::opt_text(crate::text::opt(*o)),
    {
        match o {
            Some(s) => Json::Text(s.clone()),
            None => Json::Null,
        }
    }

    /// An object without fields.
    pub fn object() -> (r: Json)
        ensures
            r@ == Value::empty(),
    {
        let r = Json::Object(Vec::new());
        proof {
            assert(model(r)->Object_0 =~= Seq::<(Seq<char>, Value)>::empty());
        }
        r
    }

    /// A list without items.
    pub fn list() -> (r: Json)
        ensures
            r@ == Value::none(),
    {
        let r = Json::List(Vec::new());
        proof {
            assert(model(r)->List_0 =~= Seq::<Value>::empty());
        }
        r
    }

    /// The object with one more field; another value as it is.
    pub fn with(self, key: &str, value: Json) -> (r: Json)
        ensures
            r@ == self@.with(key@, value@),
    {
        match self {
            Json::Object(fields) => {
                let mut v = fields;
                let ghost before = v@;
                v.push((lit(key), value));
                let r = Json::Object(v);
                proof {
                    assert(model(r)->Object_0 =~= model(self)->Object_0.push((key@, value@))) by {
                        assert(forall|i: int| 0 <= i < before.len() ==> v@[i] == before[i]);
                    }
                }
                r
            },
            _ => self,
        }
    }

    /// The object with a field set; another value as it is.
    pub fn put(self, key: &str, value: Json) -> (r: Json)
        ensures
            r@ == self@.put(key@, value@),
    {
        match self {
            Json::Object(fields) => {
                let mut v = fields;
                let ghost before = model(self)->Object_0;
                let mut i: usize = 0;
                while i < v.len()
                    invariant
                        v == fields,
                        self == Json::Object(fields),
                        before == model(self)->Object_0,
                        i <= v.len(),
                        forall|j: int| 0 <= j < i ==> (#[trigger] before[j]).0 != key@,
                    decreases v.len() - i,
                {
                    if same(v[i].0.as_str(), key) {
                        let ghost old_v = v@;
                        v.set(i, (lit(key), value));
                        let r = Json::Object(v);
                        proof {
                            place_is(before, key@, i as int);
                            assert(model(r)->Object_0 =~= before.update(
                                i as int,
                                (key@, value@),
                            )) by {
                                assert(forall|k: int|
                                    0 <= k < old_v.len() && k != i ==> v@[k] == old_v[k]);
                            }
                        }
                        return r;
                    }
                    proof {
                        assert(before[i as int].0 == v@[i as int].0@);
                    }
                    i = i + 1;
                }
                let ghost old_v = v@;
                v.push((lit(key), value));
                let r = Json::Object(v);
                proof {
                    place_is(before, key@, before.len() as int);
                    assert(model(r)->Object_0 =~= before.push((key@, value@))) by {
                        assert(forall|k: int| 0 <= k < old_v.len() ==> v@[k] == old_v[k]);
                    }
                }
                r
            },
            _ => self,
        }
    }

    /// The list with one more item; another value as it is.
    pub fn and(self, item: Json) -> (r: Json)
        ensures
            r@ == self@.and(item@),
    {
        match self {
            Json::List(items) => {
                let mut v = items;
                let ghost before = v@;
                v.push(item);
                let r = Json::List(v);
                proof {
                    assert(model(r)->List_0 =~= model(self)->List_0.push(item@)) by {
                        assert(forall|i: int| 0 <= i < before.len() ==> v@[i] == before[i]);
                    }
                }
                r
            },
            _ => self,
        }
    }

    /// A list of texts.
    pub fn text_list(items: &Vec<String>) -> (r: Json)
        ensures
            r@ == Value::text_list(texts(items@)),
    {
        let mut out: Vec<Json> = Vec::new();
        let mut i: usize = 0;
        while i < items.len()
            invariant
                i <= items.len(),
                out@.len() == i,
                forall|k: int| 0 <= k < i ==> model(#[trigger] out@[k]) == Value::Text(items@[k]@),
            decreases items.len() - i,
        {
            out.push(Json::Text(items[i].clone()));
            i = i + 1;
        }
        let r = Json::List(out);
        proof {
            assert(model(r)->List_0 =~= Value::text_list(texts(items@))->List_0);
        }
        r
    }

    /// The field of that name, where the value is an object that has it.
    pub fn get(&self, key: &str) -> (r: Option<&Json>)
        ensures
            match r {
                Some(j) => self@.has(key@) && j@ == self@.at(key@),
                None => !self@.has(key@) && self@.at(key@) == Value::Null,
            },
            r matches Some(j) ==> decreases_to!(*self => *j),
    {
        match self {
            Json::Object(v) => {
                let ghost fields = model(*self)->Object_0;
                let mut i: usize = 0;
                proof {
                    assert(fields.skip(0) == fields);
                }
                while i < v.len()
                    invariant
                        *self == Json::Object(*v),
                        fields == model(*self)->Object_0,
                        i <= v.len(),
                        find(fields.skip(i as int), key@) == find(fields, key@),
                    decreases v.len() - i,
                {
                    proof {
                        assert(fields.skip(i as int)[0] == fields[i as int]);
                        assert(fields.skip(i as int).skip(1) == fields.skip(i + 1));
                        assert(decreases_to!(*v => v[i as int]));
                                            }
                    if same(v[i].0.as_str(), key) {
                        return Some(&v[i].1);
                    }
                    i = i + 1;
                }
                None
            },
            _ => None,
        }
    }

    /// The text, where the value is one.
    pub fn as_text(&self) -> (r: Option<&str>)
        ensures
            crate::text::opt_str(r) == self@.text(),
    {
        match self {
            Json::Text(s) => Some(s.as_str()),
            _ => None,
        }
    }

    /// The boolean, where the value is one.
    pub fn as_bool(&self) -> (r: Option<bool>)
        ensures
            r == self@.bool(),
    {
        match self {
            Json::Bool(b) => Some(*b),
            _ => None,
        }
    }

    /// The number, where the value is an integer that is not negative.
    pub fn as_u64(&self) -> (r: Option<u64>)
        ensures
            r == self@.unsigned(),
    {
        match self {
            Json::Unsigned(n) => Some(*n),
            Json::Signed(n) => if *n >= 0 {
                Some(*n as u64)
            } else {
                None
            },
            _ => None,
        }
    }

    /// The number, where the value is an integer that fits.
    pub fn as_i64(&self) -> (r: Option<i64>)
        ensures
            r == self@.signed(),
    {
        match self {
            Json::Unsigned(n) => if *n <= 0x7fff_ffff_ffff_ffff {
                Some(*n as i64)
            } else {
                None
            },
            Json::Signed(n) => Some(*n),
            _ => None,
        }
    }

    /// The fields, where the value is an object.
    pub fn as_object(&self) -> (r: Option<&Vec<(String, Json)>>)
        ensures
            match r {
                Some(v) => *self == Json::Object(*v) && self@ == Value::Object(field_views(v@))
                    && self@.fields() == Some(field_views(v@)),
                None => self@.fields() is None,
            },
    {
        match self {
            Json::Object(v) => {
                proof {
                    assert(model(*self)->Object_0 =~= field_views(v@));
                }
                Some(v)
            },
            _ => None,
        }
    }

    /// The item of a list by position, where there is one.
    pub fn item(&self, i: usize) -> (r: Option<&Json>)
        ensures
            match r {
                Some(j) => j@ == self@.item(i as int),
                None => self@.item(i as int) == Value::Null,
            },
    {
        match self.as_list() {
            Some(v) => if i < v.len() {
                Some(&v[i])
            } else {
                None
            },
            None => None,
        }
    }

    /// Whether the value is that text.
    pub fn is_text(&self, s: &str) -> (r: bool)
        ensures
            r == (self@ == Value::Text(s@)),
    {
        match self {
            Json::Text(t) => same(t.as_str(), s),
            _ => false,
        }
    }

    /// The items, where the value is a list.
    pub fn as_list(&self) -> (r: Option<&Vec<Json>>)
        ensures
            match r {
                Some(v) => *self == Json::List(*v) && self@ == Value::List(views(v@))
                    && self@.items() == Some(views(v@)),
                None => self@.items() is None,
            },
    {
        match self {
            Json::List(v) => {
                proof {
                    assert(model(*self)->List_0 =~= views(v@));
                }
                Some(v)
            },
            _ => None,
        }
    }

    pub fn is_null(&self) -> (r: bool)
        ensures
            r == (self@ == Value::Null),
    {
        match self {
            Json::Null => true,
            _ => false,
        }
    }

    /// The text of a field, where it is one.
    pub fn text_at(&self, key: &str) -> (r: Option<&str>)
        ensures
            crate::text::opt_str(r) == self@.at(key@).text(),
    {
        match self.get(key) {
            Some(j) => j.as_text(),
            None => None,
        }
    }

    /// The number of a field, where it is an integer that is not negative.
    pub fn u64_at(&self, key: &str) -> (r: Option<u64>)
        ensures
            r == self@.at(key@).unsigned(),
    {
        match self.get(key) {
            Some(j) => j.as_u64(),
            None => None,
        }
    }

    /// The boolean of a field, where it is one.
    pub fn bool_at(&self, key: &str) -> (r: Option<bool>)
        ensures
            r == self@.at(key@).bool(),
    {
        match self.get(key) {
            Some(j) => j.as_bool(),
            None => None,
        }
    }

    /// The items of a field, where it is a list.
    pub fn list_at(&self, key: &str) -> (r: Option<&Vec<Json>>)
        ensures
            match r {
                Some(v) => self@.at(key@).items() == Some(views(v@)),
                None => self@.at(key@).items() is None,
            },
    {
        match self.get(key) {
            Some(j) => j.as_list(),
            None => None,
        }
    }

    /// Whether a field is missing or null.
    pub fn null_at(&self, key: &str) -> (r: bool)
        ensures
            r == (self@.at(key@) == Value::Null),
    {
        match self.get(key) {
            Some(j) => j.is_null(),
            None => true,
        }
    }
}

/// The models of a list of fields.
pub open spec fn field_views(v: Seq<(String, Json)>) -> Seq<(Seq<char>, Value)> {
    v.map_values(|f: (String, Json)| (f.0@, f.1@))
}

/// The models of a list of values.
pub open spec fn views(v: Seq<Json>) -> Seq<Value> {
    v.map_values(|j: Json| j@)
}

impl Clone for Json {
    fn clone(&self) -> (r: Self)
        ensures
            r@ == self@,
    {
        self.copy()
    }
}

} // verus!
