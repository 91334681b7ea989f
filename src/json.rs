use vstd::prelude::*;

use crate::text::{nonempty_pieces, split_nonempty, views};

verus! {

/// A dynamically typed JSON tree. Numbers keep the decimal text they
/// arrived with; object entries keep their order.
#[derive(Debug)]
pub enum JsonValue {
    Null,
    Bool(bool),
    Number(String),
    String(String),
    Array(Vec<JsonValue>),
    Object(Vec<Member>),
}

/// One entry of a JSON object.
#[derive(Debug)]
pub struct Member {
    pub key: String,
    pub value: JsonValue,
}

/// The mathematical value of a [`JsonValue`].
pub enum Json {
    Null,
    Bool(bool),
    Number(Seq<char>),
    String(Seq<char>),
    Array(Seq<Json>),
    Object(Seq<Entry>),
}

/// One entry of an object, as a mathematical value.
pub struct Entry {
    pub key: Seq<char>,
    pub value: Json,
}

impl View for JsonValue {
    type V = Json;

    open spec fn view(&self) -> Json
        decreases self,
    {
        match self {
            JsonValue::Null => Json::Null,
            JsonValue::Bool(b) => Json::Bool(*b),
            JsonValue::Number(n) => Json::Number(n@),
            JsonValue::String(s) => Json::String(s@),
            JsonValue::Array(items) => Json::Array(
                Seq::new(
                    items.len() as nat,
                    |i: int|
                        if 0 <= i < items.len() {
                            items[i]@
                        } else {
                            Json::Null
                        },
                ),
            ),
            JsonValue::Object(entries) => Json::Object(
                Seq::new(
                    entries.len() as nat,
                    |i: int|
                        if 0 <= i < entries.len() {
                            Entry { key: entries[i].key@, value: entries[i].value@ }
                        } else {
                            Entry { key: Seq::empty(), value: Json::Null }
                        },
                ),
            ),
        }
    }
}

/// The name of a value's type, as messages about a mismatch show it.
pub open spec fn kind_name_of(v: Json) -> Seq<char> {
    match v {
        Json::Null => "Null"@,
        Json::Bool(_) => "Bool"@,
        Json::Number(_) => "Number"@,
        Json::String(_) => "String"@,
        Json::Array(_) => "Array"@,
        Json::Object(_) => "Object"@,
    }
}

impl JsonValue {
    /// The name of this value's type.
    pub fn kind_name(&self) -> (r: &'static str)
        ensures
            r@ == kind_name_of(self@),
    {
        match self {
            JsonValue::Null => "Null",
            JsonValue::Bool(_) => "Bool",
            JsonValue::Number(_) => "Number",
            JsonValue::String(_) => "String",
            JsonValue::Array(_) => "Array",
            JsonValue::Object(_) => "Object",
        }
    }

    /// Whether the value is a boolean, a number or a string: short enough to
    /// quote next to a message about it.
    pub fn is_scalar(&self) -> (r: bool)
        ensures
            r == (self@ is Bool || self@ is Number || self@ is String),
    {
        match self {
            JsonValue::Bool(_) | JsonValue::Number(_) | JsonValue::String(_) => true,
            _ => false,
        }
    }

    /// A deep copy.
    pub fn duplicate(&self) -> (r: JsonValue)
        ensures
            r@ == self@,
        decreases self,
    {
        match self {
            JsonValue::Null => JsonValue::Null,
            JsonValue::Bool(b) => JsonValue::Bool(*b),
            JsonValue::Number(n) => JsonValue::Number(n.clone()),
            JsonValue::String(s) => JsonValue::String(s.clone()),
            JsonValue::Array(items) => {
                let mut out: Vec<JsonValue> = Vec::new();
                for i in 0..items.len()
                    invariant
                        *self == JsonValue::Array(*items),
                        out.len() == i,
                        forall|j: int| 0 <= j < i ==> (#[trigger] out[j])@ == items[j]@,
                {
                    proof {
                        assert(decreases_to!(*self => self->Array_0));
                    }
                    out.push(items[i].duplicate());
                }
                let r = JsonValue::Array(out);
                proof {
                    assert(r@->Array_0 =~= self@->Array_0);
                }
                r
            },
            JsonValue::Object(entries) => {
                let mut out: Vec<Member> = Vec::new();
                for i in 0..entries.len()
                    invariant
                        *self == JsonValue::Object(*entries),
                        out.len() == i,
                        forall|j: int|
                            0 <= j < i ==> (#[trigger] out[j]).key@ == entries[j].key@
                                && out[j].value@ == entries[j].value@,
                {
                    proof {
                        assert(decreases_to!(*self => self->Object_0));
                    }
                    out.push(Member { key: entries[i].key.clone(), value: entries[i].value.duplicate() });
                }
                let r = JsonValue::Object(out);
                proof {
                    assert(r@->Object_0 =~= self@->Object_0);
                }
                r
            },
        }
    }
}

/// Why a dotted path could not be followed.
pub enum PathFault {
    /// A node on the way is not an object.
    NotAnObject,
    /// An object on the way has no entry under this segment.
    Missing(Seq<char>),
}

/// The segments of a dotted path: the non-empty pieces between dots.
pub open spec fn path_segments(path: Seq<char>) -> Seq<Seq<char>> {
    nonempty_pieces(path, '.')
}

/// `i` is the first position of `entries` whose key is `k`.
pub open spec fn is_first_key(entries: Seq<Entry>, k: Seq<char>, i: int) -> bool {
    &&& 0 <= i < entries.len()
    &&& entries[i].key == k
    &&& forall|j: int| 0 <= j < i ==> entries[j].key != k
}

/// The position of the entry that a lookup of `k` finds: the first one with that key.
pub open spec fn key_position(entries: Seq<Entry>, k: Seq<char>) -> Option<int> {
    if exists|i: int| 0 <= i < entries.len() && entries[i].key == k {
        Some(choose|i: int| is_first_key(entries, k, i))
    } else {
        None
    }
}

/// Follows `segs` down from `v`.
pub open spec fn walk(v: Json, segs: Seq<Seq<char>>) -> Result<Json, PathFault>
    decreases segs.len(),
{
    if segs.len() == 0 {
        Ok(v)
    } else {
        match v {
            Json::Object(entries) => match key_position(entries, segs[0]) {
                Some(i) => walk(entries[i].value, segs.drop_first()),
                None => Err(PathFault::Missing(segs[0])),
            },
            _ => Err(PathFault::NotAnObject),
        }
    }
}

/// The value found at `segs` below `v`, if the path can be followed.
pub open spec fn json_get(v: Json, segs: Seq<Seq<char>>) -> Option<Json> {
    match walk(v, segs) {
        Ok(x) => Some(x),
        Err(_) => None,
    }
}

/// `v` with the value at `segs` replaced by `new`; the path must already exist.
pub open spec fn json_set(v: Json, segs: Seq<Seq<char>>, new: Json) -> Result<Json, PathFault>
    decreases segs.len(),
{
    if segs.len() == 0 {
        Ok(new)
    } else {
        match v {
            Json::Object(entries) => match key_position(entries, segs[0]) {
                Some(i) => match json_set(entries[i].value, segs.drop_first(), new) {
                    Ok(child) => Ok(
                        Json::Object(entries.update(i, Entry { key: entries[i].key, value: child })),
                    ),
                    Err(f) => Err(f),
                },
                None => Err(PathFault::Missing(segs[0])),
            },
            _ => Err(PathFault::NotAnObject),
        }
    }
}

/// The entries of an object, as mathematical values.
pub open spec fn members_view(m: Seq<Member>) -> Seq<Entry> {
    Seq::new(m.len(), |i: int| Entry { key: m[i].key@, value: m[i].value@ })
}

pub(crate) proof fn lemma_object_view(m: Vec<Member>)
    ensures
        JsonValue::Object(m)@ == Json::Object(members_view(m@)),
{
    assert(JsonValue::Object(m)@->Object_0 =~= members_view(m@));
}

proof fn lemma_first_key_unique(entries: Seq<Entry>, k: Seq<char>, i: int)
    requires
        is_first_key(entries, k, i),
    ensures
        key_position(entries, k) == Some(i),
{
    let c = choose|c: int| is_first_key(entries, k, c);
    assert(is_first_key(entries, k, c));
    if c < i {
        assert(entries[c].key != k);
    } else if c > i {
        assert(entries[i].key != k);
    }
}

proof fn lemma_first_key_exists(entries: Seq<Entry>, k: Seq<char>, i: int)
    requires
        0 <= i < entries.len(),
        entries[i].key == k,
    ensures
        key_position(entries, k) is Some,
        is_first_key(entries, k, key_position(entries, k)->0),
    decreases i,
{
    if exists|j: int| 0 <= j < i && entries[j].key == k {
        let j = choose|j: int| 0 <= j < i && entries[j].key == k;
        lemma_first_key_exists(entries, k, j);
    } else {
        lemma_first_key_unique(entries, k, i);
    }
}

pub(crate) proof fn lemma_key_position(entries: Seq<Entry>, k: Seq<char>)
    ensures
        match key_position(entries, k) {
            Some(i) => is_first_key(entries, k, i),
            None => forall|j: int| 0 <= j < entries.len() ==> entries[j].key != k,
        },
{
    if exists|i: int| 0 <= i < entries.len() && entries[i].key == k {
        let i = choose|i: int| 0 <= i < entries.len() && entries[i].key == k;
        lemma_first_key_exists(entries, k, i);
    }
}

/// Why `set_json_path` refused a path.
#[derive(Debug)]
pub enum PathError {
    /// The path leads through a node that is not an object.
    NotAnObject { path: String },
    /// An object on the path has no entry under `segment`.
    Missing { segment: String },
}

impl PathError {
    /// The fault this error reports.
    pub open spec fn fault(&self) -> PathFault {
        match self {
            PathError::NotAnObject { .. } => PathFault::NotAnObject,
            PathError::Missing { segment } => PathFault::Missing(segment@),
        }
    }

    /// The path carried by a `NotAnObject` error is the one that was asked for.
    pub open spec fn path_is(&self, path: Seq<char>) -> bool {
        self matches PathError::NotAnObject { path: p } ==> p@ == path
    }
}

/// Finds the first member of `entries` whose key is `key`.
pub(crate) fn find_member(entries: &Vec<Member>, key: &String) -> (r: Option<usize>)
    ensures
        match r {
            Some(i) => i < entries.len() && key_position(members_view(entries@), key@) == Some(
                i as int,
            ),
            None => key_position(members_view(entries@), key@) is None,
        },
{
    let ghost es = members_view(entries@);
    for i in 0..entries.len()
        invariant
            es == members_view(entries@),
            forall|j: int| 0 <= j < i ==> es[j].key != key@,
    {
        if entries[i].key == *key {
            proof {
                lemma_first_key_unique(es, key@, i as int);
            }
            return Some(i);
        }
    }
    proof {
        lemma_key_position(es, key@);
    }
    None
}

/// Follows `segs` from `value`, by reference.
fn walk_segments<'t>(value: &'t JsonValue, path: &str, segs: &Vec<String>) -> (r: Result<
    &'t JsonValue,
    PathError,
>)
    ensures
        match walk(value@, views(segs@)) {
            Ok(x) => r matches Ok(y) && y@ == x,
            Err(f) => r matches Err(e) && e.fault() == f && e.path_is(path@),
        },
{
    let ghost all = views(segs@);
    let mut cur = value;
    proof {
        assert(all.skip(0) =~= all);
    }
    for i in 0..segs.len()
        invariant
            all == views(segs@),
            walk(value@, all) == walk(cur@, all.skip(i as int)),
    {
        proof {
            assert(all.skip(i as int).drop_first() =~= all.skip(i + 1));
            assert(all.skip(i as int)[0] == segs@[i as int]@);
        }
        match cur {
            JsonValue::Object(entries) => {
                proof {
                    lemma_object_view(*entries);
                }
                match find_member(entries, &segs[i]) {
                    Some(k) => {
                        proof {
                            assert(members_view(entries@)[k as int].value == entries[k as int].value@);
                        }
                        cur = &entries[k].value;
                    },
                    None => {
                        return Err(PathError::Missing { segment: segs[i].clone() });
                    },
                }
            },
            _ => {
                return Err(PathError::NotAnObject { path: path.to_owned() });
            },
        }
    }
    proof {
        assert(all.skip(segs.len() as int) =~= Seq::<Seq<char>>::empty());
    }
    Ok(cur)
}

/// Replaces the value at `segs[i..]` below `v`, where that path is known to exist.
fn replace_at(v: &mut JsonValue, segs: &Vec<String>, i: usize, value: JsonValue)
    requires
        i <= segs.len(),
        walk(old(v)@, views(segs@).skip(i as int)) is Ok,
    ensures
        json_set(old(v)@, views(segs@).skip(i as int), value@) == Ok::<Json, PathFault>(final(v)@),
    decreases segs.len() - i,
{
    let ghost rest = views(segs@).skip(i as int);
    if i == segs.len() {
        proof {
            assert(rest.len() == 0);
        }
        *v = value;
        return;
    }
    proof {
        assert(rest.drop_first() =~= views(segs@).skip(i + 1));
        assert(rest[0] == segs@[i as int]@);
    }
    match v {
        JsonValue::Object(entries) => {
            proof {
                lemma_object_view(*entries);
            }
            let ghost before = *entries;
            match find_member(entries, &segs[i]) {
                Some(k) => {
                    let mut m = entries.remove(k);
                    proof {
                        assert(members_view(before@)[k as int].value == m.value@);
                    }
                    replace_at(&mut m.value, segs, i + 1, value);
                    entries.insert(k, m);
                    proof {
                        lemma_object_view(*entries);
                        assert(members_view(entries@) =~= members_view(before@).update(
                            k as int,
                            Entry { key: members_view(before@)[k as int].key, value: m.value@ },
                        ));
                    }
                },
                None => {},
            }
        },
        _ => {},
    }
}

/// The value at the dotted `path` below `value`. Empty segments are skipped,
/// so an empty path names `value` itself. Absent when a node on the way is
/// not an object or lacks the segment.
pub fn get_json_path<'t>(value: &'t JsonValue, path: &str) -> (r: Option<&'t JsonValue>)
    ensures
        match json_get(value@, path_segments(path@)) {
            Some(x) => r matches Some(y) && y@ == x,
            None => r is None,
        },
{
    let segs = split_nonempty(path, '.');
    match walk_segments(value, path, &segs) {
        Ok(found) => Some(found),
        Err(_) => None,
    }
}

impl JsonValue {
    /// The entry `key` of this object, taken whole even when it holds dots.
    pub fn member(&self, key: &str) -> (r: Option<&JsonValue>)
        ensures
            match json_get(self@, seq![key@]) {
                Some(x) => r matches Some(y) && y@ == x,
                None => r is None,
            },
    {
        let ghost segs = seq![key@];
        proof {
            assert(segs.drop_first() =~= Seq::<Seq<char>>::empty());
        }
        match self {
            JsonValue::Object(entries) => {
                proof {
                    lemma_object_view(*entries);
                }
                let k = String::from_str(key);
                match find_member(entries, &k) {
                    Some(i) => {
                        proof {
                            let child = members_view(entries@)[i as int].value;
                            assert(child == entries[i as int].value@);
                            assert(walk(child, segs.drop_first()) == Ok::<Json, PathFault>(child));
                        }
                        Some(&entries[i].value)
                    },
                    None => None,
                }
            },
            _ => None,
        }
    }
}

/// Replaces the value at the dotted `path` below `object` with `value`.
/// Every segment must already exist, each under an object; otherwise the
/// error says which, and `object` is left as it was.
pub fn set_json_path(object: &mut JsonValue, path: &str, value: JsonValue) -> (r: Result<(), PathError>)
    ensures
        match json_set(old(object)@, path_segments(path@), value@) {
            Ok(n) => r is Ok && final(object)@ == n,
            Err(f) => r matches Err(e) && e.fault() == f && e.path_is(path@) && *final(object)
                == *old(object),
        },
{
    let segs = split_nonempty(path, '.');
    proof {
        lemma_set_follows_walk(object@, views(segs@), value@);
    }
    match walk_segments(object, path, &segs) {
        Ok(_) => {},
        Err(e) => {
            return Err(e);
        },
    }
    proof {
        assert(views(segs@).skip(0) =~= views(segs@));
    }
    replace_at(object, &segs, 0, value);
    Ok(())
}

/// Setting succeeds exactly where the path can be followed, and fails for the same reason.
pub proof fn lemma_set_follows_walk(v: Json, segs: Seq<Seq<char>>, new: Json)
    ensures
        match walk(v, segs) {
            Ok(_) => json_set(v, segs, new) is Ok,
            Err(f) => json_set(v, segs, new) == Err::<Json, PathFault>(f),
        },
    decreases segs.len(),
{
    if segs.len() > 0 {
        if let Json::Object(entries) = v {
            if let Some(i) = key_position(entries, segs[0]) {
                lemma_set_follows_walk(entries[i].value, segs.drop_first(), new);
            }
        }
    }
}

proof fn lemma_same_keys_same_position(a: Seq<Entry>, b: Seq<Entry>, k: Seq<char>)
    requires
        a.len() == b.len(),
        forall|j: int| 0 <= j < a.len() ==> a[j].key == b[j].key,
    ensures
        key_position(a, k) == key_position(b, k),
{
    lemma_key_position(a, k);
    lemma_key_position(b, k);
    if let Some(i) = key_position(a, k) {
        lemma_first_key_unique(b, k, i);
    } else if let Some(i) = key_position(b, k) {
        lemma_first_key_unique(a, k, i);
    }
}

/// Reading a path right after setting it gives back the value that was set.
pub proof fn lemma_get_after_set(v: Json, path: Seq<char>, new: Json)
    requires
        json_set(v, path_segments(path), new) is Ok,
    ensures
        json_get(json_set(v, path_segments(path), new)->Ok_0, path_segments(path)) == Some(new),
{
    lemma_get_after_set_segments(v, path_segments(path), new);
}

proof fn lemma_get_after_set_segments(v: Json, segs: Seq<Seq<char>>, new: Json)
    requires
        json_set(v, segs, new) is Ok,
    ensures
        walk(json_set(v, segs, new)->Ok_0, segs) == Ok::<Json, PathFault>(new),
    decreases segs.len(),
{
    if segs.len() > 0 {
        let entries = v->Object_0;
        let i = key_position(entries, segs[0])->0;
        lemma_key_position(entries, segs[0]);
        lemma_get_after_set_segments(entries[i].value, segs.drop_first(), new);
        let child = json_set(entries[i].value, segs.drop_first(), new)->Ok_0;
        let updated = entries.update(i, Entry { key: entries[i].key, value: child });
        lemma_same_keys_same_position(entries, updated, segs[0]);
    }
}

/// Setting a path fails exactly where reading it finds nothing.
pub proof fn lemma_set_fails_where_get_is_absent(v: Json, path: Seq<char>, new: Json)
    ensures
        json_set(v, path_segments(path), new) is Err <==> json_get(v, path_segments(path)) is None,
{
    lemma_set_follows_walk(v, path_segments(path), new);
}

} // verus!
