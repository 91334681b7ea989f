use vstd::prelude::*;

use crate::display::DisplayMode;
use crate::id_map::{HasId, IdMap};
use crate::json::{
    find_member, key_position, lemma_key_position, lemma_object_view, members_view, Entry, Json,
    JsonValue, Member,
};
use crate::text::{nonempty_pieces, split_nonempty, views};

verus! {

/// The server address used when none is given.
pub const DEFAULT_HOST: &'static str = "http://localhost:14875";

/// The server to talk to: the one named in the page's query, else the one
/// remembered from last time, else the default address.
pub fn infer_host(from_query: Option<String>, from_storage: Option<String>) -> (r: String)
    ensures
        match (from_query, from_storage) {
            (Some(q), _) => r@ == q@,
            (None, Some(s)) => r@ == s@,
            (None, None) => r@ == DEFAULT_HOST@,
        },
{
    match from_query {
        Some(q) => q,
        None => match from_storage {
            Some(s) => s,
            None => String::from_str(DEFAULT_HOST),
        },
    }
}

/// The locale to load: the first of the user's preferred locales that the
/// server offers, else the first the server offers; none if it offers none.
pub open spec fn chosen_locale(available: Seq<Seq<char>>, preferred: Seq<Seq<char>>) -> Option<Seq<char>>
    decreases preferred.len(),
{
    if preferred.len() == 0 {
        if available.len() > 0 {
            Some(available[0])
        } else {
            None
        }
    } else if available.contains(preferred[0]) {
        Some(preferred[0])
    } else {
        chosen_locale(available, preferred.drop_first())
    }
}

fn offers(available: &Vec<String>, locale: &String) -> (r: bool)
    ensures
        r == views(available@).contains(locale@),
{
    for i in 0..available.len()
        invariant
            forall|j: int| 0 <= j < i ==> available[j]@ != locale@,
    {
        if available[i] == *locale {
            proof {
                assert(views(available@)[i as int] == locale@);
            }
            return true;
        }
    }
    proof {
        if views(available@).contains(locale@) {
            let j = choose|j: int| 0 <= j < available.len() && views(available@)[j] == locale@;
            assert(available[j]@ == locale@);
        }
    }
    false
}

/// The locale to load, as [`chosen_locale`] describes it.
pub fn choose_locale(available: &Vec<String>, preferred: &Vec<String>) -> (r: Option<String>)
    ensures
        match chosen_locale(views(available@), views(preferred@)) {
            Some(l) => r matches Some(x) && x@ == l,
            None => r is None,
        },
{
    let ghost av = views(available@);
    let ghost pr = views(preferred@);
    proof {
        assert(pr.skip(0) =~= pr);
    }
    for i in 0..preferred.len()
        invariant
            av == views(available@),
            pr == views(preferred@),
            chosen_locale(av, pr) == chosen_locale(av, pr.skip(i as int)),
    {
        proof {
            assert(pr.skip(i as int).drop_first() =~= pr.skip(i + 1));
            assert(pr.skip(i as int)[0] == preferred[i as int]@);
        }
        if offers(available, &preferred[i]) {
            return Some(preferred[i].clone());
        }
    }
    proof {
        assert(pr.skip(preferred.len() as int) =~= Seq::<Seq<char>>::empty());
    }
    if available.len() > 0 {
        Some(available[0].clone())
    } else {
        None
    }
}

/// The server's address, and the paths of what it serves.
pub struct Client {
    pub host: String,
}

impl Client {
    /// `{host}/{path}`.
    pub fn url(&self, path: &str) -> (r: String)
        ensures
            r@ == self.host@ + "/"@ + path@,
    {
        let mut r = self.host.clone();
        r.append("/");
        r.append(path);
        r
    }

    /// The locale list.
    pub fn locales_url(&self) -> (r: String)
        ensures
            r@ == self.host@ + "/"@ + "locales"@,
    {
        self.url("locales")
    }

    /// The discovery document.
    pub fn discovery_url(&self) -> (r: String)
        ensures
            r@ == self.host@ + "/"@ + "discovery"@,
    {
        self.url("discovery")
    }

    /// The Fluent messages of `locale`.
    pub fn ftl_url(&self, locale: &str) -> (r: String)
        ensures
            r@ == self.host@ + "/"@ + locale@ + ".ftl"@,
    {
        let mut r = self.url(locale);
        r.append(".ftl");
        r
    }

    /// The snapshot of a collection, one JSON object per line.
    pub fn list_url(&self, group: &str, kind: &str) -> (r: String)
        ensures
            r@ == self.host@ + "/"@ + group@ + "/"@ + kind@,
    {
        let mut r = self.url(group);
        r.append("/");
        r.append(kind);
        r
    }

    /// The live event stream of a collection.
    pub fn watch_list_url(&self, group: &str, kind: &str) -> (r: String)
        ensures
            r@ == self.host@ + "/"@ + group@ + "/"@ + kind@ + "?watch=true"@,
    {
        let mut r = self.list_url(group, kind);
        r.append("?watch=true");
        r
    }

    /// The live event stream of one object.
    pub fn watch_single_url(&self, group: &str, kind: &str, name: &str) -> (r: String)
        ensures
            r@ == self.host@ + "/"@ + group@ + "/"@ + kind@ + "/"@ + name@ + "?watch=true"@,
    {
        let mut r = self.list_url(group, kind);
        r.append("/");
        r.append(name);
        r.append("?watch=true");
        r
    }
}

/// The lines of a snapshot body that hold something.
pub fn snapshot_lines(body: &str) -> (r: Vec<String>)
    ensures
        views(r@) == nonempty_pieces(body@, '\n'),
{
    split_nonempty(body, '\n')
}

/// Where local storage keeps the server address the user chose.
pub const LOCAL_STORAGE_KEY: &'static str = "webconsole:apiserver-addr";

/// A kind of object, within its group.
#[derive(Debug)]
pub struct GroupKind {
    pub group: String,
    pub kind: String,
}

/// A group of kinds, as discovery lists it.
#[derive(Debug)]
pub struct Group {
    pub id: String,
    pub display_name: String,
    pub display_priority: u32,
}

/// One choice of an enumerated field, with the key of its label.
#[derive(Debug)]
pub struct EnumOption {
    pub id: String,
    pub i18n: String,
}

/// How a kind's objects are shown by default.
#[derive(Debug)]
pub struct KnownObjectMetadata {
    pub hide_name: bool,
    pub desc_name: bool,
    pub default_display_mode: DisplayMode,
}

impl Default for KnownObjectMetadata {
    fn default() -> (r: Self)
        ensures
            !r.hide_name,
            !r.desc_name,
            r.default_display_mode == DisplayMode::Cards,
    {
        KnownObjectMetadata { hide_name: false, desc_name: false, default_display_mode: DisplayMode::Cards }
    }
}

/// How a field is shown by default: higher priorities come first.
#[derive(Debug)]
pub struct KnownFieldMetadata {
    pub display_priority: i32,
    pub hide_by_default: bool,
}

impl Default for KnownFieldMetadata {
    fn default() -> (r: Self)
        ensures
            r.display_priority == 0,
            !r.hide_by_default,
    {
        KnownFieldMetadata { display_priority: 0, hide_by_default: false }
    }
}

/// A field of a kind: where its value sits in an object, the key of its
/// label, how it is shown, and the type of its value.
#[derive(Debug)]
pub struct FieldDef {
    pub path: String,
    pub display_name: String,
    pub metadata: KnownFieldMetadata,
    pub ty: FieldType,
}

/// The declared type of a field's value. Bounds of floating-point fields
/// keep the decimal text they were declared with.
#[derive(Debug)]
#[allow(inconsistent_fields)]
pub enum FieldType {
    String,
    Int64 { is_timestamp: bool, min: Option<i64>, max: Option<i64> },
    Float64 { is_timestamp: bool, min: Option<String>, max: Option<String> },
    Bool,
    Enum { options: IdMap<EnumOption> },
    /// The name of an object of kind `gk`.
    Object { gk: GroupKind },
    Nullable { item: Box<FieldType> },
    List { item: Box<FieldType> },
    Compound { fields: IdMap<CompoundSubfield> },
}

/// A named part of a compound field.
#[derive(Debug)]
pub struct CompoundSubfield {
    pub key: String,
    pub name: String,
    pub ty: FieldType,
}

/// A kind, with its fields.
pub struct ObjectDef {
    pub id: GroupKind,
    pub display_name: String,
    pub metadata: KnownObjectMetadata,
    pub fields: IdMap<FieldDef>,
}

/// What the server offers: its groups and its kinds.
pub struct Discovery {
    pub groups: IdMap<Group>,
    pub apis: IdMap<ObjectDef>,
}

fn one_part(s: &String) -> (r: Vec<String>)
    ensures
        views(r@) == seq![s@],
{
    let mut r: Vec<String> = Vec::new();
    r.push(s.clone());
    proof {
        assert(views(r@) =~= seq![s@]);
    }
    r
}

impl HasId for Group {
    open spec fn spec_id(&self) -> Seq<Seq<char>> {
        seq![self.id@]
    }

    fn id(&self) -> (r: Vec<String>) {
        one_part(&self.id)
    }
}

impl HasId for EnumOption {
    open spec fn spec_id(&self) -> Seq<Seq<char>> {
        seq![self.id@]
    }

    fn id(&self) -> (r: Vec<String>) {
        one_part(&self.id)
    }
}

impl HasId for CompoundSubfield {
    open spec fn spec_id(&self) -> Seq<Seq<char>> {
        seq![self.key@]
    }

    fn id(&self) -> (r: Vec<String>) {
        one_part(&self.key)
    }
}

impl HasId for FieldDef {
    open spec fn spec_id(&self) -> Seq<Seq<char>> {
        seq![self.path@]
    }

    fn id(&self) -> (r: Vec<String>) {
        one_part(&self.path)
    }
}

impl HasId for ObjectDef {
    open spec fn spec_id(&self) -> Seq<Seq<char>> {
        seq![self.id.group@, self.id.kind@]
    }

    fn id(&self) -> (r: Vec<String>) {
        let mut r: Vec<String> = Vec::new();
        r.push(self.id.group.clone());
        r.push(self.id.kind.clone());
        proof {
            assert(views(r@) =~= seq![self.id.group@, self.id.kind@]);
        }
        r
    }
}

impl Discovery {
    /// The kind `kind` of group `group`, if the server offers it.
    pub fn api(&self, group: &str, kind: &str) -> (r: Option<&ObjectDef>)
        requires
            self.apis.wf(),
        ensures
            match r {
                Some(d) => d.id.group@ == group@ && d.id.kind@ == kind@ && self.apis.items().contains(*d),
                None => forall|j: int|
                    0 <= j < self.apis.items().len() ==> !((#[trigger] self.apis.items()[j]).id.group@
                        == group@ && self.apis.items()[j].id.kind@ == kind@),
            },
    {
        let mut key: Vec<String> = Vec::new();
        key.push(String::from_str(group));
        key.push(String::from_str(kind));
        proof {
            assert(views(key@) =~= seq![group@, kind@]);
        }
        let r = self.apis.get(&key);
        proof {
            assert forall|j: int| 0 <= j < self.apis.items().len() && (#[trigger] self.apis.items()[j]).id.group@
                == group@ && self.apis.items()[j].id.kind@ == kind@ implies self.apis.items()[j].spec_id()
                == views(key@) by {
                assert(self.apis.items()[j].spec_id() =~= views(key@));
            }
        }
        r
    }
}

/// One object of a collection: its name and its field tree.
#[derive(Debug)]
pub struct Object {
    pub name: String,
    pub fields: JsonValue,
}

/// A change to a watched collection, as the server sends it.
#[derive(Debug)]
pub enum WatchListEvent {
    /// The collection is empty from now on.
    Clear,
    /// An object appears, or replaces the one of the same name.
    Added { item: Object },
    /// The object of this name is gone.
    Removed { name: String },
    /// The value at the dotted path `field` inside object `name` changes.
    FieldUpdate { name: String, field: String, value: JsonValue },
}

/// A change to a single watched object: the value at one field path.
#[derive(Debug)]
pub enum WatchSingleEvent {
    Update { field: String, value: JsonValue },
}

/// A collection event as a mathematical value.
pub enum ListEvent {
    Clear,
    Added { name: Seq<char>, fields: Json },
    Removed { name: Seq<char> },
    FieldUpdate { name: Seq<char>, path: Seq<char>, value: Json },
}

impl View for WatchListEvent {
    type V = ListEvent;

    open spec fn view(&self) -> ListEvent {
        match self {
            WatchListEvent::Clear => ListEvent::Clear,
            WatchListEvent::Added { item } => ListEvent::Added {
                name: item.name@,
                fields: item.fields@,
            },
            WatchListEvent::Removed { name } => ListEvent::Removed { name: name@ },
            WatchListEvent::FieldUpdate { name, field, value } => ListEvent::FieldUpdate {
                name: name@,
                path: field@,
                value: value@,
            },
        }
    }
}

/// Why a message could not be read, as a mathematical value.
pub enum DecodeFault {
    NotAnObject,
    MissingField(Seq<char>),
    WrongType(Seq<char>),
    UnknownEvent(Seq<char>),
}

/// Why a message could not be read as an event.
#[derive(Debug)]
pub enum DecodeError {
    /// The message, or its `item`, is not a JSON object.
    NotAnObject,
    /// A required field is absent.
    MissingField { field: String },
    /// A field that must hold a string holds something else.
    WrongType { field: String },
    /// The `event` tag names no known event.
    UnknownEvent { tag: String },
}

impl DecodeError {
    /// The fault this error reports.
    pub open spec fn fault(&self) -> DecodeFault {
        match self {
            DecodeError::NotAnObject => DecodeFault::NotAnObject,
            DecodeError::MissingField { field } => DecodeFault::MissingField(field@),
            DecodeError::WrongType { field } => DecodeFault::WrongType(field@),
            DecodeError::UnknownEvent { tag } => DecodeFault::UnknownEvent(tag@),
        }
    }
}

/// The value of entry `key` of object `v`: the first entry under that key.
pub open spec fn field_of(v: Json, key: Seq<char>) -> Option<Json> {
    match v {
        Json::Object(es) => match key_position(es, key) {
            Some(i) => Some(es[i].value),
            None => None,
        },
        _ => None,
    }
}

/// Entry `key` of object `v`, which must be present.
pub open spec fn any_field(v: Json, key: Seq<char>) -> Result<Json, DecodeFault> {
    match field_of(v, key) {
        Some(x) => Ok(x),
        None => Err(DecodeFault::MissingField(key)),
    }
}

/// Entry `key` of object `v`, which must be present and hold a string.
pub open spec fn text_field(v: Json, key: Seq<char>) -> Result<Seq<char>, DecodeFault> {
    match field_of(v, key) {
        Some(Json::String(s)) => Ok(s),
        Some(_) => Err(DecodeFault::WrongType(key)),
        None => Err(DecodeFault::MissingField(key)),
    }
}

/// Entries under any key but `k`.
pub open spec fn key_is_not(k: Seq<char>) -> spec_fn(Entry) -> bool {
    |e: Entry| e.key != k
}

/// An object record as a mathematical value.
pub struct ObjectView {
    pub name: Seq<char>,
    pub fields: Json,
}

/// An object as the server writes it: its name under `_name`, and its
/// fields as the other entries.
pub open spec fn decode_object(v: Json) -> Result<ObjectView, DecodeFault> {
    match v {
        Json::Object(es) => match text_field(v, "_name"@) {
            Ok(name) => Ok(ObjectView { name, fields: Json::Object(es.filter(key_is_not("_name"@))) }),
            Err(f) => Err(f),
        },
        _ => Err(DecodeFault::NotAnObject),
    }
}

/// A collection event as the server writes it: an object whose `event` entry
/// is `clear`, `added` (with `item`), `removed` (with `name`) or
/// `fieldUpdate` (with `name`, `field` and `value`).
pub open spec fn decode_list_event(v: Json) -> Result<ListEvent, DecodeFault> {
    if !(v is Object) {
        Err(DecodeFault::NotAnObject)
    } else {
        match text_field(v, "event"@) {
            Err(f) => Err(f),
            Ok(tag) => if tag == "clear"@ {
                Ok(ListEvent::Clear)
            } else if tag == "added"@ {
                match any_field(v, "item"@) {
                    Ok(item) => match decode_object(item) {
                        Ok(o) => Ok(ListEvent::Added { name: o.name, fields: o.fields }),
                        Err(f) => Err(f),
                    },
                    Err(f) => Err(f),
                }
            } else if tag == "removed"@ {
                match text_field(v, "name"@) {
                    Ok(name) => Ok(ListEvent::Removed { name }),
                    Err(f) => Err(f),
                }
            } else if tag == "fieldUpdate"@ {
                match text_field(v, "name"@) {
                    Ok(name) => match text_field(v, "field"@) {
                        Ok(path) => match any_field(v, "value"@) {
                            Ok(value) => Ok(ListEvent::FieldUpdate { name, path, value }),
                            Err(f) => Err(f),
                        },
                        Err(f) => Err(f),
                    },
                    Err(f) => Err(f),
                }
            } else {
                Err(DecodeFault::UnknownEvent(tag))
            },
        }
    }
}

/// Takes the string under `key` out of object `entries`.
fn take_text(entries: &Vec<Member>, key: &str) -> (r: Result<String, DecodeError>)
    ensures
        match text_field(JsonValue::Object(*entries)@, key@) {
            Ok(s) => r matches Ok(x) && x@ == s,
            Err(f) => r matches Err(e) && e.fault() == f,
        },
{
    proof {
        lemma_object_view(*entries);
    }
    match find_member(entries, &String::from_str(key)) {
        Some(i) => match &entries[i].value {
            JsonValue::String(s) => Ok(s.clone()),
            _ => Err(DecodeError::WrongType { field: String::from_str(key) }),
        },
        None => Err(DecodeError::MissingField { field: String::from_str(key) }),
    }
}

/// Moves the value under `key` out of object `entries`.
fn take_value(entries: &mut Vec<Member>, key: &str) -> (r: Result<JsonValue, DecodeError>)
    ensures
        match any_field(JsonValue::Object(*old(entries))@, key@) {
            Ok(x) => r matches Ok(y) && y@ == x,
            Err(f) => r matches Err(e) && e.fault() == f,
        },
{
    proof {
        lemma_object_view(*entries);
    }
    match find_member(entries, &String::from_str(key)) {
        Some(i) => {
            let m = entries.remove(i);
            Ok(m.value)
        },
        None => Err(DecodeError::MissingField { field: String::from_str(key) }),
    }
}

/// `entries` without those under `key`, in order.
fn without_key(entries: Vec<Member>, key: &str) -> (r: Vec<Member>)
    ensures
        members_view(r@) == members_view(entries@).filter(key_is_not(key@)),
{
    let k = String::from_str(key);
    let ghost all = entries@;
    let mut out: Vec<Member> = Vec::new();
    proof {
        assert(members_view(all.take(0)) =~= Seq::<Entry>::empty());
        Seq::<Entry>::empty().lemma_filter_len(key_is_not(key@));
        assert(members_view(out@) =~= Seq::<Entry>::empty());
    }
    for m in it: entries.into_iter()
        invariant
            it.seq() == all,
            k@ == key@,
            members_view(out@) == members_view(all.take(it.index() as int)).filter(key_is_not(key@)),
    {
        let ghost i = it.index() as int;
        proof {
            assert(m == all[i]);
            let before = members_view(all.take(i));
            assert(members_view(all.take(i + 1)) =~= before.push(members_view(all)[i]));
            before.lemma_filter_push(members_view(all)[i], key_is_not(key@));
            assert(key_is_not(key@)(members_view(all)[i]) == (m.key@ != key@));
        }
        if !(m.key == k) {
            let ghost old_out = out@;
            out.push(m);
            proof {
                assert(members_view(out@) =~= members_view(old_out).push(members_view(all)[i]));
            }
        }
    }
    proof {
        assert(all.take(all.len() as int) =~= all);
    }
    out
}

impl Object {
    /// Reads an object as the server writes it: a JSON object whose `_name`
    /// entry holds the name and whose other entries are the fields.
    pub fn from_json(v: JsonValue) -> (r: Result<Object, DecodeError>)
        ensures
            match decode_object(v@) {
                Ok(o) => r matches Ok(x) && x.name@ == o.name && x.fields@ == o.fields,
                Err(f) => r matches Err(e) && e.fault() == f,
            },
    {
        match v {
            JsonValue::Object(entries) => {
                proof {
                    lemma_object_view(entries);
                }
                let name = match take_text(&entries, "_name") {
                    Ok(name) => name,
                    Err(e) => {
                        return Err(e);
                    },
                };
                let fields = without_key(entries, "_name");
                proof {
                    lemma_object_view(fields);
                }
                Ok(Object { name, fields: JsonValue::Object(fields) })
            },
            _ => Err(DecodeError::NotAnObject),
        }
    }
}

impl WatchListEvent {
    /// Reads one collection event from the JSON message that carries it.
    pub fn from_json(v: JsonValue) -> (r: Result<WatchListEvent, DecodeError>)
        ensures
            match decode_list_event(v@) {
                Ok(e) => r matches Ok(x) && x@ == e,
                Err(f) => r matches Err(e) && e.fault() == f,
            },
    {
        let mut entries = match v {
            JsonValue::Object(entries) => entries,
            _ => {
                return Err(DecodeError::NotAnObject);
            },
        };
        proof {
            lemma_object_view(entries);
        }
        let tag = match take_text(&entries, "event") {
            Ok(tag) => tag,
            Err(e) => {
                return Err(e);
            },
        };
        if tag == String::from_str("clear") {
            Ok(WatchListEvent::Clear)
        } else if tag == String::from_str("added") {
            let item = match take_value(&mut entries, "item") {
                Ok(item) => item,
                Err(e) => {
                    return Err(e);
                },
            };
            match Object::from_json(item) {
                Ok(item) => Ok(WatchListEvent::Added { item }),
                Err(e) => Err(e),
            }
        } else if tag == String::from_str("removed") {
            match take_text(&entries, "name") {
                Ok(name) => Ok(WatchListEvent::Removed { name }),
                Err(e) => Err(e),
            }
        } else if tag == String::from_str("fieldUpdate") {
            let name = match take_text(&entries, "name") {
                Ok(name) => name,
                Err(e) => {
                    return Err(e);
                },
            };
            let field = match take_text(&entries, "field") {
                Ok(field) => field,
                Err(e) => {
                    return Err(e);
                },
            };
            match take_value(&mut entries, "value") {
                Ok(value) => Ok(WatchListEvent::FieldUpdate { name, field, value }),
                Err(e) => Err(e),
            }
        } else {
            Err(DecodeError::UnknownEvent { tag })
        }
    }
}

/// A single-object event as a mathematical value.
pub struct FieldChange {
    pub path: Seq<char>,
    pub value: Json,
}

/// A single-object event as the server writes it: an object whose `event`
/// entry is `update`, with `field` and `value`.
pub open spec fn decode_single_event(v: Json) -> Result<FieldChange, DecodeFault> {
    if !(v is Object) {
        Err(DecodeFault::NotAnObject)
    } else {
        match text_field(v, "event"@) {
            Err(f) => Err(f),
            Ok(tag) => if tag == "update"@ {
                match text_field(v, "field"@) {
                    Ok(path) => match any_field(v, "value"@) {
                        Ok(value) => Ok(FieldChange { path, value }),
                        Err(f) => Err(f),
                    },
                    Err(f) => Err(f),
                }
            } else {
                Err(DecodeFault::UnknownEvent(tag))
            },
        }
    }
}

impl WatchSingleEvent {
    /// Reads one single-object event from the JSON message that carries it.
    pub fn from_json(v: JsonValue) -> (r: Result<WatchSingleEvent, DecodeError>)
        ensures
            match decode_single_event(v@) {
                Ok(c) => r matches Ok(WatchSingleEvent::Update { field, value }) && field@ == c.path
                    && value@ == c.value,
                Err(f) => r matches Err(e) && e.fault() == f,
            },
    {
        let mut entries = match v {
            JsonValue::Object(entries) => entries,
            _ => {
                return Err(DecodeError::NotAnObject);
            },
        };
        proof {
            lemma_object_view(entries);
        }
        let tag = match take_text(&entries, "event") {
            Ok(tag) => tag,
            Err(e) => {
                return Err(e);
            },
        };
        if tag == String::from_str("update") {
            let field = match take_text(&entries, "field") {
                Ok(field) => field,
                Err(e) => {
                    return Err(e);
                },
            };
            match take_value(&mut entries, "value") {
                Ok(value) => Ok(WatchSingleEvent::Update { field, value }),
                Err(e) => Err(e),
            }
        } else {
            Err(DecodeError::UnknownEvent { tag })
        }
    }
}

} // verus!
