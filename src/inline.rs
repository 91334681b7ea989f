use vstd::prelude::*;

use crate::api::{EnumOption, FieldType};
use crate::id_map::IdMap;
use crate::json::{Json, JsonValue};

verus! {

/// How many items of a list are shown inline before the rest is summed up.
pub const LIST_DISPLAY_LIMIT: usize = 3;

/// What to show for one value of a declared type. `nested` values sit inside
/// a list or a compound and are shown compactly.
#[derive(Debug)]
pub enum Inline {
    /// The string itself.
    Text,
    /// The number, rounded for display.
    Number,
    /// The number as a time of day.
    Timestamp,
    /// A checkbox in this state.
    Checkbox(bool),
    /// The label of the enum option at this position of the options.
    Label(usize),
    /// A string that names no option of the enum.
    InvalidOption,
    /// The mark of an absent nullable value.
    NullMark,
    /// The value shown as the nullable's item type.
    Inner,
    /// The note that a list is empty.
    EmptyList,
    /// The number of items of a nested list.
    ItemCount(usize),
    /// The first `shown` items, each as the item type, and how many more there are.
    Items { shown: usize, rest: usize },
    /// The note that a compound is empty.
    EmptyCompound,
    /// An ellipsis for a nested, non-empty compound.
    Ellipsis,
    /// Each subfield with the entry of the same key, or null.
    Parts,
    /// A link to the object this string names.
    Link,
    /// The value does not have the declared type: what was expected.
    Mismatch { expected: &'static str },
}

/// Null, an empty list or an empty object: a compound with nothing to show.
pub open spec fn is_empty_compound(v: Json) -> bool {
    ||| v is Null
    ||| v matches Json::Array(items) && items.len() == 0
    ||| v matches Json::Object(entries) && entries.len() == 0
}

/// The type name a mismatch reports for `ty`.
pub open spec fn mismatch_of(ty: FieldType) -> Seq<char> {
    match ty {
        FieldType::Int64 { .. } | FieldType::Float64 { .. } => "Number"@,
        FieldType::Bool => "Bool"@,
        FieldType::List { .. } => "List"@,
        FieldType::Compound { .. } => "Compound"@,
        _ => "String"@,
    }
}

/// `i` is the first position of an option called `s`.
pub open spec fn is_first_option(options: Seq<EnumOption>, s: Seq<char>, i: int) -> bool {
    &&& 0 <= i < options.len()
    &&& options[i].id@ == s
    &&& forall|j: int| 0 <= j < i ==> options[j].id@ != s
}

/// The position of the first option called `s`, if any.
pub open spec fn option_position(options: Seq<EnumOption>, s: Seq<char>) -> Option<int> {
    if exists|i: int| is_first_option(options, s, i) {
        Some(choose|i: int| is_first_option(options, s, i))
    } else {
        None
    }
}

/// What to show for value `v` of type `ty`.
pub open spec fn inline_of(ty: FieldType, v: Json, nested: bool) -> Option<InlineView> {
    match ty {
        FieldType::String | FieldType::Object { .. } => if v is String {
            Some(if ty is String { InlineView::Text } else { InlineView::Link })
        } else {
            None
        },
        FieldType::Int64 { is_timestamp, .. } | FieldType::Float64 { is_timestamp, .. } => if v is Number {
            Some(if is_timestamp { InlineView::Timestamp } else { InlineView::Number })
        } else {
            None
        },
        FieldType::Bool => match v {
            Json::Bool(b) => Some(InlineView::Checkbox(b)),
            _ => None,
        },
        FieldType::Enum { options } => match v {
            Json::String(s) => match option_position(options.items(), s) {
                Some(i) => Some(InlineView::Label(i)),
                None => Some(InlineView::InvalidOption),
            },
            _ => None,
        },
        FieldType::Nullable { .. } => Some(if v is Null { InlineView::NullMark } else { InlineView::Inner }),
        FieldType::List { .. } => match v {
            Json::Null => Some(InlineView::EmptyList),
            Json::Array(items) => Some(if items.len() == 0 {
                InlineView::EmptyList
            } else if nested {
                InlineView::ItemCount(items.len() as int)
            } else if items.len() > LIST_DISPLAY_LIMIT {
                InlineView::Items { shown: LIST_DISPLAY_LIMIT as int, rest: items.len() - LIST_DISPLAY_LIMIT }
            } else {
                InlineView::Items { shown: items.len() as int, rest: 0 }
            }),
            _ => None,
        },
        FieldType::Compound { .. } => if is_empty_compound(v) {
            Some(InlineView::EmptyCompound)
        } else if v is Object {
            Some(if nested { InlineView::Ellipsis } else { InlineView::Parts })
        } else {
            None
        },
    }
}

/// [`Inline`] as a mathematical value; `None` of [`inline_of`] is a mismatch.
pub enum InlineView {
    Text,
    Number,
    Timestamp,
    Checkbox(bool),
    Label(int),
    InvalidOption,
    NullMark,
    Inner,
    EmptyList,
    ItemCount(int),
    Items { shown: int, rest: int },
    EmptyCompound,
    Ellipsis,
    Parts,
    Link,
}

impl Inline {
    /// The decision as a mathematical value; a mismatch is `None`.
    pub open spec fn view_as(&self) -> Option<InlineView> {
        match self {
            Inline::Text => Some(InlineView::Text),
            Inline::Number => Some(InlineView::Number),
            Inline::Timestamp => Some(InlineView::Timestamp),
            Inline::Checkbox(b) => Some(InlineView::Checkbox(*b)),
            Inline::Label(i) => Some(InlineView::Label(*i as int)),
            Inline::InvalidOption => Some(InlineView::InvalidOption),
            Inline::NullMark => Some(InlineView::NullMark),
            Inline::Inner => Some(InlineView::Inner),
            Inline::EmptyList => Some(InlineView::EmptyList),
            Inline::ItemCount(n) => Some(InlineView::ItemCount(*n as int)),
            Inline::Items { shown, rest } => Some(InlineView::Items { shown: *shown as int, rest: *rest as int }),
            Inline::EmptyCompound => Some(InlineView::EmptyCompound),
            Inline::Ellipsis => Some(InlineView::Ellipsis),
            Inline::Parts => Some(InlineView::Parts),
            Inline::Link => Some(InlineView::Link),
            Inline::Mismatch { .. } => None,
        }
    }
}

fn find_option(options: &IdMap<EnumOption>, s: &String) -> (r: Option<usize>)
    ensures
        match r {
            Some(i) => option_position(options.items(), s@) == Some(i as int),
            None => option_position(options.items(), s@) is None,
        },
{
    let items = options.values();
    let ghost all = options.items();
    for i in 0..items.len()
        invariant
            items@ == all,
            all == options.items(),
            forall|j: int| 0 <= j < i ==> all[j].id@ != s@,
    {
        if items[i].id == *s {
            proof {
                assert(is_first_option(all, s@, i as int));
                let c = choose|c: int| is_first_option(all, s@, c);
                if c < i {
                    assert(all[c].id@ != s@);
                } else if c > i {
                    assert(all[i as int].id@ != s@);
                }
            }
            return Some(i);
        }
    }
    proof {
        assert forall|i: int| !is_first_option(all, s@, i) by {
            if 0 <= i < all.len() {
                assert(all[i].id@ != s@);
            }
        }
    }
    None
}

fn mismatch(ty: &FieldType) -> (r: Inline)
    ensures
        r matches Inline::Mismatch { expected } && expected@ == mismatch_of(*ty),
{
    let expected = match ty {
        FieldType::Int64 { .. } | FieldType::Float64 { .. } => "Number",
        FieldType::Bool => "Bool",
        FieldType::List { .. } => "List",
        FieldType::Compound { .. } => "Compound",
        _ => "String",
    };
    Inline::Mismatch { expected }
}

/// What to show for `value`, declared of type `ty`; `nested` when it sits
/// inside a list or a compound. A value of another type gives a mismatch,
/// never a failure.
pub fn inline_for(ty: &FieldType, value: &JsonValue, nested: bool) -> (r: Inline)
    ensures
        r.view_as() == inline_of(*ty, value@, nested),
        r matches Inline::Mismatch { expected } ==> expected@ == mismatch_of(*ty),
{
    match ty {
        FieldType::String => match value {
            JsonValue::String(_) => Inline::Text,
            _ => mismatch(ty),
        },
        FieldType::Object { .. } => match value {
            JsonValue::String(_) => Inline::Link,
            _ => mismatch(ty),
        },
        FieldType::Int64 { is_timestamp, .. } | FieldType::Float64 { is_timestamp, .. } => match value {
            JsonValue::Number(_) => if *is_timestamp {
                Inline::Timestamp
            } else {
                Inline::Number
            },
            _ => mismatch(ty),
        },
        FieldType::Bool => match value {
            JsonValue::Bool(b) => Inline::Checkbox(*b),
            _ => mismatch(ty),
        },
        FieldType::Enum { options } => match value {
            JsonValue::String(s) => match find_option(options, s) {
                Some(i) => Inline::Label(i),
                None => Inline::InvalidOption,
            },
            _ => mismatch(ty),
        },
        FieldType::Nullable { .. } => match value {
            JsonValue::Null => Inline::NullMark,
            _ => Inline::Inner,
        },
        FieldType::List { .. } => match value {
            JsonValue::Null => Inline::EmptyList,
            JsonValue::Array(items) => {
                let n = items.len();
                if n == 0 {
                    Inline::EmptyList
                } else if nested {
                    Inline::ItemCount(n)
                } else if n > LIST_DISPLAY_LIMIT {
                    Inline::Items { shown: LIST_DISPLAY_LIMIT, rest: n - LIST_DISPLAY_LIMIT }
                } else {
                    Inline::Items { shown: n, rest: 0 }
                }
            },
            _ => mismatch(ty),
        },
        FieldType::Compound { .. } => match value {
            JsonValue::Null => Inline::EmptyCompound,
            JsonValue::Array(items) => if items.len() == 0 {
                Inline::EmptyCompound
            } else {
                mismatch(ty)
            },
            JsonValue::Object(entries) => if entries.len() == 0 {
                Inline::EmptyCompound
            } else if nested {
                Inline::Ellipsis
            } else {
                Inline::Parts
            },
            _ => mismatch(ty),
        },
    }
}

} // verus!
