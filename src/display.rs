use vstd::prelude::*;

use crate::api::FieldDef;
use crate::text::{
    lemma_seq_less_asymmetric, lemma_seq_less_irreflexive, lemma_seq_less_total,
    lemma_seq_less_transitive, seq_less, str_less, views, contains_text, chars_of, contains_chars,
};

verus! {

/// How a collection is laid out.
#[derive(Clone, Copy, Debug, PartialEq, Eq, Structural)]
pub enum DisplayMode {
    Cards,
    Table,
}

impl Default for DisplayMode {
    fn default() -> (r: Self)
        ensures
            r == DisplayMode::Cards,
    {
        DisplayMode::Cards
    }
}

impl DisplayMode {
    /// Every mode, in the order the selector offers them.
    pub fn variants() -> (r: Vec<DisplayMode>)
        ensures
            r@ == seq![DisplayMode::Cards, DisplayMode::Table],
    {
        let mut r: Vec<DisplayMode> = Vec::new();
        r.push(DisplayMode::Cards);
        r.push(DisplayMode::Table);
        proof {
            assert(r@ =~= seq![DisplayMode::Cards, DisplayMode::Table]);
        }
        r
    }

    /// The icon class of the mode's button.
    pub fn icon(&self) -> (r: &'static str)
        ensures
            *self == DisplayMode::Cards ==> r@ == "mdi-view-comfy"@,
            *self == DisplayMode::Table ==> r@ == "mdi-table"@,
    {
        match self {
            DisplayMode::Cards => "mdi-view-comfy",
            DisplayMode::Table => "mdi-table",
        }
    }

    /// The message key of the mode's label.
    pub fn name(&self) -> (r: &'static str)
        ensures
            *self == DisplayMode::Cards ==> r@ == "base-display-card"@,
            *self == DisplayMode::Table ==> r@ == "base-display-table"@,
    {
        match self {
            DisplayMode::Cards => "base-display-card",
            DisplayMode::Table => "base-display-table",
        }
    }
}

/// Field `i` is listed before field `j`: higher display priority first, then
/// ascending path, then the order of the definitions.
pub open spec fn listed_before(fields: Seq<FieldDef>, i: int, j: int) -> bool {
    let (a, b) = (fields[i], fields[j]);
    ||| a.metadata.display_priority > b.metadata.display_priority
    ||| a.metadata.display_priority == b.metadata.display_priority && seq_less(a.path@, b.path@)
    ||| a.metadata.display_priority == b.metadata.display_priority && a.path@ == b.path@ && i < j
}

proof fn lemma_listed_before_order(fields: Seq<FieldDef>, i: int, j: int, k: int)
    ensures
        !listed_before(fields, i, i),
        listed_before(fields, i, j) ==> !listed_before(fields, j, i),
        i != j ==> listed_before(fields, i, j) || listed_before(fields, j, i),
        listed_before(fields, i, j) && listed_before(fields, j, k) ==> listed_before(fields, i, k),
{
    let (a, b, c) = (fields[i].path@, fields[j].path@, fields[k].path@);
    lemma_seq_less_irreflexive(a);
    lemma_seq_less_asymmetric(a, b);
    lemma_seq_less_total(a, b);
    if seq_less(a, b) && seq_less(b, c) {
        lemma_seq_less_transitive(a, b, c);
    }
}

fn is_listed_before(fields: &Vec<FieldDef>, i: usize, j: usize) -> (r: bool)
    requires
        i < fields.len(),
        j < fields.len(),
    ensures
        r == listed_before(fields@, i as int, j as int),
{
    let (a, b) = (&fields[i], &fields[j]);
    if a.metadata.display_priority != b.metadata.display_priority {
        return a.metadata.display_priority > b.metadata.display_priority;
    }
    if str_less(a.path.as_str(), b.path.as_str()) {
        return true;
    }
    if str_less(b.path.as_str(), a.path.as_str()) {
        proof {
            lemma_seq_less_asymmetric(a.path@, b.path@);
            lemma_seq_less_irreflexive(a.path@);
        }
        return false;
    }
    proof {
        lemma_seq_less_total(a.path@, b.path@);
    }
    i < j
}

/// Whether `path` is among `hidden`.
pub fn is_hidden(hidden: &Vec<String>, path: &String) -> (r: bool)
    ensures
        r == views(hidden@).contains(path@),
{
    for i in 0..hidden.len()
        invariant
            forall|j: int| 0 <= j < i ==> hidden[j]@ != path@,
    {
        if hidden[i] == *path {
            proof {
                assert(views(hidden@)[i as int] == path@);
            }
            return true;
        }
    }
    proof {
        if views(hidden@).contains(path@) {
            let j = choose|j: int| 0 <= j < hidden.len() && views(hidden@)[j] == path@;
            assert(hidden[j]@ == path@);
        }
    }
    false
}

/// The fields to show, as positions in `fields`: those whose path is not
/// hidden, each once, higher display priority first and then by path.
pub fn visible_fields(fields: &Vec<FieldDef>, hidden: &Vec<String>) -> (r: Vec<usize>)
    ensures
        forall|k: int| 0 <= k < r.len() ==> (#[trigger] r[k]) < fields.len() && !views(hidden@).contains(
            fields[r[k] as int].path@,
        ),
        forall|i: int|
            0 <= i < fields.len() && !views(hidden@).contains(#[trigger] fields[i].path@) ==> r@.contains(
                i as usize,
            ),
        forall|k: int, l: int|
            0 <= k < l < r.len() ==> listed_before(fields@, #[trigger] r[k] as int, #[trigger] r[l] as int),
{
    let mut r: Vec<usize> = Vec::new();
    for i in 0..fields.len()
        invariant
            forall|k: int| 0 <= k < r.len() ==> (#[trigger] r[k]) < i && !views(hidden@).contains(
                fields[r[k] as int].path@,
            ),
            forall|m: int|
                0 <= m < i && !views(hidden@).contains(#[trigger] fields[m].path@) ==> r@.contains(
                    m as usize,
                ),
            forall|k: int, l: int|
                0 <= k < l < r.len() ==> listed_before(fields@, #[trigger] r[k] as int, #[trigger] r[l] as int),
    {
        if !is_hidden(hidden, &fields[i].path) {
            let mut p: usize = 0;
            while p < r.len() && is_listed_before(fields, r[p], i)
                invariant
                    p <= r.len(),
                    i < fields.len(),
                    forall|k: int| 0 <= k < r.len() ==> (#[trigger] r[k]) < i,
                    forall|k: int| 0 <= k < p ==> listed_before(fields@, #[trigger] r[k] as int, i as int),
                decreases r.len() - p,
            {
                p = p + 1;
            }
            let ghost before = r@;
            proof {
                if p < r.len() {
                    lemma_listed_before_order(fields@, i as int, r[p as int] as int, 0);
                    assert forall|l: int| p <= l < r.len() implies listed_before(
                        fields@,
                        i as int,
                        #[trigger] r[l] as int,
                    ) by {
                        if l > p {
                            lemma_listed_before_order(fields@, i as int, r[p as int] as int, r[l] as int);
                        }
                    }
                }
            }
            r.insert(p, i);
            proof {
                assert forall|k: int, l: int| 0 <= k < l < r.len() implies listed_before(
                    fields@,
                    #[trigger] r[k] as int,
                    #[trigger] r[l] as int,
                ) by {
                    if l < p {
                        assert(listed_before(fields@, before[k] as int, before[l] as int));
                    } else if k < p && l > p {
                        assert(listed_before(fields@, before[k] as int, before[l - 1] as int));
                    } else if k > p {
                        assert(listed_before(fields@, before[k - 1] as int, before[l - 1] as int));
                    }
                }
                assert forall|m: int|
                    0 <= m < i + 1 && !views(hidden@).contains(#[trigger] fields[m].path@) implies r@.contains(
                    m as usize,
                ) by {
                    if m == i {
                        assert(r[p as int] == i);
                    } else {
                        let k = choose|k: int| 0 <= k < before.len() && before[k] == m as usize;
                        if k < p {
                            assert(r[k] == m as usize);
                        } else {
                            assert(r[k + 1] == m as usize);
                        }
                    }
                }
            }
        }
    }
    r
}

/// The paths of the fields hidden by default, in order.
pub fn default_hidden(fields: &Vec<FieldDef>) -> (r: Vec<String>)
    ensures
        views(r@) == fields@.filter(|f: FieldDef| f.metadata.hide_by_default).map_values(
            |f: FieldDef| f.path@,
        ),
{
    let mut r: Vec<String> = Vec::new();
    proof {
        assert(fields@.take(0) =~= Seq::<FieldDef>::empty());
        Seq::<FieldDef>::empty().lemma_filter_len(|f: FieldDef| f.metadata.hide_by_default);
        assert(views(r@) =~= fields@.take(0).filter(|f: FieldDef| f.metadata.hide_by_default).map_values(
            |f: FieldDef| f.path@,
        ));
    }
    for i in 0..fields.len()
        invariant
            views(r@) == fields@.take(i as int).filter(|f: FieldDef| f.metadata.hide_by_default).map_values(
                |f: FieldDef| f.path@,
            ),
    {
        proof {
            assert(fields@.take(i + 1) =~= fields@.take(i as int).push(fields@[i as int]));
            fields@.take(i as int).lemma_filter_push(fields@[i as int], |f: FieldDef| f.metadata.hide_by_default);
        }
        if fields[i].metadata.hide_by_default {
            let ghost old_r = r@;
            r.push(fields[i].path.clone());
            proof {
                let kept = fields@.take(i as int).filter(|f: FieldDef| f.metadata.hide_by_default);
                assert(views(r@) =~= views(old_r).push(fields@[i as int].path@));
                assert(kept.push(fields@[i as int]).map_values(|f: FieldDef| f.path@) =~= kept.map_values(
                    |f: FieldDef| f.path@,
                ).push(fields@[i as int].path@));
            }
        }
    }
    proof {
        assert(fields@.take(fields.len() as int) =~= fields@);
    }
    r
}

/// Shows or hides the field at `path`: showing takes every copy of it out
/// of `hidden`; hiding adds it unless it is there already.
pub fn set_field_visible(hidden: &mut Vec<String>, path: String, visible: bool)
    ensures
        visible ==> views(final(hidden)@) == views(old(hidden)@).filter(|p: Seq<char>| p != path@),
        !visible && views(old(hidden)@).contains(path@) ==> final(hidden)@ == old(hidden)@,
        !visible && !views(old(hidden)@).contains(path@) ==> final(hidden)@ == old(hidden)@.push(path),
{
    if !visible {
        if !is_hidden(hidden, &path) {
            hidden.push(path);
        }
        return;
    }
    let ghost all = old(hidden)@;
    let mut kept: Vec<String> = Vec::new();
    proof {
        assert(views(all).take(0) =~= Seq::<Seq<char>>::empty());
        Seq::<Seq<char>>::empty().lemma_filter_len(|p: Seq<char>| p != path@);
        assert(views(kept@) =~= Seq::<Seq<char>>::empty());
    }
    for i in 0..hidden.len()
        invariant
            hidden@ == all,
            views(kept@) == views(all).take(i as int).filter(|p: Seq<char>| p != path@),
    {
        proof {
            assert(views(all).take(i + 1) =~= views(all).take(i as int).push(views(all)[i as int]));
            views(all).take(i as int).lemma_filter_push(views(all)[i as int], |p: Seq<char>| p != path@);
        }
        if !(hidden[i] == path) {
            let ghost old_kept = kept@;
            kept.push(hidden[i].clone());
            proof {
                assert(views(kept@) =~= views(old_kept).push(views(all)[i as int]));
            }
        }
    }
    proof {
        assert(views(all).take(all.len() as int) =~= views(all));
    }
    *hidden = kept;
}

/// Whether a field is offered under the filter `pattern`: every field is when
/// the pattern is empty, else those whose label or path contains it.
pub fn field_matches_filter(pattern: &str, label: &str, path: &str) -> (r: bool)
    ensures
        r == (pattern@.len() == 0 || contains_text(label@, pattern@) || contains_text(path@, pattern@)),
{
    let p = chars_of(pattern);
    p.len() == 0 || contains_chars(&chars_of(label), &p) || contains_chars(&chars_of(path), &p)
}

} // verus!
