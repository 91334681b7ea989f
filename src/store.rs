use vstd::prelude::*;

use crate::api::{ListEvent, Object, WatchListEvent, WatchSingleEvent};
use crate::json::{
    json_get, json_set, lemma_get_after_set, lemma_set_fails_where_get_is_absent, path_segments,
    set_json_path, Json, JsonValue,
};
use crate::text::{
    lemma_seq_less_asymmetric, lemma_seq_less_irreflexive, lemma_seq_less_total,
    lemma_seq_less_transitive, seq_less, str_less,
};

verus! {

/// The objects of one collection, by name.
pub type StoreMap = Map<Seq<char>, Json>;

/// The store after one event, and whether what it shows changed.
pub open spec fn apply_event(s: StoreMap, e: ListEvent) -> (StoreMap, bool) {
    match e {
        ListEvent::Clear => (Map::empty(), true),
        ListEvent::Added { name, fields } => (s.insert(name, fields), true),
        ListEvent::Removed { name } => if s.contains_key(name) {
            (s.remove(name), true)
        } else {
            (s, false)
        },
        ListEvent::FieldUpdate { name, path, value } => if s.contains_key(name) {
            match json_set(s[name], path_segments(path), value) {
                Ok(fields) => (s.insert(name, fields), true),
                Err(_) => (s, false),
            }
        } else {
            (s, false)
        },
    }
}

/// A sequence of events as mathematical values.
pub open spec fn events_view(es: Seq<WatchListEvent>) -> Seq<ListEvent> {
    es.map_values(|e: WatchListEvent| e@)
}

/// The store after a sequence of events, applied in order.
pub open spec fn apply_events(s: StoreMap, es: Seq<ListEvent>) -> StoreMap
    decreases es.len(),
{
    if es.len() == 0 {
        s
    } else {
        apply_event(apply_events(s, es.drop_last()), es.last()).0
    }
}

/// Names strictly ascending, hence unique.
pub open spec fn names_sorted(objs: Seq<Object>) -> bool {
    forall|i: int, j: int|
        0 <= i < j < objs.len() ==> seq_less(#[trigger] objs[i].name@, #[trigger] objs[j].name@)
}

/// Some object of `objs` is called `k`.
pub open spec fn has_name(objs: Seq<Object>, k: Seq<char>) -> bool {
    exists|i: int| 0 <= i < objs.len() && objs[i].name@ == k
}

/// The map from names to field trees that a list of objects holds.
pub open spec fn objects_map(objs: Seq<Object>) -> StoreMap {
    Map::new(
        |k: Seq<char>| has_name(objs, k),
        |k: Seq<char>| objs[choose|i: int| 0 <= i < objs.len() && objs[i].name@ == k].fields@,
    )
}

proof fn lemma_objects_map_at(objs: Seq<Object>, i: int)
    requires
        names_sorted(objs),
        0 <= i < objs.len(),
    ensures
        objects_map(objs).contains_key(objs[i].name@),
        objects_map(objs)[objs[i].name@] == objs[i].fields@,
{
    let k = objs[i].name@;
    assert(has_name(objs, k));
    let j = choose|j: int| 0 <= j < objs.len() && objs[j].name@ == k;
    lemma_seq_less_irreflexive(k);
    if j < i {
        assert(seq_less(objs[j].name@, objs[i].name@));
    } else if j > i {
        assert(seq_less(objs[i].name@, objs[j].name@));
    }
    assert(j == i);
}

proof fn lemma_absent_name(objs: Seq<Object>, k: Seq<char>)
    requires
        forall|i: int| 0 <= i < objs.len() ==> objs[i].name@ != k,
    ensures
        !objects_map(objs).contains_key(k),
{
}

proof fn lemma_map_of_update(objs: Seq<Object>, p: int, o: Object)
    requires
        names_sorted(objs),
        0 <= p < objs.len(),
        o.name@ == objs[p].name@,
    ensures
        names_sorted(objs.update(p, o)),
        objects_map(objs.update(p, o)) =~= objects_map(objs).insert(o.name@, o.fields@),
{
    let after = objs.update(p, o);
    assert forall|i: int, j: int| 0 <= i < j < after.len() implies seq_less(
        #[trigger] after[i].name@,
        #[trigger] after[j].name@,
    ) by {
        assert(seq_less(objs[i].name@, objs[j].name@));
    }
    let before_map = objects_map(objs);
    let after_map = objects_map(after);
    assert forall|k: Seq<char>| #[trigger] after_map.contains_key(k) <==> before_map.insert(
        o.name@,
        o.fields@,
    ).contains_key(k) by {
        if has_name(objs, k) {
            let j = choose|j: int| 0 <= j < objs.len() && objs[j].name@ == k;
            assert(after[j].name@ == k);
        }
        if has_name(after, k) {
            let j = choose|j: int| 0 <= j < after.len() && after[j].name@ == k;
            assert(objs[j].name@ == k);
        }
    }
    assert forall|k: Seq<char>| #[trigger] after_map.contains_key(k) implies after_map[k]
        == before_map.insert(o.name@, o.fields@)[k] by {
        let j = choose|j: int| 0 <= j < after.len() && after[j].name@ == k;
        lemma_objects_map_at(after, j);
        lemma_seq_less_irreflexive(k);
        if j < p {
            lemma_objects_map_at(objs, j);
            assert(seq_less(after[j].name@, after[p].name@));
        } else if j > p {
            lemma_objects_map_at(objs, j);
            assert(seq_less(after[p].name@, after[j].name@));
        }
    }
}

proof fn lemma_map_of_insert(objs: Seq<Object>, p: int, o: Object)
    requires
        names_sorted(objs),
        0 <= p <= objs.len(),
        forall|i: int| 0 <= i < p ==> seq_less(#[trigger] objs[i].name@, o.name@),
        forall|i: int| p <= i < objs.len() ==> seq_less(o.name@, #[trigger] objs[i].name@),
    ensures
        names_sorted(objs.insert(p, o)),
        objects_map(objs.insert(p, o)) =~= objects_map(objs).insert(o.name@, o.fields@),
{
    let after = objs.insert(p, o);
    assert forall|i: int, j: int| 0 <= i < j < after.len() implies seq_less(
        #[trigger] after[i].name@,
        #[trigger] after[j].name@,
    ) by {
        if j < p {
            assert(seq_less(objs[i].name@, objs[j].name@));
        } else if j == p {
        } else if i < p {
            assert(seq_less(objs[i].name@, o.name@));
            assert(seq_less(o.name@, objs[j - 1].name@));
            lemma_seq_less_transitive(objs[i].name@, o.name@, objs[j - 1].name@);
        } else if i == p {
        } else {
            assert(seq_less(objs[i - 1].name@, objs[j - 1].name@));
        }
    }
    let before_map = objects_map(objs);
    let after_map = objects_map(after);
    assert forall|k: Seq<char>| #[trigger] after_map.contains_key(k) <==> before_map.insert(
        o.name@,
        o.fields@,
    ).contains_key(k) by {
        if has_name(objs, k) {
            let j = choose|j: int| 0 <= j < objs.len() && objs[j].name@ == k;
            if j < p {
                assert(after[j].name@ == k);
            } else {
                assert(after[j + 1].name@ == k);
            }
        }
        if k == o.name@ {
            assert(after[p].name@ == k);
        }
        if has_name(after, k) {
            let j = choose|j: int| 0 <= j < after.len() && after[j].name@ == k;
            if j < p {
                assert(objs[j].name@ == k);
            } else if j > p {
                assert(objs[j - 1].name@ == k);
            }
        }
    }
    assert forall|k: Seq<char>| #[trigger] after_map.contains_key(k) implies after_map[k]
        == before_map.insert(o.name@, o.fields@)[k] by {
        let j = choose|j: int| 0 <= j < after.len() && after[j].name@ == k;
        lemma_objects_map_at(after, j);
        lemma_seq_less_irreflexive(o.name@);
        if j < p {
            lemma_objects_map_at(objs, j);
        } else if j > p {
            lemma_objects_map_at(objs, j - 1);
        }
    }
}

proof fn lemma_map_of_remove(objs: Seq<Object>, p: int)
    requires
        names_sorted(objs),
        0 <= p < objs.len(),
    ensures
        names_sorted(objs.remove(p)),
        objects_map(objs.remove(p)) =~= objects_map(objs).remove(objs[p].name@),
{
    let after = objs.remove(p);
    let gone = objs[p].name@;
    assert forall|i: int, j: int| 0 <= i < j < after.len() implies seq_less(
        #[trigger] after[i].name@,
        #[trigger] after[j].name@,
    ) by {
        if j < p {
            assert(seq_less(objs[i].name@, objs[j].name@));
        } else if i < p {
            assert(seq_less(objs[i].name@, objs[j + 1].name@));
        } else {
            assert(seq_less(objs[i + 1].name@, objs[j + 1].name@));
        }
    }
    let before_map = objects_map(objs);
    let after_map = objects_map(after);
    lemma_seq_less_irreflexive(gone);
    assert forall|k: Seq<char>| #[trigger] after_map.contains_key(k) <==> before_map.remove(
        gone,
    ).contains_key(k) by {
        if has_name(objs, k) && k != gone {
            let j = choose|j: int| 0 <= j < objs.len() && objs[j].name@ == k;
            if j < p {
                assert(after[j].name@ == k);
            } else {
                assert(after[j - 1].name@ == k);
            }
        }
        if has_name(after, k) {
            let j = choose|j: int| 0 <= j < after.len() && after[j].name@ == k;
            if j < p {
                assert(objs[j].name@ == k);
                assert(seq_less(k, gone));
            } else {
                assert(objs[j + 1].name@ == k);
                assert(seq_less(gone, k));
            }
        }
    }
    assert forall|k: Seq<char>| #[trigger] after_map.contains_key(k) implies after_map[k]
        == before_map.remove(gone)[k] by {
        let j = choose|j: int| 0 <= j < after.len() && after[j].name@ == k;
        lemma_objects_map_at(after, j);
        if j < p {
            lemma_objects_map_at(objs, j);
        } else {
            lemma_objects_map_at(objs, j + 1);
        }
    }
}

/// A keyed store of the objects of one collection, kept in ascending name order.
pub struct ObjectStore {
    objects: Vec<Object>,
}

impl View for ObjectStore {
    type V = StoreMap;

    closed spec fn view(&self) -> StoreMap {
        objects_map(self.objects@)
    }
}

impl ObjectStore {
    /// The objects stand in strictly ascending name order.
    pub closed spec fn wf(&self) -> bool {
        names_sorted(self.objects@)
    }

    /// An empty store.
    pub fn new() -> (r: Self)
        ensures
            r.wf(),
            r@ == Map::<Seq<char>, Json>::empty(),
    {
        let r = ObjectStore { objects: Vec::new() };
        proof {
            assert(objects_map(r.objects@) =~= Map::<Seq<char>, Json>::empty());
        }
        r
    }

    /// Empties the store.
    pub fn reset(&mut self)
        ensures
            final(self).wf(),
            final(self)@ == Map::<Seq<char>, Json>::empty(),
    {
        self.objects.clear();
        proof {
            assert(objects_map(self.objects@) =~= Map::<Seq<char>, Json>::empty());
        }
    }

    /// Where `name` stands or would stand among the objects, and whether it is there.
    fn locate(&self, name: &str) -> (r: (usize, bool))
        requires
            self.wf(),
        ensures
            r.0 <= self.objects.len(),
            r.1 ==> r.0 < self.objects.len() && self.objects[r.0 as int].name@ == name@,
            !r.1 ==> forall|i: int|
                0 <= i < r.0 ==> seq_less(#[trigger] self.objects[i].name@, name@),
            !r.1 ==> forall|i: int|
                r.0 <= i < self.objects.len() ==> seq_less(name@, #[trigger] self.objects[i].name@),
    {
        let n = self.objects.len();
        let mut i: usize = 0;
        while i < n && str_less(self.objects[i].name.as_str(), name)
            invariant
                n == self.objects.len(),
                i <= n,
                forall|j: int| 0 <= j < i ==> seq_less(#[trigger] self.objects[j].name@, name@),
            decreases n - i,
        {
            i = i + 1;
        }
        if i < n && !str_less(name, self.objects[i].name.as_str()) {
            proof {
                lemma_seq_less_total(name@, self.objects[i as int].name@);
            }
            return (i, true);
        }
        proof {
            if i < n {
                lemma_seq_less_total(name@, self.objects[i as int].name@);
                assert forall|j: int| i <= j < n implies seq_less(
                    name@,
                    #[trigger] self.objects[j].name@,
                ) by {
                    if j > i {
                        assert(seq_less(self.objects[i as int].name@, self.objects[j].name@));
                        lemma_seq_less_transitive(
                            name@,
                            self.objects[i as int].name@,
                            self.objects[j].name@,
                        );
                    }
                }
            }
        }
        (i, false)
    }

    /// Applies one event. The result says whether what the store shows changed:
    /// false for a removal or a field update of an absent name, and for a
    /// field update whose path does not exist in the object.
    pub fn update(&mut self, msg: WatchListEvent) -> (changed: bool)
        requires
            old(self).wf(),
        ensures
            final(self).wf(),
            (final(self)@, changed) == apply_event(old(self)@, msg@),
    {
        match msg {
            WatchListEvent::Clear => {
                self.reset();
                true
            },
            WatchListEvent::Added { item } => {
                let (p, found) = self.locate(item.name.as_str());
                proof {
                    if found {
                        lemma_map_of_update(self.objects@, p as int, item);
                    } else {
                        lemma_map_of_insert(self.objects@, p as int, item);
                    }
                }
                if found {
                    self.objects.set(p, item);
                } else {
                    self.objects.insert(p, item);
                }
                true
            },
            WatchListEvent::Removed { name } => {
                let (p, found) = self.locate(name.as_str());
                if found {
                    proof {
                        lemma_map_of_remove(self.objects@, p as int);
                    }
                    self.objects.remove(p);
                    true
                } else {
                    proof {
                        self.lemma_not_found(name@, p as int);
                    }
                    false
                }
            },
            WatchListEvent::FieldUpdate { name, field, value } => {
                let (p, found) = self.locate(name.as_str());
                if !found {
                    proof {
                        self.lemma_not_found(name@, p as int);
                    }
                    return false;
                }
                proof {
                    lemma_objects_map_at(self.objects@, p as int);
                }
                let ghost before = self.objects@;
                let result = set_json_path(&mut self.objects[p].fields, field.as_str(), value);
                match result {
                    Ok(()) => {
                        proof {
                            lemma_map_of_update(before, p as int, self.objects@[p as int]);
                            assert(self.objects@ =~= before.update(p as int, self.objects@[p as int]));
                        }
                        true
                    },
                    Err(_) => {
                        proof {
                            assert(self.objects@ =~= before);
                        }
                        false
                    },
                }
            },
        }
    }

    /// Applies `events` one at a time, in order: the store then holds what
    /// the whole sequence gives, as [`apply_events`] folds it.
    pub fn update_all(&mut self, events: Vec<WatchListEvent>)
        requires
            old(self).wf(),
        ensures
            final(self).wf(),
            final(self)@ == apply_events(old(self)@, events_view(events@)),
    {
        let ghost start = self@;
        let ghost all = events@;
        proof {
            assert(events_view(all.take(0)) =~= Seq::<ListEvent>::empty());
        }
        for event in it: events.into_iter()
            invariant
                it.seq() == all,
                self.wf(),
                self@ == apply_events(start, events_view(all.take(it.index() as int))),
        {
            proof {
                let n = it.index() as int;
                assert(event == all[n]);
                assert(events_view(all.take(n + 1)) =~= events_view(all.take(n)).push(event@));
                assert(events_view(all.take(n + 1)).drop_last() =~= events_view(all.take(n)));
            }
            self.update(event);
        }
        proof {
            assert(all.take(all.len() as int) =~= all);
        }
    }

    /// The object called `name`, if the store holds one.
    pub fn get(&self, name: &str) -> (r: Option<&Object>)
        requires
            self.wf(),
        ensures
            match r {
                Some(o) => self@.contains_key(name@) && o.name@ == name@ && o.fields@ == self@[name@],
                None => !self@.contains_key(name@),
            },
    {
        let (p, found) = self.locate(name);
        if found {
            proof {
                lemma_objects_map_at(self.objects@, p as int);
            }
            Some(&self.objects[p])
        } else {
            proof {
                self.lemma_not_found(name@, p as int);
            }
            None
        }
    }

    /// Whether the store holds no object.
    pub fn is_empty(&self) -> (r: bool)
        ensures
            r == (self@ == Map::<Seq<char>, Json>::empty()),
    {
        proof {
            if self.objects.len() > 0 {
                assert(has_name(self.objects@, self.objects[0].name@));
                assert(self@.contains_key(self.objects[0].name@));
            } else {
                assert(self@ =~= Map::<Seq<char>, Json>::empty());
            }
        }
        self.objects.len() == 0
    }

    /// The objects in ascending name order, or descending when `descending` is set.
    pub fn in_order(&self, descending: bool) -> (r: Vec<&Object>)
        requires
            self.wf(),
        ensures
            forall|k: Seq<char>|
                self@.contains_key(k) <==> exists|i: int| 0 <= i < r.len() && (#[trigger] r[i]).name@ == k,
            forall|i: int| 0 <= i < r.len() ==> (#[trigger] r[i]).fields@ == self@[r[i].name@],
            forall|i: int, j: int|
                0 <= i < j < r.len() ==> if descending {
                    seq_less(r[j].name@, r[i].name@)
                } else {
                    seq_less(r[i].name@, r[j].name@)
                },
    {
        let n = self.objects.len();
        let mut r: Vec<&Object> = Vec::new();
        for i in 0..n
            invariant
                n == self.objects.len(),
                self.wf(),
                r.len() == i,
                forall|j: int|
                    0 <= j < i ==> #[trigger] r[j] == if descending {
                        &self.objects[n - 1 - j]
                    } else {
                        &self.objects[j]
                    },
        {
            if descending {
                r.push(&self.objects[n - 1 - i]);
            } else {
                r.push(&self.objects[i]);
            }
        }
        proof {
            assert forall|k: Seq<char>| self@.contains_key(k) implies exists|i: int|
                0 <= i < r.len() && (#[trigger] r[i]).name@ == k by {
                let j = choose|j: int| 0 <= j < n && self.objects[j].name@ == k;
                if descending {
                    assert(r[n - 1 - j].name@ == k);
                } else {
                    assert(r[j].name@ == k);
                }
            }
            assert forall|i: int| 0 <= i < r.len() implies (#[trigger] r[i]).fields@
                == self@[r[i].name@] by {
                if descending {
                    lemma_objects_map_at(self.objects@, n - 1 - i);
                } else {
                    lemma_objects_map_at(self.objects@, i);
                }
            }
            assert forall|k: Seq<char>| (exists|i: int| 0 <= i < r.len() && (#[trigger] r[i]).name@ == k)
                implies self@.contains_key(k) by {
                let i = choose|i: int| 0 <= i < r.len() && (#[trigger] r[i]).name@ == k;
                if descending {
                    lemma_objects_map_at(self.objects@, n - 1 - i);
                } else {
                    lemma_objects_map_at(self.objects@, i);
                }
            }
            assert forall|i: int, j: int| 0 <= i < j < r.len() implies if descending {
                seq_less(r[j].name@, r[i].name@)
            } else {
                seq_less(r[i].name@, r[j].name@)
            } by {
                if descending {
                    assert(seq_less(self.objects[n - 1 - j].name@, self.objects[n - 1 - i].name@));
                } else {
                    assert(seq_less(self.objects[i].name@, self.objects[j].name@));
                }
            }
        }
        r
    }

    proof fn lemma_not_found(&self, name: Seq<char>, p: int)
        requires
            forall|i: int| 0 <= i < p ==> seq_less(#[trigger] self.objects[i].name@, name),
            forall|i: int|
                p <= i < self.objects.len() ==> seq_less(name, #[trigger] self.objects[i].name@),
        ensures
            !self@.contains_key(name),
    {
        lemma_seq_less_irreflexive(name);
        assert forall|i: int| 0 <= i < self.objects.len() implies self.objects[i].name@ != name by {
            if i < p {
                assert(seq_less(self.objects[i].name@, name));
            } else {
                assert(seq_less(name, self.objects[i].name@));
            }
        }
        lemma_absent_name(self.objects@, name);
    }
}

/// The field values of one watched object, by field path.
pub struct FieldStore {
    fields: ObjectStore,
}

impl View for FieldStore {
    type V = StoreMap;

    closed spec fn view(&self) -> StoreMap {
        self.fields@
    }
}

impl FieldStore {
    /// The values are kept well formed.
    pub closed spec fn wf(&self) -> bool {
        self.fields.wf()
    }

    /// No field values.
    pub fn new() -> (r: Self)
        ensures
            r.wf(),
            r@ == Map::<Seq<char>, Json>::empty(),
    {
        FieldStore { fields: ObjectStore::new() }
    }

    /// Forgets every field value.
    pub fn reset(&mut self)
        ensures
            final(self).wf(),
            final(self)@ == Map::<Seq<char>, Json>::empty(),
    {
        self.fields.reset();
    }

    /// Records the new value of one field; this always changes what is shown.
    pub fn update(&mut self, msg: WatchSingleEvent) -> (changed: bool)
        requires
            old(self).wf(),
        ensures
            final(self).wf(),
            changed,
            match msg {
                WatchSingleEvent::Update { field, value } => final(self)@ == old(self)@.insert(
                    field@,
                    value@,
                ),
            },
    {
        match msg {
            WatchSingleEvent::Update { field, value } => {
                self.fields.update(
                    WatchListEvent::Added { item: Object { name: field, fields: value } },
                )
            },
        }
    }

    /// The value last recorded for the field at `path`.
    pub fn get(&self, path: &str) -> (r: Option<&JsonValue>)
        requires
            self.wf(),
        ensures
            match r {
                Some(v) => self@.contains_key(path@) && v@ == self@[path@],
                None => !self@.contains_key(path@),
            },
    {
        match self.fields.get(path) {
            Some(o) => Some(&o.fields),
            None => None,
        }
    }
}

/// Applying a sequence of events one at a time is the same as applying its
/// first part and then the rest: the store depends only on the events, in order.
pub proof fn lemma_apply_events_concat(s: StoreMap, a: Seq<ListEvent>, b: Seq<ListEvent>)
    ensures
        apply_events(s, a + b) == apply_events(apply_events(s, a), b),
    decreases b.len(),
{
    if b.len() == 0 {
        assert(a + b =~= a);
    } else {
        assert((a + b).drop_last() =~= a + b.drop_last());
        lemma_apply_events_concat(s, a, b.drop_last());
    }
}

/// Feeding the store two runs of events, one after the other, leaves it as
/// feeding it both runs at once.
pub proof fn lemma_update_all_in_parts(s: StoreMap, es1: Seq<WatchListEvent>, es2: Seq<WatchListEvent>)
    ensures
        apply_events(apply_events(s, events_view(es1)), events_view(es2)) == apply_events(
            s,
            events_view(es1 + es2),
        ),
{
    assert(events_view(es1 + es2) =~= events_view(es1) + events_view(es2));
    lemma_apply_events_concat(s, events_view(es1), events_view(es2));
}

/// Removing an absent name leaves the store as it is and reports no change,
/// so a repeated removal changes nothing.
pub proof fn lemma_remove_absent(s: StoreMap, name: Seq<char>)
    ensures
        !s.contains_key(name) ==> apply_event(s, ListEvent::Removed { name }) == (s, false),
        apply_event(apply_event(s, ListEvent::Removed { name }).0, ListEvent::Removed { name }) == (
            apply_event(s, ListEvent::Removed { name }).0,
            false,
        ),
{
}

/// After a field update of a path that exists in the named object, reading
/// that path gives the new value.
pub proof fn lemma_field_update_then_get(s: StoreMap, name: Seq<char>, path: Seq<char>, value: Json)
    requires
        s.contains_key(name),
        json_get(s[name], path_segments(path)) is Some,
    ensures
        ({
            let (after, changed) = apply_event(s, ListEvent::FieldUpdate { name, path, value });
            &&& changed
            &&& after.contains_key(name)
            &&& json_get(after[name], path_segments(path)) == Some(value)
        }),
{
    lemma_set_fails_where_get_is_absent(s[name], path, value);
    lemma_get_after_set(s[name], path, value);
}

/// A clear empties the store, whatever came before it.
pub proof fn lemma_clear_empties(s: StoreMap, es: Seq<ListEvent>)
    ensures
        apply_events(s, es.push(ListEvent::Clear)) == Map::<Seq<char>, Json>::empty(),
{
    assert(es.push(ListEvent::Clear).drop_last() =~= es);
}

} // verus!
