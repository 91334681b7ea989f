use vstd::prelude::*;

use crate::text::{
    lemma_seq_less_asymmetric, lemma_seq_less_irreflexive, lemma_seq_less_total,
    lemma_seq_less_transitive, seq_less, str_less, views,
};

verus! {

/// Things that carry their own id, as a list of text parts.
pub trait HasId {
    spec fn spec_id(&self) -> Seq<Seq<char>>;

    fn id(&self) -> (r: Vec<String>)
        ensures
            views(r@) == self.spec_id(),
    ;
}

/// Whether two id lists are equal, part by part.
pub fn same_id(a: &Vec<String>, b: &Vec<String>) -> (r: bool)
    ensures
        r == (views(a@) == views(b@)),
{
    if a.len() != b.len() {
        proof {
            assert(views(a@).len() != views(b@).len());
        }
        return false;
    }
    for i in 0..a.len()
        invariant
            a.len() == b.len(),
            forall|j: int| 0 <= j < i ==> a[j]@ == b[j]@,
    {
        if !(a[i] == b[i]) {
            proof {
                assert(views(a@)[i as int] != views(b@)[i as int]);
            }
            return false;
        }
    }
    proof {
        assert(views(a@) =~= views(b@));
    }
    true
}

/// Order on ids: part by part, each part by [`seq_less`], a shorter id
/// before any longer one that it begins. It is the order of the parts as
/// `Ord` compares tuples of strings.
pub open spec fn id_less(a: Seq<Seq<char>>, b: Seq<Seq<char>>) -> bool
    decreases a.len(),
{
    if a.len() == 0 {
        b.len() > 0
    } else if b.len() == 0 {
        false
    } else if a[0] != b[0] {
        seq_less(a[0], b[0])
    } else {
        id_less(a.drop_first(), b.drop_first())
    }
}

/// No id sorts before itself.
pub proof fn lemma_id_less_irreflexive(a: Seq<Seq<char>>)
    ensures
        !id_less(a, a),
    decreases a.len(),
{
    if a.len() > 0 {
        lemma_id_less_irreflexive(a.drop_first());
    }
}

/// Two ids do not sort before each other.
pub proof fn lemma_id_less_asymmetric(a: Seq<Seq<char>>, b: Seq<Seq<char>>)
    ensures
        !(id_less(a, b) && id_less(b, a)),
    decreases a.len(),
{
    if a.len() > 0 && b.len() > 0 {
        if a[0] == b[0] {
            lemma_id_less_asymmetric(a.drop_first(), b.drop_first());
        } else {
            lemma_seq_less_asymmetric(a[0], b[0]);
        }
    }
}

/// Sorting before is transitive.
pub proof fn lemma_id_less_transitive(a: Seq<Seq<char>>, b: Seq<Seq<char>>, c: Seq<Seq<char>>)
    requires
        id_less(a, b),
        id_less(b, c),
    ensures
        id_less(a, c),
    decreases a.len(),
{
    if a.len() > 0 && b.len() > 0 && c.len() > 0 {
        if a[0] == b[0] && b[0] == c[0] {
            lemma_id_less_transitive(a.drop_first(), b.drop_first(), c.drop_first());
        } else if a[0] != b[0] && b[0] != c[0] {
            lemma_seq_less_transitive(a[0], b[0], c[0]);
            lemma_seq_less_irreflexive(a[0]);
        }
    }
}

/// Of two different ids, one sorts before the other.
pub proof fn lemma_id_less_total(a: Seq<Seq<char>>, b: Seq<Seq<char>>)
    ensures
        a == b || id_less(a, b) || id_less(b, a),
    decreases a.len(),
{
    if a.len() > 0 && b.len() > 0 {
        if a[0] == b[0] {
            lemma_id_less_total(a.drop_first(), b.drop_first());
            if a.drop_first() == b.drop_first() {
                assert(a =~= seq![a[0]] + a.drop_first());
                assert(b =~= seq![b[0]] + b.drop_first());
            }
        } else {
            lemma_seq_less_total(a[0], b[0]);
        }
    } else if a.len() == 0 && b.len() == 0 {
        assert(a =~= b);
    }
}

/// Whether id `a` sorts strictly before id `b`.
pub fn id_sorts_before(a: &Vec<String>, b: &Vec<String>) -> (r: bool)
    ensures
        r == id_less(views(a@), views(b@)),
{
    let ghost (va, vb) = (views(a@), views(b@));
    let mut i: usize = 0;
    proof {
        assert(va.skip(0) =~= va);
        assert(vb.skip(0) =~= vb);
    }
    while i < a.len() && i < b.len()
        invariant
            va == views(a@),
            vb == views(b@),
            i <= a.len(),
            i <= b.len(),
            id_less(va, vb) == id_less(va.skip(i as int), vb.skip(i as int)),
        decreases a.len() - i,
    {
        proof {
            assert(va.skip(i as int).drop_first() =~= va.skip(i + 1));
            assert(vb.skip(i as int).drop_first() =~= vb.skip(i + 1));
            assert(va.skip(i as int)[0] == a[i as int]@);
            assert(vb.skip(i as int)[0] == b[i as int]@);
        }
        if str_less(a[i].as_str(), b[i].as_str()) {
            proof {
                lemma_seq_less_irreflexive(a[i as int]@);
            }
            return true;
        }
        if str_less(b[i].as_str(), a[i].as_str()) {
            proof {
                lemma_seq_less_irreflexive(a[i as int]@);
                lemma_seq_less_asymmetric(a[i as int]@, b[i as int]@);
            }
            return false;
        }
        proof {
            lemma_seq_less_total(a[i as int]@, b[i as int]@);
        }
        i = i + 1;
    }
    a.len() < b.len()
}

/// A list of items, each under its own id, kept in ascending id order: an
/// item whose id is already present replaces the earlier one.
#[derive(Debug)]
pub struct IdMap<V> {
    items: Vec<V>,
}

/// The ids of `items` ascend strictly, so no two items share an id.
pub open spec fn ids_sorted<V: HasId>(items: Seq<V>) -> bool {
    forall|i: int, j: int|
        0 <= i < j < items.len() ==> id_less(
            (#[trigger] items[i]).spec_id(),
            (#[trigger] items[j]).spec_id(),
        )
}

/// `p` is where an item of id `id` stands among `s`: every id before it
/// sorts before `id`, and none from it on does.
pub open spec fn is_slot<V: HasId>(s: Seq<V>, id: Seq<Seq<char>>, p: int) -> bool {
    &&& 0 <= p <= s.len()
    &&& forall|i: int| 0 <= i < p ==> id_less((#[trigger] s[i]).spec_id(), id)
    &&& forall|i: int| p <= i < s.len() ==> !id_less((#[trigger] s[i]).spec_id(), id)
}

/// `s` with `item` added: in place of the item of the same id, else at the
/// position that keeps the ids ascending.
pub open spec fn id_insert<V: HasId>(s: Seq<V>, item: V) -> Seq<V> {
    if exists|i: int| 0 <= i < s.len() && s[i].spec_id() == item.spec_id() {
        s.update(choose|i: int| 0 <= i < s.len() && s[i].spec_id() == item.spec_id(), item)
    } else {
        s.insert(choose|p: int| is_slot(s, item.spec_id(), p), item)
    }
}

/// `s` with the items of `items` added in order.
pub open spec fn id_insert_all<V: HasId>(s: Seq<V>, items: Seq<V>) -> Seq<V>
    decreases items.len(),
{
    if items.len() == 0 {
        s
    } else {
        id_insert(id_insert_all(s, items.drop_last()), items.last())
    }
}

proof fn lemma_id_position<V: HasId>(s: Seq<V>, item: V, i: int)
    requires
        ids_sorted(s),
        0 <= i < s.len(),
        s[i].spec_id() == item.spec_id(),
    ensures
        id_insert(s, item) == s.update(i, item),
{
    let c = choose|c: int| 0 <= c < s.len() && s[c].spec_id() == item.spec_id();
    lemma_id_less_irreflexive(item.spec_id());
    if c < i {
        assert(id_less(s[c].spec_id(), s[i].spec_id()));
    } else if c > i {
        assert(id_less(s[i].spec_id(), s[c].spec_id()));
    }
}

proof fn lemma_slot_unique<V: HasId>(s: Seq<V>, id: Seq<Seq<char>>, p: int)
    requires
        is_slot(s, id, p),
    ensures
        (choose|q: int| is_slot(s, id, q)) == p,
{
    let q = choose|q: int| is_slot(s, id, q);
    assert(is_slot(s, id, q));
    if q < p {
        assert(id_less(s[q].spec_id(), id));
    } else if q > p {
        assert(!id_less(s[p].spec_id(), id));
    }
}

impl<V: HasId> IdMap<V> {
    /// The items, in ascending id order.
    pub closed spec fn items(&self) -> Seq<V> {
        self.items@
    }

    /// The ids ascend strictly.
    pub open spec fn wf(&self) -> bool {
        ids_sorted(self.items())
    }

    /// An empty map.
    pub fn new() -> (r: Self)
        ensures
            r.wf(),
            r.items() == Seq::<V>::empty(),
    {
        IdMap { items: Vec::new() }
    }

    /// Where the item with id `id` stands, if there is one.
    fn position(&self, id: &Vec<String>) -> (r: Option<usize>)
        ensures
            match r {
                Some(i) => i < self.items().len() && self.items()[i as int].spec_id() == views(id@),
                None => forall|j: int|
                    0 <= j < self.items().len() ==> (#[trigger] self.items()[j]).spec_id() != views(id@),
            },
    {
        for i in 0..self.items.len()
            invariant
                forall|j: int| 0 <= j < i ==> (#[trigger] self.items@[j]).spec_id() != views(id@),
        {
            if same_id(&self.items[i].id(), id) {
                return Some(i);
            }
        }
        None
    }

    /// Adds `item`: in place of the item of the same id if there is one, else
    /// where it keeps the ids ascending.
    pub fn insert(&mut self, item: V)
        requires
            old(self).wf(),
        ensures
            final(self).wf(),
            final(self).items() == id_insert(old(self).items(), item),
    {
        let id = item.id();
        let ghost k = item.spec_id();
        let n = self.items.len();
        let mut p: usize = 0;
        while p < n && id_sorts_before(&self.items[p].id(), &id)
            invariant
                n == self.items.len(),
                p <= n,
                views(id@) == k,
                forall|i: int| 0 <= i < p ==> id_less((#[trigger] self.items@[i]).spec_id(), k),
            decreases n - p,
        {
            p = p + 1;
        }
        let ghost before = self.items@;
        proof {
            lemma_id_less_irreflexive(k);
            assert forall|i: int| 0 <= i < before.len() && i != p implies (#[trigger] before[i]).spec_id()
                != k by {
                if i > p {
                    assert(id_less(before[p as int].spec_id(), before[i].spec_id()));
                    if before[i].spec_id() == k {
                        assert(!id_less(before[p as int].spec_id(), k));
                    }
                }
            }
        }
        if p < n && same_id(&self.items[p].id(), &id) {
            proof {
                lemma_id_position(before, item, p as int);
            }
            self.items.set(p, item);
            proof {
                let s = self.items@;
                assert forall|a: int, b: int| 0 <= a < b < s.len() implies id_less(
                    (#[trigger] s[a]).spec_id(),
                    (#[trigger] s[b]).spec_id(),
                ) by {
                    assert(id_less(before[a].spec_id(), before[b].spec_id()));
                }
            }
        } else {
            proof {
                if p < n {
                    lemma_id_less_total(before[p as int].spec_id(), k);
                }
                assert forall|i: int| p <= i < before.len() implies id_less(
                    k,
                    (#[trigger] before[i]).spec_id(),
                ) by {
                    lemma_id_less_total(before[p as int].spec_id(), k);
                    if i > p {
                        assert(id_less(before[p as int].spec_id(), before[i].spec_id()));
                        lemma_id_less_transitive(k, before[p as int].spec_id(), before[i].spec_id());
                    }
                }
                assert forall|i: int| p <= i < before.len() implies !id_less(
                    (#[trigger] before[i]).spec_id(),
                    k,
                ) by {
                    lemma_id_less_asymmetric(k, before[i].spec_id());
                }
                assert(is_slot(before, k, p as int));
                lemma_slot_unique(before, k, p as int);
                assert(!(exists|i: int| 0 <= i < before.len() && before[i].spec_id() == k));
            }
            self.items.insert(p, item);
            proof {
                let s = self.items@;
                assert forall|a: int, b: int| 0 <= a < b < s.len() implies id_less(
                    (#[trigger] s[a]).spec_id(),
                    (#[trigger] s[b]).spec_id(),
                ) by {
                    if b < p {
                        assert(id_less(before[a].spec_id(), before[b].spec_id()));
                    } else if b == p {
                    } else if a < p {
                        assert(id_less(before[a].spec_id(), k));
                        assert(id_less(k, before[b - 1].spec_id()));
                        lemma_id_less_transitive(before[a].spec_id(), k, before[b - 1].spec_id());
                    } else if a == p {
                    } else {
                        assert(id_less(before[a - 1].spec_id(), before[b - 1].spec_id()));
                    }
                }
            }
        }
    }

    /// Builds a map from a list, as it is read from the server: items are
    /// added in order, a later one replacing an earlier one of the same id,
    /// and the map holds them in ascending id order.
    pub fn from_items(items: Vec<V>) -> (r: Self)
        ensures
            r.wf(),
            r.items() == id_insert_all(Seq::<V>::empty(), items@),
    {
        let mut r: IdMap<V> = IdMap::new();
        let ghost all = items@;
        proof {
            assert(all.take(0) =~= Seq::<V>::empty());
        }
        for item in it: items.into_iter()
            invariant
                it.seq() == all,
                r.wf(),
                r.items() == id_insert_all(Seq::<V>::empty(), all.take(it.index() as int)),
        {
            proof {
                let n = it.index() as int;
                assert(all.take(n + 1).drop_last() =~= all.take(n));
                assert(item == all[n]);
            }
            r.insert(item);
        }
        proof {
            assert(all.take(all.len() as int) =~= all);
        }
        r
    }

    /// The items, in ascending id order.
    pub fn values(&self) -> (r: &Vec<V>)
        ensures
            r@ == self.items(),
            self.wf() ==> ids_sorted(r@),
    {
        &self.items
    }

    /// The item whose id is `id`, if any.
    pub fn get(&self, id: &Vec<String>) -> (r: Option<&V>)
        ensures
            match r {
                Some(v) => v.spec_id() == views(id@) && self.items().contains(*v),
                None => forall|j: int|
                    0 <= j < self.items().len() ==> (#[trigger] self.items()[j]).spec_id() != views(id@),
            },
    {
        match self.position(id) {
            Some(i) => Some(&self.items[i]),
            None => None,
        }
    }
}

} // verus!
