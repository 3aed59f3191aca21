//! A table of objects by their registry id, walked in increasing order of id.

use vstd::prelude::*;

verus! {

pub open spec fn ids_increase<V>(s: Seq<(u32, V)>) -> bool {
    forall|i: int, j: int| 0 <= i < j < s.len() ==> s[i].0 < s[j].0
}

pub open spec fn has_id<V>(s: Seq<(u32, V)>, id: u32) -> bool {
    exists|i: int| 0 <= i < s.len() && s[i].0 == id
}

/// What a walk over `s` finds under each id.
pub open spec fn table_map<V>(s: Seq<(u32, V)>) -> Map<u32, V> {
    Map::new(
        |id: u32| has_id(s, id),
        |id: u32| s[choose|i: int| 0 <= i < s.len() && s[i].0 == id].1,
    )
}

/// Values by id. A walk by position meets the ids in increasing order.
#[derive(Debug)]
pub struct IdTable<V> {
    entries: Vec<(u32, V)>,
}

impl<V> View for IdTable<V> {
    type V = Map<u32, V>;

    open spec fn view(&self) -> Map<u32, V> {
        table_map(self.entries())
    }
}

/// Under the id of an entry stands the value of that entry.
pub proof fn lemma_entry_in_map<V>(s: Seq<(u32, V)>, i: int)
    requires
        ids_increase(s),
        0 <= i < s.len(),
    ensures
        table_map(s).contains_key(s[i].0),
        table_map(s)[s[i].0] == s[i].1,
{
    let id = s[i].0;
    assert(has_id(s, id));
    let j = choose|j: int| 0 <= j < s.len() && s[j].0 == id;
    assert(i == j) by {
        if i < j {
        } else if j < i {
        }
    }
}

/// Two walks in increasing order that find the same are the same walk.
pub proof fn lemma_map_determines_entries<V>(a: Seq<(u32, V)>, b: Seq<(u32, V)>)
    requires
        ids_increase(a),
        ids_increase(b),
        table_map(a) == table_map(b),
    ensures
        a == b,
    decreases a.len(),
{
    if a.len() == 0 || b.len() == 0 {
        if b.len() > 0 {
            lemma_entry_in_map(b, 0);
            assert(has_id(a, b[0].0));
        }
        if a.len() > 0 {
            lemma_entry_in_map(a, 0);
            assert(has_id(b, a[0].0));
        }
        assert(a =~= b);
    } else {
        let p = a.len() - 1;
        let q = b.len() - 1;
        lemma_entry_in_map(a, p);
        lemma_entry_in_map(b, q);
        assert(has_id(b, a[p].0));
        assert(has_id(a, b[q].0));
        let x = choose|i: int| 0 <= i < b.len() && b[i].0 == a[p].0;
        let y = choose|i: int| 0 <= i < a.len() && a[i].0 == b[q].0;
        assert(a[p].0 == b[q].0) by {
            assert(x <= q && y <= p);
            assert(x < q ==> b[x].0 < b[q].0);
            assert(y < p ==> a[y].0 < a[p].0);
        }
        assert(a[p] == b[q]);
        let c = a.drop_last();
        let d = b.drop_last();
        lemma_drop_last_map(a);
        lemma_drop_last_map(b);
        lemma_map_determines_entries(c, d);
        assert(a =~= c.push(a[p]));
        assert(b =~= d.push(b[q]));
    }
}

proof fn lemma_drop_last_map<V>(a: Seq<(u32, V)>)
    requires
        ids_increase(a),
        a.len() > 0,
    ensures
        ids_increase(a.drop_last()),
        table_map(a.drop_last()) == table_map(a).remove(a.last().0),
{
    let c = a.drop_last();
    let last = a.last().0;
    assert forall|id: u32| has_id(c, id) == (id != last && has_id(a, id)) by {
        if has_id(c, id) {
            let i = choose|i: int| 0 <= i < c.len() && c[i].0 == id;
            assert(a[i].0 == id);
        }
        if id != last && has_id(a, id) {
            let i = choose|i: int| 0 <= i < a.len() && a[i].0 == id;
            assert(c[i].0 == id);
        }
    }
    assert forall|id: u32| has_id(c, id) implies table_map(c)[id] == table_map(a)[id] by {
        let i = choose|i: int| 0 <= i < c.len() && c[i].0 == id;
        lemma_entry_in_map(c, i);
        assert(a[i] == c[i]);
        lemma_entry_in_map(a, i);
    }
    assert(table_map(c) =~= table_map(a).remove(last));
}

impl<V> IdTable<V> {
    #[verifier::type_invariant]
    pub closed spec fn ordered(self) -> bool {
        ids_increase(self.entries@)
    }

    /// The entries in the order of a walk.
    pub closed spec fn entries(&self) -> Seq<(u32, V)> {
        self.entries@
    }

    pub fn new() -> (r: Self)
        ensures
            r.entries() == Seq::<(u32, V)>::empty(),
            r@ == Map::<u32, V>::empty(),
    {
        let r = IdTable { entries: Vec::new() };
        assert(r@ =~= Map::<u32, V>::empty());
        r
    }

    pub fn len(&self) -> (n: usize)
        ensures
            n == self.entries().len(),
    {
        self.entries.len()
    }

    pub fn is_empty(&self) -> (r: bool)
        ensures
            r == (self.entries().len() == 0),
    {
        self.entries.len() == 0
    }

    pub fn id_at(&self, i: usize) -> (id: u32)
        requires
            i < self.entries().len(),
        ensures
            id == self.entries()[i as int].0,
    {
        self.entries[i].0
    }

    pub fn value_at(&self, i: usize) -> (v: &V)
        requires
            i < self.entries().len(),
        ensures
            *v == self.entries()[i as int].1,
            ids_increase(self.entries()),
    {
        proof {
            use_type_invariant(self);
        }
        &self.entries[i].1
    }

    /// The first position whose id is not below `id`.
    fn position(&self, id: u32) -> (p: usize)
        ensures
            p <= self.entries@.len(),
            forall|i: int| 0 <= i < p ==> self.entries@[i].0 < id,
            forall|i: int| p <= i < self.entries@.len() ==> self.entries@[i].0 >= id,
    {
        proof {
            use_type_invariant(self);
        }
        let mut p: usize = 0;
        while p < self.entries.len() && self.entries[p].0 < id
            invariant
                p <= self.entries@.len(),
                forall|i: int| 0 <= i < p ==> self.entries@[i].0 < id,
            decreases self.entries@.len() - p,
        {
            p = p + 1;
        }
        p
    }

    pub fn get(&self, id: u32) -> (r: Option<&V>)
        ensures
            match r {
                Some(v) => self@.contains_key(id) && *v == self@[id],
                None => !self@.contains_key(id),
            },
    {
        proof {
            use_type_invariant(self);
        }
        let p = self.position(id);
        if p < self.entries.len() && self.entries[p].0 == id {
            proof {
                lemma_entry_in_map(self.entries@, p as int);
            }
            Some(&self.entries[p].1)
        } else {
            None
        }
    }

    pub fn contains(&self, id: u32) -> (r: bool)
        ensures
            r == self@.contains_key(id),
    {
        self.get(id).is_some()
    }

    /// Puts `value` under `id`, in place of what stood there.
    pub fn insert(&mut self, id: u32, value: V)
        ensures
            final(self)@ == old(self)@.insert(id, value),
            ids_increase(final(self).entries()),
    {
        proof {
            use_type_invariant(&*self);
        }
        let p = self.position(id);
        let mut v: Vec<(u32, V)> = Vec::new();
        std::mem::swap(&mut v, &mut self.entries);
        let ghost before = v@;
        if p < v.len() && v[p].0 == id {
            v.set(p, (id, value));
        } else {
            v.insert(p, (id, value));
        }
        proof {
            let s = v@;
            assert(ids_increase(s));
            let here = if p < before.len() && before[p as int].0 == id {
                1int
            } else {
                0int
            };
            assert forall|k: u32| has_id(s, k) == (k == id || has_id(before, k)) by {
                if has_id(s, k) {
                    let i = choose|i: int| 0 <= i < s.len() && s[i].0 == k;
                    if i < p {
                        assert(before[i].0 == k);
                    } else if i > p {
                        assert(before[i - 1 + here].0 == k);
                    }
                }
                if has_id(before, k) {
                    let i = choose|i: int| 0 <= i < before.len() && before[i].0 == k;
                    if i < p {
                        assert(s[i].0 == k);
                    } else {
                        assert(i == p && here == 1 || s[i + 1 - here].0 == k);
                    }
                }
                assert(s[p as int].0 == id);
            }
            assert forall|k: u32| has_id(s, k) implies table_map(s)[k] == table_map(before).insert(
                id,
                value,
            )[k] by {
                let i = choose|i: int| 0 <= i < s.len() && s[i].0 == k;
                lemma_entry_in_map(s, i);
                if i < p {
                    assert(before[i] == s[i]);
                    lemma_entry_in_map(before, i);
                } else if i > p {
                    assert(before[i - 1 + here] == s[i]);
                    lemma_entry_in_map(before, i - 1 + here);
                }
            }
            assert(table_map(s) =~= table_map(before).insert(id, value));
        }
        self.entries = v;
    }

    /// Takes out what stands under `id`.
    pub fn remove(&mut self, id: u32) -> (r: Option<V>)
        ensures
            final(self)@ == old(self)@.remove(id),
            match r {
                Some(v) => old(self)@.contains_key(id) && v == old(self)@[id],
                None => !old(self)@.contains_key(id),
            },
    {
        proof {
            use_type_invariant(&*self);
        }
        let p = self.position(id);
        if p < self.entries.len() && self.entries[p].0 == id {
            let mut v: Vec<(u32, V)> = Vec::new();
            std::mem::swap(&mut v, &mut self.entries);
            let ghost before = v@;
            let taken = v.remove(p);
            proof {
                let s = v@;
                lemma_entry_in_map(before, p as int);
                assert forall|k: u32| has_id(s, k) == (k != id && has_id(before, k)) by {
                    if has_id(s, k) {
                        let i = choose|i: int| 0 <= i < s.len() && s[i].0 == k;
                        if i < p {
                            assert(before[i].0 == k);
                        } else {
                            assert(before[i + 1].0 == k);
                        }
                    }
                    if k != id && has_id(before, k) {
                        let i = choose|i: int| 0 <= i < before.len() && before[i].0 == k;
                        if i < p {
                            assert(s[i].0 == k);
                        } else {
                            assert(s[i - 1].0 == k);
                        }
                    }
                }
                assert forall|k: u32| has_id(s, k) implies table_map(s)[k] == table_map(
                    before,
                )[k] by {
                    let i = choose|i: int| 0 <= i < s.len() && s[i].0 == k;
                    lemma_entry_in_map(s, i);
                    if i < p {
                        assert(before[i] == s[i]);
                        lemma_entry_in_map(before, i);
                    } else {
                        assert(before[i + 1] == s[i]);
                        lemma_entry_in_map(before, i + 1);
                    }
                }
                assert(table_map(s) =~= table_map(before).remove(id));
            }
            self.entries = v;
            Some(taken.1)
        } else {
            proof {
                assert(!has_id(self.entries@, id));
                assert(self@ =~= self@.remove(id));
            }
            None
        }
    }
}

impl<V: Clone> Clone for IdTable<V> {
    fn clone(&self) -> (r: Self)
        ensures
            r.entries().len() == self.entries().len(),
            forall|i: int|
                0 <= i < r.entries().len() ==> (#[trigger] r.entries()[i]).0 == self.entries()[i].0
                    && cloned(self.entries()[i].1, r.entries()[i].1),
            ids_increase(self.entries()),
            ids_increase(r.entries()),
    {
        proof {
            use_type_invariant(self);
        }
        let mut v: Vec<(u32, V)> = Vec::new();
        let mut i: usize = 0;
        while i < self.entries.len()
            invariant
                i <= self.entries@.len(),
                v@.len() == i,
                forall|j: int|
                    0 <= j < i ==> (#[trigger] v@[j]).0 == self.entries@[j].0 && cloned(
                        self.entries@[j].1,
                        v@[j].1,
                    ),
            decreases self.entries@.len() - i,
        {
            v.push((self.entries[i].0, self.entries[i].1.clone()));
            i = i + 1;
        }
        IdTable { entries: v }
    }
}

impl<V> Default for IdTable<V> {
    fn default() -> (r: Self)
        ensures
            r.entries() == Seq::<(u32, V)>::empty(),
            r@ == Map::<u32, V>::empty(),
    {
        IdTable::new()
    }
}

} // verus!
