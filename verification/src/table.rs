//! One category of the store: records kept in ascending order of their identifiers.

use vstd::prelude::*;
use crate::entity::{views_of, Entity, Id};

verus! {

/// The records of one category, at most one per identifier.
pub struct Table<T: Entity> {
    rows: Vec<T>,
    defined: bool,
}

/// Identifiers strictly ascend along `s`.
pub open spec fn ascending<T: Entity>(s: Seq<T::V>) -> bool {
    forall|i: int, j: int| 0 <= i < j < s.len() ==> T::id_of(#[trigger] s[i]) < T::id_of(#[trigger] s[j])
}

/// Some element of `s` carries the identifier `id`.
pub open spec fn occurs<T: Entity>(s: Seq<T::V>, id: Id) -> bool {
    exists|i: int| 0 <= i < s.len() && T::id_of(#[trigger] s[i]) == id
}

/// The position in `s` of an element that carries `id`.
pub open spec fn position_of<T: Entity>(s: Seq<T::V>, id: Id) -> int {
    choose|i: int| 0 <= i < s.len() && T::id_of(#[trigger] s[i]) == id
}

/// The map from identifier to view that the sequence `s` stands for.
pub open spec fn as_map<T: Entity>(s: Seq<T::V>) -> Map<Id, T::V> {
    Map::new(|id: Id| occurs::<T>(s, id), |id: Id| s[position_of::<T>(s, id)])
}

/// `listing` enumerates `m` exactly once per key, in ascending order of the keys.
pub open spec fn lists<T: Entity>(listing: Seq<T::V>, m: Map<Id, T::V>) -> bool {
    &&& ascending::<T>(listing)
    &&& forall|i: int| 0 <= i < listing.len() ==> {
        &&& m.contains_key(T::id_of(#[trigger] listing[i]))
        &&& m[T::id_of(listing[i])] == listing[i]
    }
    &&& forall|id: Id| m.contains_key(id) ==> occurs::<T>(listing, id)
}

/// `id` is the identifier that follows the largest one in use: one where none is in
/// use.
pub open spec fn is_next_id<V>(m: Map<Id, V>, id: Id) -> bool {
    &&& id >= 1
    &&& forall|k: Id| m.contains_key(k) ==> k < id
    &&& (id == 1 || m.contains_key((id - 1) as usize))
}

/// The identifier that the next new record gets, if the machine has one left.
pub open spec fn next_id<V>(m: Map<Id, V>) -> Option<Id> {
    if exists|id: Id| is_next_id(m, id) {
        Some(choose|id: Id| is_next_id(m, id))
    } else {
        None
    }
}

/// At most one identifier follows the largest one in use.
pub proof fn lemma_next_id_unique<V>(m: Map<Id, V>, a: Id, b: Id)
    requires
        is_next_id(m, a),
        is_next_id(m, b),
    ensures
        a == b,
{
    if a != 1 {
        assert(m.contains_key((a - 1) as usize));
    }
    if b != 1 {
        assert(m.contains_key((b - 1) as usize));
    }
}

/// The record as the store keeps it: `e` itself where it has an identifier, `e` under
/// the next free identifier where it has none, nothing where none is left.
pub open spec fn assign<T: Entity>(m: Map<Id, T::V>, e: T::V) -> Option<T::V> {
    if T::id_of(e) != 0 {
        Some(e)
    } else {
        match next_id(m) {
            Some(id) => Some(T::with_id(e, id)),
            None => None,
        }
    }
}

proof fn lemma_position<T: Entity>(s: Seq<T::V>, i: int)
    requires
        ascending::<T>(s),
        0 <= i < s.len(),
    ensures
        occurs::<T>(s, T::id_of(s[i])),
        position_of::<T>(s, T::id_of(s[i])) == i,
        as_map::<T>(s).contains_key(T::id_of(s[i])),
        as_map::<T>(s)[T::id_of(s[i])] == s[i],
{
    let id = T::id_of(s[i]);
    let p = position_of::<T>(s, id);
    assert(0 <= p < s.len() && T::id_of(s[p]) == id);
    if p < i {
        assert(T::id_of(s[p]) < T::id_of(s[i]));
    }
    if i < p {
        assert(T::id_of(s[i]) < T::id_of(s[p]));
    }
}

/// The map that results from storing the records of `rows` one after the other, each
/// under its own identifier.
pub open spec fn table_of<T: Entity>(rows: Seq<T::V>) -> Map<Id, T::V>
    decreases rows.len(),
{
    if rows.len() == 0 {
        Map::empty()
    } else {
        table_of::<T>(rows.drop_last()).insert(T::id_of(rows.last()), rows.last())
    }
}

/// Storing the records of an ascending sequence one after the other gives the map that
/// the sequence stands for.
pub proof fn lemma_table_of<T: Entity>(rows: Seq<T::V>)
    requires
        ascending::<T>(rows),
    ensures
        table_of::<T>(rows) == as_map::<T>(rows),
    decreases rows.len(),
{
    if rows.len() == 0 {
        assert(as_map::<T>(rows) =~= Map::<Id, T::V>::empty());
    } else {
        let front = rows.drop_last();
        let last = rows.last();
        let n = rows.len() - 1;
        assert forall|i: int, j: int| 0 <= i < j < front.len() implies T::id_of(
            #[trigger] front[i],
        ) < T::id_of(#[trigger] front[j]) by {
            assert(T::id_of(rows[i]) < T::id_of(rows[j]));
        }
        lemma_table_of::<T>(front);
        let left = as_map::<T>(front).insert(T::id_of(last), last);
        let right = as_map::<T>(rows);
        assert forall|k: Id| left.contains_key(k) == right.contains_key(k) by {
            if occurs::<T>(front, k) {
                let p = position_of::<T>(front, k);
                assert(T::id_of(rows[p]) == k);
            }
            if occurs::<T>(rows, k) {
                let p = position_of::<T>(rows, k);
                if p < n {
                    assert(T::id_of(front[p]) == k);
                }
            }
            if k == T::id_of(last) {
                assert(T::id_of(rows[n]) == k);
            }
        }
        assert forall|k: Id| right.contains_key(k) implies left[k] == right[k] by {
            let p = position_of::<T>(rows, k);
            assert(T::id_of(rows[p]) == k);
            lemma_position::<T>(rows, p);
            lemma_position::<T>(rows, n);
            if p < n {
                assert(front[p] == rows[p]);
                lemma_position::<T>(front, p);
                assert(T::id_of(rows[p]) < T::id_of(rows[n]));
            }
        }
        assert(left =~= right);
    }
}

/// Storing a listing of a map record by record gives the map back.
pub proof fn lemma_listing_round_trip<T: Entity>(listing: Seq<T::V>, m: Map<Id, T::V>)
    requires
        lists::<T>(listing, m),
    ensures
        table_of::<T>(listing) == m,
{
    lemma_table_of::<T>(listing);
    let a = as_map::<T>(listing);
    assert forall|k: Id| a.contains_key(k) == m.contains_key(k) by {
        if occurs::<T>(listing, k) {
            let p = position_of::<T>(listing, k);
            assert(T::id_of(listing[p]) == k);
        }
    }
    assert forall|k: Id| a.contains_key(k) implies a[k] == m[k] by {
        let p = position_of::<T>(listing, k);
        assert(T::id_of(listing[p]) == k);
        lemma_position::<T>(listing, p);
    }
    assert(a =~= m);
}

proof fn lemma_absent<T: Entity>(s: Seq<T::V>, id: Id, at: int)
    requires
        ascending::<T>(s),
        0 <= at <= s.len(),
        forall|k: int| 0 <= k < at ==> T::id_of(#[trigger] s[k]) < id,
        forall|k: int| at <= k < s.len() ==> T::id_of(#[trigger] s[k]) >= id,
        at < s.len() ==> T::id_of(s[at]) != id,
    ensures
        !occurs::<T>(s, id),
        !as_map::<T>(s).contains_key(id),
{
    if occurs::<T>(s, id) {
        let p = position_of::<T>(s, id);
        assert(0 <= p < s.len() && T::id_of(s[p]) == id);
        if p > at {
            assert(T::id_of(s[at]) < T::id_of(s[p]));
        }
    }
}

proof fn lemma_lists<T: Entity>(s: Seq<T::V>)
    requires
        ascending::<T>(s),
    ensures
        lists::<T>(s, as_map::<T>(s)),
{
    assert forall|i: int| 0 <= i < s.len() implies {
        &&& as_map::<T>(s).contains_key(T::id_of(#[trigger] s[i]))
        &&& as_map::<T>(s)[T::id_of(s[i])] == s[i]
    } by {
        lemma_position::<T>(s, i);
    }
}

impl<T: Entity> Table<T> {
    #[verifier::type_invariant]
    closed spec fn well_formed(self) -> bool {
        &&& ascending::<T>(views_of(self.rows@))
        &&& self.rows@.len() > 0 ==> self.defined
    }

    /// The views of the stored records, in ascending order of their identifiers.
    pub closed spec fn entries(self) -> Seq<T::V> {
        views_of(self.rows@)
    }

    /// Whether the category exists in the store, which it does once a record was put
    /// into it or a removal was attempted on it.
    pub closed spec fn is_defined(self) -> bool {
        self.defined
    }

    /// An empty category that the store has not touched yet.
    pub fn new() -> (table: Self)
        ensures
            table@ == Map::<Id, T::V>::empty(),
            !table.is_defined(),
    {
        let table = Table { rows: Vec::new(), defined: false };
        assert(table@ =~= Map::<Id, T::V>::empty());
        table
    }

    /// A category made of `rows`, each stored under its own identifier; where two carry
    /// the same one, the later stays.
    pub fn from_rows(rows: &Vec<T>) -> (table: Self)
        ensures
            table@ == table_of::<T>(views_of(rows@)),
            table.is_defined(),
    {
        let mut table = Table { rows: Vec::new(), defined: true };
        let ghost all = views_of(rows@);
        let mut i: usize = 0;
        proof {
            assert(table@ =~= Map::<Id, T::V>::empty());
            assert(all.take(0) =~= Seq::<T::V>::empty());
        }
        while i < rows.len()
            invariant
                i <= rows@.len(),
                all == views_of(rows@),
                table@ == table_of::<T>(all.take(i as int)),
                table.is_defined(),
            decreases rows@.len() - i,
        {
            proof {
                let longer = all.take(i + 1);
                assert(longer.drop_last() =~= all.take(i as int));
                assert(longer.last() == rows@[i as int]@);
            }
            table.put(rows[i].duplicate());
            i += 1;
        }
        proof {
            assert(all.take(i as int) =~= all);
        }
        table
    }

    /// Whether the store has touched this category. One that it has not touched holds
    /// no record.
    pub fn defined(&self) -> (r: bool)
        ensures
            r == self.is_defined(),
            !r ==> self@ == Map::<Id, T::V>::empty(),
    {
        proof {
            use_type_invariant(self);
            if !self.defined {
                assert(self@ =~= Map::<Id, T::V>::empty());
            }
        }
        self.defined
    }

    /// Marks the category as existing, without changing its records.
    pub fn define(&mut self)
        ensures
            final(self)@ == old(self)@,
            final(self).is_defined(),
    {
        proof {
            use_type_invariant(&*self);
        }
        self.defined = true;
    }

    /// The position of the first record whose identifier is at least `id`.
    fn lower_bound(&self, id: Id) -> (at: usize)
        ensures
            at <= self.rows@.len(),
            forall|k: int| 0 <= k < at ==> T::id_of(#[trigger] self.entries()[k]) < id,
            forall|k: int| at <= k < self.rows@.len() ==> T::id_of(#[trigger] self.entries()[k]) >= id,
    {
        proof {
            use_type_invariant(self);
        }
        let mut at: usize = 0;
        while at < self.rows.len()
            invariant
                at <= self.rows@.len(),
                ascending::<T>(views_of(self.rows@)),
                forall|k: int| 0 <= k < at ==> T::id_of(#[trigger] self.entries()[k]) < id,
            decreases self.rows@.len() - at,
        {
            if self.rows[at].get_id() >= id {
                assert forall|k: int| at <= k < self.rows@.len() implies T::id_of(
                    #[trigger] self.entries()[k],
                ) >= id by {
                    if at < k {
                        assert(T::id_of(self.entries()[at as int]) < T::id_of(self.entries()[k]));
                    }
                }
                return at;
            }
            at += 1;
        }
        at
    }

    /// Whether a record with this identifier is stored.
    pub fn contains(&self, id: Id) -> (r: bool)
        ensures
            r == self@.contains_key(id),
    {
        proof {
            use_type_invariant(self);
        }
        let at = self.lower_bound(id);
        if at < self.rows.len() && self.rows[at].get_id() == id {
            proof {
                lemma_position::<T>(self.entries(), at as int);
            }
            true
        } else {
            proof {
                lemma_absent::<T>(self.entries(), id, at as int);
            }
            false
        }
    }

    /// A copy of the record stored under `id`, if there is one.
    pub fn get(&self, id: Id) -> (r: Option<T>)
        ensures
            r.is_some() == self@.contains_key(id),
            r matches Some(e) ==> e@ == self@[id],
    {
        proof {
            use_type_invariant(self);
        }
        let at = self.lower_bound(id);
        if at < self.rows.len() && self.rows[at].get_id() == id {
            proof {
                lemma_position::<T>(self.entries(), at as int);
            }
            Some(self.rows[at].duplicate())
        } else {
            proof {
                lemma_absent::<T>(self.entries(), id, at as int);
            }
            None
        }
    }

    /// The record stored under `id`, if there is one.
    pub fn find(&self, id: Id) -> (r: Option<&T>)
        ensures
            r.is_some() == self@.contains_key(id),
            r matches Some(e) ==> e@ == self@[id] && T::id_of(e@) == id,
    {
        proof {
            use_type_invariant(self);
        }
        let at = self.lower_bound(id);
        if at < self.rows.len() && self.rows[at].get_id() == id {
            proof {
                lemma_position::<T>(self.entries(), at as int);
            }
            Some(&self.rows[at])
        } else {
            proof {
                lemma_absent::<T>(self.entries(), id, at as int);
            }
            None
        }
    }

    /// Every record is stored under the identifier that it carries.
    pub proof fn lemma_keyed(self)
        ensures
            forall|id: Id| self@.contains_key(id) ==> T::id_of(#[trigger] self@[id]) == id,
    {
        assert forall|id: Id| self@.contains_key(id) implies T::id_of(#[trigger] self@[id])
            == id by {
            let s = self.entries();
            let p = position_of::<T>(s, id);
            assert(0 <= p < s.len() && T::id_of(s[p]) == id);
        }
    }

    /// The largest identifier in use, if any record is stored.
    pub fn max_id(&self) -> (r: Option<Id>)
        ensures
            r.is_none() == (self@ == Map::<Id, T::V>::empty()),
            r matches Some(m) ==> self@.contains_key(m) && forall|id: Id|
                self@.contains_key(id) ==> id <= m,
    {
        proof {
            use_type_invariant(self);
        }
        let n = self.rows.len();
        if n == 0 {
            assert(self@ =~= Map::<Id, T::V>::empty());
            None
        } else {
            let m = self.rows[n - 1].get_id();
            proof {
                lemma_position::<T>(self.entries(), n - 1);
                assert forall|id: Id| self@.contains_key(id) implies id <= m by {
                    let p = position_of::<T>(self.entries(), id);
                    assert(T::id_of(self.entries()[p]) == id);
                    if p < n - 1 {
                        assert(T::id_of(self.entries()[p]) < T::id_of(self.entries()[n - 1]));
                    }
                }
                assert(self@ != Map::<Id, T::V>::empty());
            }
            Some(m)
        }
    }

    /// The identifier that the next new record gets, if the machine has one left.
    pub fn next_id(&self) -> (r: Option<Id>)
        ensures
            r == next_id(self@),
    {
        match self.max_id() {
            None => {
                proof {
                    assert(is_next_id(self@, 1));
                    lemma_next_id_unique(self@, 1, choose|id: Id| is_next_id(self@, id));
                }
                Some(1)
            },
            Some(m) => {
                if m == usize::MAX {
                    None
                } else {
                    proof {
                        let n = (m + 1) as usize;
                        assert(is_next_id(self@, n));
                        lemma_next_id_unique(self@, n, choose|id: Id| is_next_id(self@, id));
                    }
                    Some(m + 1)
                }
            },
        }
    }

    /// Stores `entity`, under its own identifier where it has one and under the next
    /// free one where it has none, and returns a copy of what was stored. Where no
    /// identifier is left, nothing is stored.
    pub fn store(&mut self, entity: T) -> (r: Option<T>)
        ensures
            match assign::<T>(old(self)@, entity@) {
                Some(stored) => {
                    &&& r matches Some(e)
                    &&& e@ == stored
                    &&& final(self)@ == old(self)@.insert(T::id_of(stored), stored)
                    &&& final(self).is_defined()
                },
                None => {
                    &&& r is None
                    &&& final(self)@ == old(self)@
                    &&& final(self).is_defined() == old(self).is_defined()
                },
            },
    {
        let mut entity = entity;
        if entity.get_id() == 0 {
            match self.next_id() {
                None => {
                    return None;
                },
                Some(id) => {
                    entity.set_id(id);
                },
            }
        }
        let copy = entity.duplicate();
        self.put(entity);
        Some(copy)
    }

    /// Stores `entity` under its own identifier, replacing the record that was there.
    pub fn put(&mut self, entity: T)
        ensures
            final(self)@ == old(self)@.insert(T::id_of(entity@), entity@),
            final(self).is_defined(),
    {
        proof {
            use_type_invariant(&*self);
        }
        let id = entity.get_id();
        let at = self.lower_bound(id);
        let ghost before = self.entries();
        let ghost e = entity@;
        let mut rows: Vec<T> = Vec::new();
        core::mem::swap(&mut self.rows, &mut rows);
        if at < rows.len() && rows[at].get_id() == id {
            rows.set(at, entity);
            proof {
                let after = views_of(rows@);
                assert(after =~= before.update(at as int, e));
                assert forall|i: int, j: int| 0 <= i < j < after.len() implies T::id_of(
                    #[trigger] after[i],
                ) < T::id_of(#[trigger] after[j]) by {
                    assert(T::id_of(after[i]) == T::id_of(before[i]));
                    assert(T::id_of(after[j]) == T::id_of(before[j]));
                }
                assert forall|k: Id| as_map::<T>(after).contains_key(k) == as_map::<T>(
                    before,
                ).insert(id, e).contains_key(k) by {
                    if occurs::<T>(after, k) {
                        let p = position_of::<T>(after, k);
                        assert(T::id_of(before[p]) == k);
                    }
                    if occurs::<T>(before, k) {
                        let p = position_of::<T>(before, k);
                        assert(T::id_of(after[p]) == k);
                    }
                    if k == id {
                        assert(T::id_of(after[at as int]) == k);
                    }
                }
                assert forall|k: Id| as_map::<T>(after).contains_key(k) implies as_map::<T>(
                    after,
                )[k] == as_map::<T>(before).insert(id, e)[k] by {
                    let p = position_of::<T>(after, k);
                    assert(T::id_of(after[p]) == k);
                    lemma_position::<T>(after, p);
                    lemma_position::<T>(after, at as int);
                    if p != at {
                        assert(after[p] == before[p]);
                        lemma_position::<T>(before, p);
                        assert(k != id);
                    }
                }
                assert(as_map::<T>(after) =~= as_map::<T>(before).insert(id, e));
            }
        } else {
            rows.insert(at, entity);
            proof {
                let after = views_of(rows@);
                assert(after =~= before.insert(at as int, e));
                assert forall|i: int, j: int| 0 <= i < j < after.len() implies T::id_of(
                    #[trigger] after[i],
                ) < T::id_of(#[trigger] after[j]) by {
                    let bi = if i < at { i } else { i - 1 };
                    let bj = if j < at { j } else { j - 1 };
                    if i != at && j != at {
                        assert(T::id_of(before[bi]) < T::id_of(before[bj]));
                    } else if i == at {
                        assert(T::id_of(before[bj]) >= id);
                        assert(T::id_of(before[at as int]) >= id);
                        assert(T::id_of(before[at as int]) != id);
                        if at < bj {
                            assert(T::id_of(before[at as int]) < T::id_of(before[bj]));
                        }
                    } else {
                        assert(T::id_of(before[bi]) < id);
                    }
                }
                assert forall|k: Id| as_map::<T>(after).contains_key(k) == as_map::<T>(
                    before,
                ).insert(id, e).contains_key(k) by {
                    if occurs::<T>(after, k) {
                        let p = position_of::<T>(after, k);
                        if p != at {
                            let bp = if p < at { p } else { p - 1 };
                            assert(T::id_of(before[bp]) == k);
                        }
                    }
                    if occurs::<T>(before, k) {
                        let p = position_of::<T>(before, k);
                        let ap = if p < at { p } else { p + 1 };
                        assert(T::id_of(after[ap]) == k);
                    }
                    if k == id {
                        assert(T::id_of(after[at as int]) == k);
                    }
                }
                assert forall|k: Id| as_map::<T>(after).contains_key(k) implies as_map::<T>(
                    after,
                )[k] == as_map::<T>(before).insert(id, e)[k] by {
                    let p = position_of::<T>(after, k);
                    assert(T::id_of(after[p]) == k);
                    lemma_position::<T>(after, p);
                    lemma_position::<T>(after, at as int);
                    if p != at {
                        let bp = if p < at { p } else { p - 1 };
                        assert(after[p] == before[bp]);
                        lemma_position::<T>(before, bp);
                        assert(k != id);
                    }
                }
                assert(as_map::<T>(after) =~= as_map::<T>(before).insert(id, e));
            }
        }
        self.defined = true;
        core::mem::swap(&mut self.rows, &mut rows);
    }

    /// Takes the record stored under `id` out of the category and returns it.
    pub fn remove(&mut self, id: Id) -> (r: Option<T>)
        ensures
            final(self)@ == old(self)@.remove(id),
            final(self).is_defined() == old(self).is_defined(),
            r.is_some() == old(self)@.contains_key(id),
            r matches Some(e) ==> e@ == old(self)@[id],
    {
        proof {
            use_type_invariant(&*self);
        }
        let at = self.lower_bound(id);
        let ghost before = self.entries();
        if at < self.rows.len() && self.rows[at].get_id() == id {
            let mut rows: Vec<T> = Vec::new();
            core::mem::swap(&mut self.rows, &mut rows);
            let taken = rows.remove(at);
            proof {
                let after = views_of(rows@);
                lemma_position::<T>(before, at as int);
                assert(after =~= before.remove(at as int));
                assert forall|i: int, j: int| 0 <= i < j < after.len() implies T::id_of(
                    #[trigger] after[i],
                ) < T::id_of(#[trigger] after[j]) by {
                    let bi = if i < at { i } else { i + 1 };
                    let bj = if j < at { j } else { j + 1 };
                    assert(T::id_of(before[bi]) < T::id_of(before[bj]));
                }
                assert forall|k: Id| as_map::<T>(after).contains_key(k) == as_map::<T>(
                    before,
                ).remove(id).contains_key(k) by {
                    if occurs::<T>(after, k) {
                        let p = position_of::<T>(after, k);
                        let bp = if p < at { p } else { p + 1 };
                        assert(T::id_of(before[bp]) == k);
                        if k == id {
                            lemma_position::<T>(before, bp);
                        }
                    }
                    if occurs::<T>(before, k) && k != id {
                        let p = position_of::<T>(before, k);
                        let ap = if p < at { p } else { p - 1 };
                        assert(T::id_of(after[ap]) == k);
                    }
                }
                assert forall|k: Id| as_map::<T>(after).contains_key(k) implies as_map::<T>(
                    after,
                )[k] == as_map::<T>(before).remove(id)[k] by {
                    let p = position_of::<T>(after, k);
                    lemma_position::<T>(after, p);
                    let bp = if p < at { p } else { p + 1 };
                    lemma_position::<T>(before, bp);
                }
                assert(as_map::<T>(after) =~= as_map::<T>(before).remove(id));
            }
            core::mem::swap(&mut self.rows, &mut rows);
            Some(taken)
        } else {
            proof {
                lemma_absent::<T>(before, id, at as int);
                assert(as_map::<T>(before) =~= as_map::<T>(before).remove(id));
            }
            None
        }
    }

    /// Copies of all stored records, in ascending order of their identifiers.
    pub fn list(&self) -> (all: Vec<T>)
        ensures
            lists::<T>(views_of(all@), self@),
    {
        proof {
            use_type_invariant(self);
        }
        let mut all: Vec<T> = Vec::new();
        let mut i: usize = 0;
        while i < self.rows.len()
            invariant
                i <= self.rows@.len(),
                all@.len() == i,
                forall|k: int| 0 <= k < i ==> (#[trigger] all@[k])@ == self.rows@[k]@,
            decreases self.rows@.len() - i,
        {
            all.push(self.rows[i].duplicate());
            i += 1;
        }
        proof {
            assert(views_of(all@) =~= self.entries());
            lemma_lists::<T>(self.entries());
        }
        all
    }

    /// The identifiers in use, in ascending order.
    pub fn ids(&self) -> (all: Vec<Id>)
        ensures
            forall|i: int, j: int| 0 <= i < j < all@.len() ==> all@[i] < all@[j],
            forall|id: Id| all@.contains(id) == self@.contains_key(id),
    {
        proof {
            use_type_invariant(self);
        }
        let mut all: Vec<Id> = Vec::new();
        let mut i: usize = 0;
        while i < self.rows.len()
            invariant
                i <= self.rows@.len(),
                all@.len() == i,
                forall|k: int| 0 <= k < i ==> #[trigger] all@[k] == T::id_of(self.entries()[k]),
            decreases self.rows@.len() - i,
        {
            all.push(self.rows[i].get_id());
            i += 1;
        }
        proof {
            let s = self.entries();
            assert forall|a: int, b: int| 0 <= a < b < all@.len() implies all@[a] < all@[b] by {
                assert(T::id_of(s[a]) < T::id_of(s[b]));
            }
            assert forall|id: Id| all@.contains(id) == self@.contains_key(id) by {
                if all@.contains(id) {
                    let k = choose|k: int| 0 <= k < all@.len() && all@[k] == id;
                    assert(T::id_of(s[k]) == id);
                }
                if occurs::<T>(s, id) {
                    let p = position_of::<T>(s, id);
                    assert(all@[p] == id);
                }
            }
        }
        all
    }
}

impl<T: Entity> View for Table<T> {
    type V = Map<Id, T::V>;

    closed spec fn view(&self) -> Map<Id, T::V> {
        as_map::<T>(views_of(self.rows@))
    }
}

} // verus!
