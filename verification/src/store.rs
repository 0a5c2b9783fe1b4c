use vstd::prelude::*;

use crate::error::{AppError, ErrorModel};
use crate::ident::Identifier;
use crate::record::{Kind, Record, RecordModel};

verus! {

/// Store-supplied error text for a mutation on a dead identifier.
pub const MSG_NOT_FOUND: &'static str = "no record lives under this identifier";

/// Store-supplied error text for an exhausted identifier space.
pub const MSG_EXHAUSTED: &'static str = "identifier space exhausted";

/// No two entries share a slot number.
pub open spec fn distinct_keys(s: Seq<(u64, Record)>) -> bool {
    forall|i: int, j: int| 0 <= i < j < s.len() ==> (#[trigger] s[i]).0 != (#[trigger] s[j]).0
}

/// Some entry lives under slot `k`.
pub open spec fn has_key(s: Seq<(u64, Record)>, k: u64) -> bool {
    exists|i: int| 0 <= i < s.len() && (#[trigger] s[i]).0 == k
}

/// The record value living under slot `k`, if any.
pub open spec fn lookup(s: Seq<(u64, Record)>, k: u64) -> Option<RecordModel>
    decreases s.len(),
{
    if s.len() == 0 {
        None
    } else if s.last().0 == k {
        Some(s.last().1@)
    } else {
        lookup(s.drop_last(), k)
    }
}

/// How many entries live under slot `k`.
pub open spec fn count_key(s: Seq<(u64, Record)>, k: u64) -> nat
    decreases s.len(),
{
    if s.len() == 0 {
        0
    } else {
        count_key(s.drop_last(), k) + (if s.last().0 == k {
            1nat
        } else {
            0nat
        })
    }
}

/// A slot resolves to a record exactly when an entry lives under it.
pub proof fn lemma_lookup_some_iff_has(s: Seq<(u64, Record)>, k: u64)
    ensures
        lookup(s, k) is Some <==> has_key(s, k),
    decreases s.len(),
{
    if s.len() > 0 {
        lemma_lookup_some_iff_has(s.drop_last(), k);
        if s.last().0 == k {
            assert(s[s.len() - 1].0 == k);
        } else {
            if has_key(s, k) {
                let i = choose|i: int| 0 <= i < s.len() && (#[trigger] s[i]).0 == k;
                assert(s.drop_last()[i] == s[i]);
            }
            if has_key(s.drop_last(), k) {
                let i = choose|i: int|
                    0 <= i < s.drop_last().len() && (#[trigger] s.drop_last()[i]).0 == k;
                assert(s[i].0 == k);
            }
        }
    }
}

/// Under distinct slot numbers, a live slot is occupied exactly once.
pub proof fn lemma_distinct_count(s: Seq<(u64, Record)>, k: u64)
    requires
        distinct_keys(s),
    ensures
        has_key(s, k) ==> count_key(s, k) == 1,
        !has_key(s, k) ==> count_key(s, k) == 0,
    decreases s.len(),
{
    if s.len() > 0 {
        assert(distinct_keys(s.drop_last())) by {
            assert(forall|i: int| 0 <= i < s.len() - 1 ==> s.drop_last()[i] == s[i]);
        }
        lemma_distinct_count(s.drop_last(), k);
        if s.last().0 == k {
            assert(s[s.len() - 1].0 == k);
            if has_key(s.drop_last(), k) {
                let i = choose|i: int|
                    0 <= i < s.drop_last().len() && (#[trigger] s.drop_last()[i]).0 == k;
                assert(s[i].0 == k && s[s.len() - 1].0 == k && i < s.len() - 1);
                assert(false);
            }
        } else {
            if has_key(s, k) {
                let i = choose|i: int| 0 <= i < s.len() && (#[trigger] s[i]).0 == k;
                assert(s.drop_last()[i] == s[i]);
            } else if has_key(s.drop_last(), k) {
                let i = choose|i: int|
                    0 <= i < s.drop_last().len() && (#[trigger] s.drop_last()[i]).0 == k;
                assert(s[i].0 == k);
            }
        }
    }
}

/// Creation, seen on the model: appending an entry under a fresh slot
/// number makes that slot resolve to exactly the new record and leaves
/// every other slot as it was.
pub proof fn lemma_create_effect(s: Seq<(u64, Record)>, k: u64, rec: Record)
    requires
        distinct_keys(s),
        !has_key(s, k),
    ensures
        distinct_keys(s.push((k, rec))),
        lookup(s.push((k, rec)), k) == Some(rec@),
        count_key(s.push((k, rec)), k) == 1,
        forall|k2: u64| k2 != k ==> lookup(s.push((k, rec)), k2) == lookup(s, k2),
{
    let u = s.push((k, rec));
    assert(u.drop_last() =~= s);
    assert(u.last() == (k, rec));
    assert(distinct_keys(u)) by {
        assert(forall|i: int| 0 <= i < s.len() ==> u[i] == s[i]);
        if !distinct_keys(u) {
            let (i, j) = choose|i: int, j: int|
                0 <= i < j < u.len() && (#[trigger] u[i]).0 == (#[trigger] u[j]).0;
            assert(s[i].0 == k);
        }
    }
    lemma_distinct_count(u, k);
    assert(count_key(u, k) == count_key(s, k) + 1);
    lemma_distinct_count(s, k);
}

/// Update, seen on the model: rewriting the entry at the slot's index
/// replaces what the slot resolves to and leaves every other slot as it
/// was; the slot stays occupied exactly once.
pub proof fn lemma_update_effect(s: Seq<(u64, Record)>, i: int, k: u64, rec: Record)
    requires
        distinct_keys(s),
        0 <= i < s.len(),
        s[i].0 == k,
    ensures
        distinct_keys(s.update(i, (k, rec))),
        lookup(s.update(i, (k, rec)), k) == Some(rec@),
        count_key(s.update(i, (k, rec)), k) == 1,
        forall|k2: u64| k2 != k ==> lookup(s.update(i, (k, rec)), k2) == lookup(s, k2),
    decreases s.len(),
{
    let u = s.update(i, (k, rec));
    assert(distinct_keys(u)) by {
        assert(forall|j: int| 0 <= j < s.len() ==> (#[trigger] u[j]).0 == s[j].0);
    }
    assert(u[i].0 == k);
    assert(has_key(u, k));
    lemma_distinct_count(u, k);
    if i == s.len() - 1 {
        assert(u.drop_last() =~= s.drop_last());
        assert(u.last() == (k, rec));
        assert(s.last() == s[i]);
        assert forall|k2: u64| k2 != k implies lookup(u, k2) == lookup(s, k2) by {
            assert(lookup(u, k2) == lookup(u.drop_last(), k2));
            assert(lookup(s, k2) == lookup(s.drop_last(), k2));
        }
    } else {
        assert(distinct_keys(s.drop_last())) by {
            assert(forall|j: int| 0 <= j < s.len() - 1 ==> s.drop_last()[j] == s[j]);
        }
        assert(s.drop_last()[i].0 == k);
        lemma_update_effect(s.drop_last(), i, k, rec);
        assert(u.drop_last() =~= s.drop_last().update(i, (k, rec)));
        assert(u.last() == s.last());
        assert(s.last().0 != k) by {
            assert(s[i].0 == k && i < s.len() - 1);
            assert(s.last() == s[s.len() - 1]);
        }
        assert forall|k2: u64| k2 != k implies lookup(u, k2) == lookup(s, k2) by {
            if u.last().0 == k2 {
                assert(lookup(u, k2) == Some(u.last().1@));
                assert(lookup(s, k2) == Some(s.last().1@));
            } else {
                assert(lookup(u, k2) == lookup(u.drop_last(), k2));
                assert(lookup(s, k2) == lookup(s.drop_last(), k2));
            }
        }
    }
}

/// Deletion, seen on the model: removing the slot's entry makes the slot
/// dead and leaves every other slot as it was.
pub proof fn lemma_delete_effect(s: Seq<(u64, Record)>, i: int, k: u64)
    requires
        distinct_keys(s),
        0 <= i < s.len(),
        s[i].0 == k,
    ensures
        distinct_keys(s.remove(i)),
        !has_key(s.remove(i), k),
        lookup(s.remove(i), k) == None::<RecordModel>,
        count_key(s.remove(i), k) == 0,
        forall|k2: u64| k2 != k ==> lookup(s.remove(i), k2) == lookup(s, k2),
    decreases s.len(),
{
    let u = s.remove(i);
    assert(distinct_keys(u)) by {
        assert(forall|j: int|
            0 <= j < u.len() ==> (#[trigger] u[j]) == (if j < i {
                s[j]
            } else {
                s[j + 1]
            }));
    }
    assert(!has_key(u, k)) by {
        if has_key(u, k) {
            let j = choose|j: int| 0 <= j < u.len() && (#[trigger] u[j]).0 == k;
            if j < i {
                assert(s[j].0 == k);
            } else {
                assert(s[j + 1].0 == k);
            }
        }
    }
    lemma_lookup_some_iff_has(u, k);
    lemma_distinct_count(u, k);
    if i == s.len() - 1 {
        assert(u =~= s.drop_last());
        assert(s.last() == s[i]);
        assert forall|k2: u64| k2 != k implies lookup(u, k2) == lookup(s, k2) by {
            assert(lookup(s, k2) == lookup(s.drop_last(), k2));
        }
    } else {
        assert(distinct_keys(s.drop_last())) by {
            assert(forall|j: int| 0 <= j < s.len() - 1 ==> s.drop_last()[j] == s[j]);
        }
        assert(s.drop_last()[i].0 == k);
        lemma_delete_effect(s.drop_last(), i, k);
        assert(u.drop_last() =~= s.drop_last().remove(i));
        assert(u.last() == s.last());
        assert forall|k2: u64| k2 != k implies lookup(u, k2) == lookup(s, k2) by {
            if u.last().0 == k2 {
                assert(lookup(u, k2) == Some(u.last().1@));
                assert(lookup(s, k2) == Some(s.last().1@));
            } else {
                assert(lookup(u, k2) == lookup(u.drop_last(), k2));
                assert(lookup(s, k2) == lookup(s.drop_last(), k2));
            }
        }
    }
}

/// The transactional record store for one resource kind, modeled as the
/// sequence of live `(slot, record)` entries in store order.  Every
/// mutation is all-or-nothing: it either takes full effect or, on
/// failure, leaves the entries untouched.
pub struct Store {
    /// The resource kind whose records this store holds.
    pub kind: Kind,
    /// The next slot number to issue; all live slots are below it.
    pub next: u64,
    /// The live entries, in store order.
    pub entries: Vec<(u64, Record)>,
}

impl Store {
    /// Well-formedness: slot numbers are distinct and below `next`.
    pub open spec fn wf(self) -> bool {
        &&& distinct_keys(self.entries@)
        &&& forall|i: int|
            0 <= i < self.entries@.len() ==> (#[trigger] self.entries@[i]).0 < self.next
    }

    /// An empty store for resource kind `kind`.
    pub fn new(kind: Kind) -> (s: Store)
        ensures
            s.wf(),
            s.kind == kind,
            s.entries@.len() == 0,
    {
        Store { kind, next: 0, entries: Vec::new() }
    }

    /// The index of the entry under slot `k`, if the slot is live.
    fn find(&self, k: u64) -> (r: Option<usize>)
        ensures
            match r {
                Some(i) => i < self.entries@.len() && self.entries@[i as int].0 == k,
                None => !has_key(self.entries@, k),
            },
    {
        let n = self.entries.len();
        let mut i: usize = 0;
        while i < n
            invariant
                0 <= i <= n,
                n == self.entries@.len(),
                forall|j: int| 0 <= j < i ==> (#[trigger] self.entries@[j]).0 != k,
            decreases n - i,
        {
            if self.entries[i].0 == k {
                return Some(i);
            }
            i = i + 1;
        }
        None
    }

    /// Inserts `rec` as a new record in one transaction: either the
    /// record is appended under a fresh identifier of this store's kind,
    /// or (only when the identifier space is spent) nothing changes and
    /// a store failure is reported.
    pub fn create(&mut self, rec: Record) -> (r: Result<Identifier, AppError>)
        requires
            old(self).wf(),
        ensures
            final(self).wf(),
            final(self).kind == old(self).kind,
            r is Ok <==> old(self).next < u64::MAX,
            match r {
                Ok(id) => {
                    &&& id.kind == old(self).kind
                    &&& id.num == old(self).next
                    &&& final(self).next == old(self).next + 1
                    &&& !has_key(old(self).entries@, id.num)
                    &&& final(self).entries@ == old(self).entries@.push((id.num, rec))
                },
                Err(e) => {
                    &&& *final(self) == *old(self)
                    &&& e@ == (ErrorModel::StoreFailure { message: MSG_EXHAUSTED@ })
                },
            },
    {
        if self.next == u64::MAX {
            return Err(AppError::StoreFailure { message: MSG_EXHAUSTED.to_owned() });
        }
        let id = Identifier { kind: self.kind, num: self.next };
        self.next = self.next + 1;
        proof {
            if has_key(self.entries@, id.num) {
                let i = choose|i: int|
                    0 <= i < self.entries@.len() && (#[trigger] self.entries@[i]).0 == id.num;
            }
        }
        self.entries.push((id.num, rec));
        proof {
            let s = self.entries@;
            assert(forall|i: int| 0 <= i < s.len() - 1 ==> s[i] == old(self).entries@[i]);
            assert(s.last().0 == id.num);
            if !distinct_keys(s) {
                let (i, j) = choose|i: int, j: int|
                    0 <= i < j < s.len() && (#[trigger] s[i]).0 == (#[trigger] s[j]).0;
            }
        }
        Ok(id)
    }

    /// Replaces the record under slot `key` in one transaction.  Fails
    /// with a store failure, changing nothing, exactly when the slot is
    /// not live.
    pub fn update(&mut self, key: u64, rec: Record) -> (r: Result<(), AppError>)
        requires
            old(self).wf(),
        ensures
            final(self).wf(),
            final(self).kind == old(self).kind,
            final(self).next == old(self).next,
            r is Ok <==> has_key(old(self).entries@, key),
            match r {
                Ok(_) => {
                    &&& lookup(final(self).entries@, key) == Some(rec@)
                    &&& count_key(final(self).entries@, key) == 1
                    &&& forall|k2: u64|
                        k2 != key ==> lookup(final(self).entries@, k2) == lookup(
                            old(self).entries@,
                            k2,
                        )
                    &&& final(self).entries@.len() == old(self).entries@.len()
                },
                Err(e) => {
                    &&& *final(self) == *old(self)
                    &&& e@ == (ErrorModel::StoreFailure { message: MSG_NOT_FOUND@ })
                },
            },
    {
        match self.find(key) {
            None => Err(AppError::StoreFailure { message: MSG_NOT_FOUND.to_owned() }),
            Some(i) => {
                let ghost before = self.entries@;
                self.entries.remove(i);
                self.entries.insert(i, (key, rec));
                proof {
                    assert(self.entries@ =~= before.update(i as int, (key, rec)));
                    lemma_update_effect(before, i as int, key, rec);
                    assert(forall|j: int|
                        0 <= j < self.entries@.len() ==> (#[trigger] self.entries@[j]).0
                            == before[j].0);
                }
                Ok(())
            },
        }
    }

    /// Removes the record under slot `key` in one transaction.  Fails
    /// with a store failure, changing nothing, exactly when the slot is
    /// not live.
    pub fn delete(&mut self, key: u64) -> (r: Result<(), AppError>)
        requires
            old(self).wf(),
        ensures
            final(self).wf(),
            final(self).kind == old(self).kind,
            final(self).next == old(self).next,
            r is Ok <==> has_key(old(self).entries@, key),
            match r {
                Ok(_) => {
                    &&& !has_key(final(self).entries@, key)
                    &&& lookup(final(self).entries@, key) == None::<RecordModel>
                    &&& forall|k2: u64|
                        k2 != key ==> lookup(final(self).entries@, k2) == lookup(
                            old(self).entries@,
                            k2,
                        )
                    &&& final(self).entries@.len() == old(self).entries@.len() - 1
                },
                Err(e) => {
                    &&& *final(self) == *old(self)
                    &&& e@ == (ErrorModel::StoreFailure { message: MSG_NOT_FOUND@ })
                },
            },
    {
        match self.find(key) {
            None => Err(AppError::StoreFailure { message: MSG_NOT_FOUND.to_owned() }),
            Some(i) => {
                let ghost before = self.entries@;
                self.entries.remove(i);
                proof {
                    lemma_delete_effect(before, i as int, key);
                    assert(forall|j: int|
                        0 <= j < self.entries@.len() ==> (#[trigger] self.entries@[j])
                            == (if j < i {
                            before[j]
                        } else {
                            before[j + 1]
                        }));
                }
                Ok(())
            },
        }
    }

    /// A fresh scan of all live entries, in store order, paired with
    /// their identifiers.  In a well-formed store no identifier appears
    /// twice, so an entry just created is listed exactly once.
    pub fn list_all(&self) -> (out: Vec<(Identifier, Record)>)
        ensures
            out@.len() == self.entries@.len(),
            forall|i: int|
                0 <= i < out@.len() ==> {
                    &&& (#[trigger] out@[i]).0.kind == self.kind
                    &&& out@[i].0.num == self.entries@[i].0
                    &&& out@[i].1@ == self.entries@[i].1@
                },
            self.wf() ==> forall|i: int, j: int|
                0 <= i < j < out@.len() ==> (#[trigger] out@[i]).0 != (#[trigger] out@[j]).0,
    {
        let n = self.entries.len();
        let mut out: Vec<(Identifier, Record)> = Vec::new();
        let mut i: usize = 0;
        while i < n
            invariant
                0 <= i <= n,
                n == self.entries@.len(),
                out@.len() == i,
                forall|j: int|
                    0 <= j < i ==> {
                        &&& (#[trigger] out@[j]).0.kind == self.kind
                        &&& out@[j].0.num == self.entries@[j].0
                        &&& out@[j].1@ == self.entries@[j].1@
                    },
            decreases n - i,
        {
            let entry = &self.entries[i];
            out.push((Identifier { kind: self.kind, num: entry.0 }, entry.1.duplicate()));
            i = i + 1;
        }
        out
    }
}

} // verus!
