//! The session store: what stateful routers keep, by session and key.

use crate::text::{copy_text, same_text};
use crate::value::{Value, ValueModel};
use vstd::prelude::*;
use vstd::string::*;

verus! {

/// One stored value with the session and the key under which it stands.
#[derive(Debug)]
pub struct Slot {
    pub session: String,
    pub key: String,
    pub value: Value,
}

/// The session and key of a slot.
pub open spec fn slot_key(s: Slot) -> (Seq<char>, Seq<char>) {
    (s.session@, s.key@)
}

/// Whether some slot stands under `k`.
pub open spec fn holds(slots: Seq<Slot>, k: (Seq<char>, Seq<char>)) -> bool {
    exists|i: int| 0 <= i < slots.len() && slot_key(#[trigger] slots[i]) == k
}

/// The place of a slot that stands under `k`.
pub open spec fn place(slots: Seq<Slot>, k: (Seq<char>, Seq<char>)) -> int {
    choose|i: int| 0 <= i < slots.len() && slot_key(#[trigger] slots[i]) == k
}

/// No two slots stand under the same session and key.
pub open spec fn unique(slots: Seq<Slot>) -> bool {
    forall|i: int, j: int|
        0 <= i < j < slots.len() ==> slot_key(#[trigger] slots[i]) != slot_key(#[trigger] slots[j])
}

/// The slots as a map from session and key to value.
pub open spec fn slots_map(slots: Seq<Slot>) -> Map<(Seq<char>, Seq<char>), ValueModel> {
    Map::new(
        |k: (Seq<char>, Seq<char>)| holds(slots, k),
        |k: (Seq<char>, Seq<char>)| slots[place(slots, k)].value@,
    )
}

/// Among distinct slots, the slot under a key is the only one there.
pub proof fn lemma_place(slots: Seq<Slot>, i: int)
    requires
        unique(slots),
        0 <= i < slots.len(),
    ensures
        holds(slots, slot_key(slots[i])),
        place(slots, slot_key(slots[i])) == i,
        slots_map(slots).contains_key(slot_key(slots[i])),
        slots_map(slots)[slot_key(slots[i])] == slots[i].value@,
{
    let k = slot_key(slots[i]);
    assert(holds(slots, k));
    let p = place(slots, k);
    assert(0 <= p < slots.len() && slot_key(slots[p]) == k);
    if p < i {
        assert(slot_key(slots[p]) != slot_key(slots[i]));
    } else if i < p {
        assert(slot_key(slots[i]) != slot_key(slots[p]));
    }
}

/// A slot under a new key adds that key to the map.
pub proof fn lemma_push(slots: Seq<Slot>, s: Slot)
    requires
        unique(slots),
        !holds(slots, slot_key(s)),
    ensures
        unique(slots.push(s)),
        slots_map(slots.push(s)) == slots_map(slots).insert(slot_key(s), s.value@),
{
    let t = slots.push(s);
    let n = slots.len() as int;
    assert forall|i: int, j: int| 0 <= i < j < t.len() implies slot_key(#[trigger] t[i]) != slot_key(
        #[trigger] t[j],
    ) by {
        if j == n {
            assert(t[i] == slots[i]);
            if slot_key(slots[i]) == slot_key(s) {
                assert(holds(slots, slot_key(s)));
            }
        } else {
            assert(t[i] == slots[i] && t[j] == slots[j]);
        }
    }
    let want = slots_map(slots).insert(slot_key(s), s.value@);
    assert forall|k: (Seq<char>, Seq<char>)| #[trigger] slots_map(t).contains_key(k) == want.contains_key(
        k,
    ) && (slots_map(t).contains_key(k) ==> slots_map(t)[k] == want[k]) by {
        if holds(t, k) {
            let p = place(t, k);
            lemma_place(t, p);
            if p < n {
                assert(t[p] == slots[p]);
                lemma_place(slots, p);
            }
        }
        if want.contains_key(k) {
            if k == slot_key(s) {
                assert(t[n] == s);
                lemma_place(t, n);
            } else {
                let q = place(slots, k);
                assert(t[q] == slots[q]);
                lemma_place(t, q);
                lemma_place(slots, q);
            }
        }
    }
    assert(slots_map(t) =~= want);
}

/// A new value in a slot changes the map at that slot's key alone.
pub proof fn lemma_update(slots: Seq<Slot>, i: int, s: Slot)
    requires
        unique(slots),
        0 <= i < slots.len(),
        slot_key(s) == slot_key(slots[i]),
    ensures
        unique(slots.update(i, s)),
        slots_map(slots.update(i, s)) == slots_map(slots).insert(slot_key(s), s.value@),
{
    let t = slots.update(i, s);
    assert forall|a: int, b: int| 0 <= a < b < t.len() implies slot_key(#[trigger] t[a]) != slot_key(
        #[trigger] t[b],
    ) by {
        assert(slot_key(t[a]) == slot_key(slots[a]));
        assert(slot_key(t[b]) == slot_key(slots[b]));
    }
    let want = slots_map(slots).insert(slot_key(s), s.value@);
    assert forall|k: (Seq<char>, Seq<char>)| #[trigger] slots_map(t).contains_key(k) == want.contains_key(
        k,
    ) && (slots_map(t).contains_key(k) ==> slots_map(t)[k] == want[k]) by {
        if holds(t, k) {
            let p = place(t, k);
            lemma_place(t, p);
            assert(slot_key(t[p]) == slot_key(slots[p]));
            lemma_place(slots, p);
        }
        if want.contains_key(k) {
            if k == slot_key(s) {
                lemma_place(t, i);
            } else {
                let q = place(slots, k);
                lemma_place(slots, q);
                assert(q != i);
                assert(t[q] == slots[q]);
                lemma_place(t, q);
            }
        }
    }
    assert(slots_map(t) =~= want);
}

/// Taking a slot out takes its key out of the map.
pub proof fn lemma_remove(slots: Seq<Slot>, i: int)
    requires
        unique(slots),
        0 <= i < slots.len(),
    ensures
        unique(slots.remove(i)),
        slots_map(slots.remove(i)) == slots_map(slots).remove(slot_key(slots[i])),
{
    let t = slots.remove(i);
    assert forall|a: int, b: int| 0 <= a < b < t.len() implies slot_key(#[trigger] t[a]) != slot_key(
        #[trigger] t[b],
    ) by {
        let a0 = if a < i {
            a
        } else {
            a + 1
        };
        let b0 = if b < i {
            b
        } else {
            b + 1
        };
        assert(t[a] == slots[a0] && t[b] == slots[b0]);
    }
    let want = slots_map(slots).remove(slot_key(slots[i]));
    assert forall|k: (Seq<char>, Seq<char>)| #[trigger] slots_map(t).contains_key(k) == want.contains_key(
        k,
    ) && (slots_map(t).contains_key(k) ==> slots_map(t)[k] == want[k]) by {
        if holds(t, k) {
            let p = place(t, k);
            lemma_place(t, p);
            let p0 = if p < i {
                p
            } else {
                p + 1
            };
            assert(t[p] == slots[p0]);
            lemma_place(slots, p0);
            lemma_place(slots, i);
        }
        if want.contains_key(k) {
            let q = place(slots, k);
            lemma_place(slots, q);
            assert(q != i);
            let q1 = if q < i {
                q
            } else {
                q - 1
            };
            assert(t[q1] == slots[q]);
            lemma_place(t, q1);
        }
    }
    assert(slots_map(t) =~= want);
}

/// The map without the keys of one session.
pub open spec fn without_session(
    m: Map<(Seq<char>, Seq<char>), ValueModel>,
    session: Seq<char>,
) -> Map<(Seq<char>, Seq<char>), ValueModel> {
    Map::new(
        |k: (Seq<char>, Seq<char>)| k.0 != session && m.contains_key(k),
        |k: (Seq<char>, Seq<char>)| m[k],
    )
}

/// Values by session and key. A session is there as soon as a value is set
/// under it, and gone when it is closed.
#[derive(Debug)]
pub struct SessionStore {
    slots: Vec<Slot>,
}

impl View for SessionStore {
    type V = Map<(Seq<char>, Seq<char>), ValueModel>;

    closed spec fn view(&self) -> Map<(Seq<char>, Seq<char>), ValueModel> {
        slots_map(self.slots@)
    }
}

impl SessionStore {
    /// No two values stand under the same session and key.
    pub closed spec fn wf(&self) -> bool {
        unique(self.slots@)
    }

    /// Whether a value stands under some key of the session.
    pub open spec fn has_session(&self, session: Seq<char>) -> bool {
        exists|key: Seq<char>| self@.contains_key((session, key))
    }

    /// A store without sessions.
    pub fn new() -> (r: SessionStore)
        ensures
            r.wf(),
            r@ == Map::<(Seq<char>, Seq<char>), ValueModel>::empty(),
    {
        let r = SessionStore { slots: Vec::new() };
        assert(r@ =~= Map::<(Seq<char>, Seq<char>), ValueModel>::empty());
        r
    }

    /// The number of values in the store.
    pub fn len(&self) -> (n: usize)
        requires
            self.wf(),
        ensures
            n == self@.dom().len(),
            self@.dom().finite(),
    {
        proof {
            lemma_domain_size(self.slots@);
        }
        self.slots.len()
    }

    fn find(&self, session: &str, key: &str) -> (r: Option<usize>)
        requires
            self.wf(),
        ensures
            match r {
                Some(i) => i < self.slots@.len() && slot_key(self.slots@[i as int]) == (session@, key@),
                None => !holds(self.slots@, (session@, key@)),
            },
    {
        let n: usize = self.slots.len();
        let mut i: usize = 0;
        while i < n
            invariant
                n == self.slots@.len(),
                i <= n,
                forall|j: int| 0 <= j < i ==> slot_key(#[trigger] self.slots@[j]) != (session@, key@),
            decreases n - i,
        {
            if same_text(self.slots[i].session.as_str(), session) && same_text(
                self.slots[i].key.as_str(),
                key,
            ) {
                return Some(i);
            }
            i = i + 1;
        }
        None
    }

    /// The value under `key` in the session, if one is set.
    pub fn get(&self, session: &str, key: &str) -> (r: Option<Value>)
        requires
            self.wf(),
        ensures
            match r {
                Some(v) => self@.contains_key((session@, key@)) && self@[(session@, key@)] == v@,
                None => !self@.contains_key((session@, key@)),
            },
    {
        match self.find(session, key) {
            Some(i) => {
                proof {
                    lemma_place(self.slots@, i as int);
                }
                Some(self.slots[i].value.duplicate())
            },
            None => None,
        }
    }

    /// Sets the value under `key` in the session, in place of any that was
    /// there.
    pub fn set(&mut self, session: &str, key: &str, value: Value)
        requires
            old(self).wf(),
        ensures
            final(self).wf(),
            final(self)@ == old(self)@.insert((session@, key@), value@),
    {
        let slot = Slot { session: copy_text(session), key: copy_text(key), value };
        match self.find(session, key) {
            Some(i) => {
                proof {
                    lemma_update(self.slots@, i as int, slot);
                }
                self.slots[i] = slot;
            },
            None => {
                proof {
                    lemma_push(self.slots@, slot);
                }
                self.slots.push(slot);
            },
        }
    }

    /// Takes the value under `key` out of the session, and says whether
    /// there was one.
    pub fn delete(&mut self, session: &str, key: &str) -> (r: bool)
        requires
            old(self).wf(),
        ensures
            final(self).wf(),
            r == old(self)@.contains_key((session@, key@)),
            final(self)@ == old(self)@.remove((session@, key@)),
    {
        match self.find(session, key) {
            Some(i) => {
                proof {
                    lemma_place(self.slots@, i as int);
                    lemma_remove(self.slots@, i as int);
                }
                self.slots.remove(i);
                true
            },
            None => {
                assert(self@.remove((session@, key@)) =~= self@);
                false
            },
        }
    }

    /// Closes the session: takes out every value under it, and says how
    /// many there were. The other sessions stay as they are.
    pub fn close(&mut self, session: &str) -> (r: usize)
        requires
            old(self).wf(),
        ensures
            final(self).wf(),
            final(self)@ == without_session(old(self)@, session@),
            !final(self).has_session(session@),
            r == old(self)@.dom().len() - final(self)@.dom().len(),
    {
        let mut i: usize = 0;
        let total: usize = self.slots.len();
        proof {
            lemma_domain_size(self.slots@);
        }
        while i < self.slots.len()
            invariant
                self.wf(),
                i <= self.slots@.len(),
                forall|j: int| 0 <= j < i ==> (#[trigger] self.slots@[j]).session@ != session@,
                forall|k: (Seq<char>, Seq<char>)|
                    k.0 != session@ ==> (#[trigger] self@.contains_key(k) == old(self)@.contains_key(k)),
                forall|k: (Seq<char>, Seq<char>)|
                    k.0 != session@ && self@.contains_key(k) ==> #[trigger] self@[k] == old(self)@[k],
                self.slots@.len() <= total,
                total == old(self).slots@.len(),
            decreases self.slots@.len() - i,
        {
            if same_text(self.slots[i].session.as_str(), session) {
                let ghost before = self@;
                let ghost gone = slot_key(self.slots@[i as int]);
                proof {
                    lemma_place(self.slots@, i as int);
                    lemma_remove(self.slots@, i as int);
                }
                self.slots.remove(i);
                proof {
                    assert(self@ == before.remove(gone));
                    assert forall|k: (Seq<char>, Seq<char>)| k.0 != session@ implies (
                    #[trigger] self@.contains_key(k) == old(self)@.contains_key(k)) by {
                        assert(before.contains_key(k) == old(self)@.contains_key(k));
                    }
                    assert forall|k: (Seq<char>, Seq<char>)|
                        k.0 != session@ && self@.contains_key(k) implies #[trigger] self@[k] == old(
                        self,
                    )@[k] by {
                        assert(before.contains_key(k));
                        assert(before[k] == old(self)@[k]);
                    }
                }
            } else {
                i = i + 1;
            }
        }
        proof {
            lemma_domain_size(self.slots@);
            assert forall|k: (Seq<char>, Seq<char>)| k.0 == session@ implies !self@.contains_key(k) by {
                if holds(self.slots@, k) {
                    let p = place(self.slots@, k);
                    assert(self.slots@[p].session@ != session@);
                }
            }
            assert(self@ =~= without_session(old(self)@, session@));
        }
        total - self.slots.len()
    }

    /// A value that was set is the value that is read, until it is set
    /// again, deleted, or its session closed.
    pub proof fn lemma_set_then_get(
        before: Map<(Seq<char>, Seq<char>), ValueModel>,
        session: Seq<char>,
        key: Seq<char>,
        value: ValueModel,
    )
        ensures
            before.insert((session, key), value).contains_key((session, key)),
            before.insert((session, key), value)[(session, key)] == value,
            forall|k: (Seq<char>, Seq<char>)|
                k != (session, key) ==> before.insert((session, key), value).contains_key(k)
                    == before.contains_key(k),
    {
    }
}

/// Distinct slots make a map with as many keys as there are slots.
pub proof fn lemma_domain_size(slots: Seq<Slot>)
    requires
        unique(slots),
    ensures
        slots_map(slots).dom().finite(),
        slots_map(slots).dom().len() == slots.len(),
    decreases slots.len(),
{
    if slots.len() == 0 {
        assert(slots_map(slots).dom() =~= Set::<(Seq<char>, Seq<char>)>::empty());
    } else {
        let last = slots.last();
        let rest = slots.drop_last();
        let n = slots.len() as int;
        assert forall|i: int, j: int| 0 <= i < j < rest.len() implies slot_key(#[trigger] rest[i])
            != slot_key(#[trigger] rest[j]) by {
            assert(rest[i] == slots[i] && rest[j] == slots[j]);
        }
        lemma_domain_size(rest);
        if holds(rest, slot_key(last)) {
            let p = place(rest, slot_key(last));
            assert(rest[p] == slots[p]);
            assert(slot_key(slots[p]) != slot_key(slots[n - 1]));
        }
        lemma_push(rest, last);
        assert(rest.push(last) =~= slots);
        assert(slots_map(slots).dom() =~= slots_map(rest).dom().insert(slot_key(last)));
    }
}

} // verus!
