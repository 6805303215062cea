//! The subscription registry: the identifiers of the live subscriptions of
//! one connection, and the allocator that keeps identifiers collision-free
//! for the connection's lifetime.

use vstd::prelude::*;

verus! {

/// The identifiers left after removing every occurrence of `id`.
pub open spec fn remove_id(s: Seq<u64>, id: u64) -> Seq<u64>
    decreases s.len(),
{
    if s.len() == 0 {
        s
    } else if s[0] == id {
        remove_id(s.subrange(1, s.len() as int), id)
    } else {
        seq![s[0]] + remove_id(s.subrange(1, s.len() as int), id)
    }
}

proof fn lemma_remove_id_absent(s: Seq<u64>, id: u64)
    requires
        !s.contains(id),
    ensures
        remove_id(s, id) == s,
    decreases s.len(),
{
    if s.len() == 0 {
    } else {
        let rest = s.subrange(1, s.len() as int);
        assert(s[0] != id);
        assert(!rest.contains(id)) by {
            assert(forall|i: int| 0 <= i < rest.len() ==> #[trigger] rest[i] == s[i + 1]);
        }
        lemma_remove_id_absent(rest, id);
        assert(seq![s[0]] + rest =~= s);
    }
}

proof fn lemma_remove_id_point(s: Seq<u64>, id: u64, at: int)
    requires
        0 <= at < s.len(),
        s[at] == id,
        forall|k: int| 0 <= k < s.len() && k != at ==> s[k] != id,
    ensures
        remove_id(s, id) == s.subrange(0, at) + s.subrange(at + 1, s.len() as int),
    decreases s.len(),
{
    let rest = s.subrange(1, s.len() as int);
    if at == 0 {
        assert(!rest.contains(id)) by {
            assert(forall|i: int| 0 <= i < rest.len() ==> #[trigger] rest[i] == s[i + 1]);
        }
        lemma_remove_id_absent(rest, id);
        assert(s.subrange(0, 0) + s.subrange(1, s.len() as int) =~= rest);
    } else {
        assert(s[0] != id);
        assert(forall|i: int| 0 <= i < rest.len() ==> #[trigger] rest[i] == s[i + 1]);
        lemma_remove_id_point(rest, id, at - 1);
        assert(seq![s[0]] + (rest.subrange(0, at - 1) + rest.subrange(at, rest.len() as int))
            =~= s.subrange(0, at) + s.subrange(at + 1, s.len() as int));
    }
}

proof fn lemma_remove_id_gone(s: Seq<u64>, id: u64)
    ensures
        !remove_id(s, id).contains(id),
    decreases s.len(),
{
    if s.len() == 0 {
    } else {
        let rest = s.subrange(1, s.len() as int);
        lemma_remove_id_gone(rest, id);
        if s[0] != id {
            let r = seq![s[0]] + remove_id(rest, id);
            assert forall|i: int| 0 <= i < r.len() implies r[i] != id by {
                if i > 0 {
                    assert(r[i] == remove_id(rest, id)[i - 1]);
                }
            }
        }
    }
}

proof fn lemma_remove_id_keeps(s: Seq<u64>, id: u64, x: u64)
    requires
        x != id,
    ensures
        remove_id(s, id).contains(x) == s.contains(x),
    decreases s.len(),
{
    if s.len() == 0 {
    } else {
        let rest = s.subrange(1, s.len() as int);
        lemma_remove_id_keeps(rest, id, x);
        if s[0] == id {
            assert(s.contains(x) == rest.contains(x)) by {
                if s.contains(x) {
                    let i = choose|i: int| 0 <= i < s.len() && s[i] == x;
                    assert(rest[i - 1] == x);
                }
                if rest.contains(x) {
                    let i = choose|i: int| 0 <= i < rest.len() && rest[i] == x;
                    assert(s[i + 1] == x);
                }
            }
        } else {
            let r = seq![s[0]] + remove_id(rest, id);
            assert(remove_id(s, id) == r);
            if s.contains(x) {
                let i = choose|i: int| 0 <= i < s.len() && s[i] == x;
                if i == 0 {
                    assert(r[0] == x);
                } else {
                    assert(rest[i - 1] == x);
                    let j = choose|j: int| 0 <= j < remove_id(rest, id).len()
                        && remove_id(rest, id)[j] == x;
                    assert(r[j + 1] == x);
                }
            }
            if r.contains(x) {
                let i = choose|i: int| 0 <= i < r.len() && r[i] == x;
                if i == 0 {
                    assert(s[0] == x);
                } else {
                    assert(remove_id(rest, id)[i - 1] == x);
                    let j = choose|j: int| 0 <= j < rest.len() && rest[j] == x;
                    assert(s[j + 1] == x);
                }
            }
        }
    }
}

/// Unsubscribing is idempotent: one removal leaves no trace of the
/// identifier, so removing it again finds nothing — the second call
/// answers `false` — and changes nothing. Identifiers of other
/// subscriptions are untouched either way.
pub proof fn lemma_unsubscribe_idempotent(ids: Seq<u64>, id: u64)
    ensures
        !remove_id(ids, id).contains(id),
        remove_id(remove_id(ids, id), id) == remove_id(ids, id),
        forall|x: u64| x != id ==> remove_id(ids, id).contains(x) == ids.contains(x),
{
    lemma_remove_id_gone(ids, id);
    lemma_remove_id_absent(remove_id(ids, id), id);
    assert forall|x: u64| x != id implies
        remove_id(ids, id).contains(x) == ids.contains(x) by {
        lemma_remove_id_keeps(ids, id, x);
    }
}

/// The identifiers of one connection's live subscriptions. An identifier
/// is allocated from a monotone counter at subscribe time, so it is never
/// reused while the connection is open; it is removed on unsubscribe, on
/// driver failure, and when the connection closes.
pub struct Registry {
    ids: Vec<u64>,
    next_id: u64,
}

impl Registry {
    pub closed spec fn ids_seq(&self) -> Seq<u64> {
        self.ids@
    }

    pub closed spec fn next_id_spec(&self) -> u64 {
        self.next_id
    }

    pub open spec fn contains_id(&self, id: u64) -> bool {
        self.ids_seq().contains(id)
    }

    /// Every live identifier came from the counter, and no identifier is
    /// registered twice.
    pub open spec fn wf(&self) -> bool {
        &&& forall|i: int| 0 <= i < self.ids_seq().len() ==> #[trigger] self.ids_seq()[i] < self.next_id_spec()
        &&& forall|i: int, j: int|
            0 <= i < j < self.ids_seq().len() ==> self.ids_seq()[i] != self.ids_seq()[j]
    }

    pub fn new() -> (r: Self)
        ensures
            r.wf(),
            r.ids_seq() == Seq::<u64>::empty(),
            r.next_id_spec() == 0,
    {
        let r = Registry { ids: Vec::new(), next_id: 0 };
        proof {
            assert(r.ids_seq() =~= Seq::<u64>::empty());
        }
        r
    }

    /// Registers a new subscription and returns its identifier, which is
    /// fresh: it collides with no identifier ever handed out before.
    pub fn insert(&mut self) -> (id: u64)
        requires
            old(self).wf(),
            old(self).next_id_spec() < u64::MAX,
        ensures
            final(self).wf(),
            id == old(self).next_id_spec(),
            !old(self).contains_id(id),
            final(self).ids_seq() == old(self).ids_seq().push(id),
            final(self).next_id_spec() == id + 1,
    {
        let id = self.next_id;
        let ghost s0 = self.ids_seq();
        proof {
            if s0.contains(id) {
                let i = choose|i: int| 0 <= i < s0.len() && s0[i] == id;
                assert(old(self).ids_seq()[i] < old(self).next_id_spec());
            }
        }
        self.ids.push(id);
        self.next_id = id + 1;
        proof {
            let t = self.ids_seq();
            assert(t =~= s0.push(id));
            assert forall|i: int| 0 <= i < t.len() implies #[trigger] t[i] < self.next_id_spec() by {
                if i < s0.len() {
                    assert(old(self).ids_seq()[i] < old(self).next_id_spec());
                }
            }
            assert forall|i: int, j: int| 0 <= i < j < t.len() implies t[i] != t[j] by {
                if j < s0.len() {
                    assert(old(self).ids_seq()[i] != old(self).ids_seq()[j]);
                } else {
                    assert(old(self).ids_seq()[i] < old(self).next_id_spec());
                }
            }
        }
        id
    }

    /// Deregisters `id`. Answers whether it was live; asking for an
    /// unknown identifier is not an error and answers `false`.
    pub fn remove(&mut self, id: u64) -> (found: bool)
        requires
            old(self).wf(),
        ensures
            final(self).wf(),
            found == old(self).contains_id(id),
            final(self).ids_seq() == remove_id(old(self).ids_seq(), id),
            !final(self).contains_id(id),
            forall|x: u64| x != id ==> final(self).contains_id(x) == old(self).contains_id(x),
            final(self).next_id_spec() == old(self).next_id_spec(),
    {
        let ghost s = self.ids_seq();
        let ghost n0 = self.next_id_spec();
        let mut i: usize = 0;
        while i < self.ids.len()
            invariant
                self.ids_seq() == s,
                self.next_id_spec() == n0,
                old(self).wf(),
                s == old(self).ids_seq(),
                n0 == old(self).next_id_spec(),
                i <= s.len(),
                forall|k: int| 0 <= k < i ==> s[k] != id,
            decreases s.len() - i,
        {
            if self.ids[i] == id {
                proof {
                    assert(s[i as int] == id);
                    assert forall|k: int| 0 <= k < s.len() && k != i implies s[k] != id by {
                        if k > i {
                            assert(old(self).ids_seq()[i as int] != old(self).ids_seq()[k]);
                        }
                    }
                    lemma_remove_id_point(s, id, i as int);
                    lemma_unsubscribe_idempotent(s, id);
                }
                self.ids.remove(i);
                proof {
                    let t = self.ids_seq();
                    assert(t =~= s.subrange(0, i as int) + s.subrange(i + 1, s.len() as int));
                    assert(s.contains(id));
                    assert forall|a: int| 0 <= a < t.len() implies #[trigger] t[a] < self.next_id_spec() by {
                        if a < i {
                            assert(t[a] == s[a]);
                            assert(old(self).ids_seq()[a] < old(self).next_id_spec());
                        } else {
                            assert(t[a] == s[a + 1]);
                            assert(old(self).ids_seq()[a + 1] < old(self).next_id_spec());
                        }
                    }
                    assert forall|a: int, b: int| 0 <= a < b < t.len() implies t[a] != t[b] by {
                        let a2: int = if a < i { a } else { a + 1 };
                        let b2: int = if b < i { b } else { b + 1 };
                        assert(t[a] == s[a2] && t[b] == s[b2]);
                        assert(old(self).ids_seq()[a2] != old(self).ids_seq()[b2]);
                    }
                }
                return true;
            }
            i = i + 1;
        }
        proof {
            assert(!s.contains(id)) by {
                if s.contains(id) {
                    let k = choose|k: int| 0 <= k < s.len() && s[k] == id;
                    assert(s[k] != id);
                }
            }
            lemma_remove_id_absent(s, id);
            lemma_unsubscribe_idempotent(s, id);
            assert forall|a: int| 0 <= a < s.len() implies #[trigger] s[a] < n0 by {
                assert(old(self).ids_seq()[a] < old(self).next_id_spec());
            }
            assert forall|a: int, b: int| 0 <= a < b < s.len() implies s[a] != s[b] by {
                assert(old(self).ids_seq()[a] != old(self).ids_seq()[b]);
            }
        }
        false
    }

    pub fn is_active(&self, id: u64) -> (r: bool)
        ensures
            r == self.contains_id(id),
    {
        let mut i: usize = 0;
        while i < self.ids.len()
            invariant
                i <= self.ids@.len(),
                forall|k: int| 0 <= k < i ==> self.ids@[k] != id,
            decreases self.ids@.len() - i,
        {
            if self.ids[i] == id {
                return true;
            }
            i = i + 1;
        }
        proof {
            if self.ids@.contains(id) {
                let k = choose|k: int| 0 <= k < self.ids@.len() && self.ids@[k] == id;
                assert(self.ids@[k] != id);
            }
        }
        false
    }

    /// The identifier the next subscribe will be given.
    pub fn next_id_value(&self) -> (n: u64)
        ensures
            n == self.next_id_spec(),
    {
        self.next_id
    }

    pub fn active_count(&self) -> (n: usize)
        ensures
            n == self.ids_seq().len(),
    {
        self.ids.len()
    }

    /// Connection close: every driver is cancelled and every registration
    /// dropped; the counter is not reset, so identifiers stay unique for
    /// the connection's whole life.
    pub fn clear(&mut self)
        requires
            old(self).wf(),
        ensures
            final(self).wf(),
            final(self).ids_seq() == Seq::<u64>::empty(),
            final(self).next_id_spec() == old(self).next_id_spec(),
    {
        self.ids.clear();
        proof {
            assert(self.ids@ =~= Seq::<u64>::empty());
        }
    }
}

} // verus!
