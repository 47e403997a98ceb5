//! Per-group presence: which users currently hold open connections, and
//! through which connection ids.
//!
//! A user may be connected from several devices at once.  `increment` and
//! `decrement` report the boundary crossings (offline to online and back), so
//! callers never re-derive the counting logic.  No entry with an empty
//! connection list is ever kept.

use vstd::prelude::*;

use crate::assoc::{assoc_find, has_key, index_of_key, keys_distinct, lemma_index_of_key, value_of,
    position_usize, vec_index_mut};
use crate::protocol::{ConnID, UserID};

verus! {

/// The presence table of one group: user id to the non-empty list of that
/// user's open connection ids, in order of admission.
pub struct Presence {
    pub entries: Vec<(UserID, Vec<ConnID>)>,
}

impl Presence {
    /// The user has at least one open connection here.
    pub open spec fn is_online(self, u: UserID) -> bool {
        has_key(self.entries@, u)
    }

    /// The connection ids the user holds here (meaningful when online).
    pub open spec fn conns_of(self, u: UserID) -> Seq<ConnID> {
        value_of(self.entries@, u)@
    }

    /// Some user holds connection `c` here.
    pub open spec fn has_conn(self, c: ConnID) -> bool {
        exists|i: int, k: int|
            0 <= i < self.entries@.len() && 0 <= k < self.entries@[i].1@.len()
                && self.entries@[i].1@[k] == c
    }

    /// User `u` holds connection `c` here.
    pub open spec fn holds(self, u: UserID, c: ConnID) -> bool {
        self.is_online(u) && self.conns_of(u).contains(c)
    }

    /// No connection id occurs twice, neither within one user's list nor
    /// across users.
    pub open spec fn conns_disjoint(self) -> bool {
        forall|i: int, k: int, j: int, l: int|
            0 <= i < self.entries@.len() && 0 <= k < self.entries@[i].1@.len() && 0 <= j
                < self.entries@.len() && 0 <= l < self.entries@[j].1@.len() && (i != j || k != l)
                ==> #[trigger] self.entries@[i].1@[k] != #[trigger] self.entries@[j].1@[l]
    }

    /// Well-formed: one entry per user, every entry non-empty, no connection
    /// id repeated.
    pub open spec fn wf(self) -> bool {
        &&& keys_distinct(self.entries@)
        &&& forall|i: int|
            0 <= i < self.entries@.len() ==> (#[trigger] self.entries@[i]).1@.len() > 0
        &&& self.conns_disjoint()
    }

    /// An empty table: nobody online.
    pub fn new() -> (r: Presence)
        ensures
            r.wf(),
            r.entries@.len() == 0,
            forall|u: UserID| !r.is_online(u),
            forall|c: ConnID| !r.has_conn(c),
    {
        Presence { entries: Vec::new() }
    }

    /// A table with a single user holding a single connection.
    pub fn singleton(user_id: UserID, conn_id: ConnID) -> (r: Presence)
        ensures
            r.wf(),
            r.is_online(user_id),
            r.conns_of(user_id) == seq![conn_id],
            forall|u: UserID| u != user_id ==> !r.is_online(u),
            forall|c: ConnID| r.has_conn(c) == (c == conn_id),
            r.entries@.len() == 1,
    {
        let mut conns: Vec<ConnID> = Vec::new();
        conns.push(conn_id);
        let mut entries: Vec<(UserID, Vec<ConnID>)> = Vec::new();
        entries.push((user_id, conns));
        let r = Presence { entries };
        proof {
            lemma_index_of_key(r.entries@, user_id, 0);
            assert(r.conns_of(user_id) =~= seq![conn_id]);
            assert forall|c: ConnID| r.has_conn(c) == (c == conn_id) by {
                if c == conn_id {
                    assert(r.entries@[0].1@[0] == c);
                }
            }
        }
        r
    }

    /// Record one more connection of `user_id`.  Returns true exactly when
    /// this is the crossing from offline to online (the user had none here).
    pub fn increment(&mut self, user_id: UserID, conn_id: ConnID) -> (came_online: bool)
        requires
            old(self).wf(),
            !old(self).has_conn(conn_id),
        ensures
            final(self).wf(),
            came_online == !old(self).is_online(user_id),
            final(self).is_online(user_id),
            old(self).is_online(user_id) ==> final(self).conns_of(user_id) == old(self).conns_of(
                user_id,
            ).push(conn_id),
            !old(self).is_online(user_id) ==> final(self).conns_of(user_id) == seq![conn_id],
            forall|v: UserID| v != user_id ==> final(self).is_online(v) == old(self).is_online(v),
            forall|v: UserID|
                v != user_id && old(self).is_online(v) ==> final(self).conns_of(v) == old(
                    self,
                ).conns_of(v),
            forall|c: ConnID| final(self).has_conn(c) == (old(self).has_conn(c) || c == conn_id),
    {
        let ghost pre = *self;
        match assoc_find(&self.entries, user_id) {
            Some(i) => {
                proof {
                    lemma_index_of_key(pre.entries@, user_id, i as int);
                }
                let entry = vec_index_mut(&mut self.entries, i);
                entry.1.push(conn_id);
                proof {
                    self.lemma_after_push_existing(pre, user_id, conn_id, i as int);
                }
                false
            },
            None => {
                let mut conns: Vec<ConnID> = Vec::new();
                conns.push(conn_id);
                self.entries.push((user_id, conns));
                proof {
                    assert(self.entries@[pre.entries@.len() as int].1@ =~= seq![conn_id]);
                    self.lemma_after_push_new(pre, user_id, conn_id);
                }
                true
            },
        }
    }

    /// Forget one connection of `user_id`.  Returns true exactly when this is
    /// the crossing from online to offline (it was the user's last one); the
    /// emptied entry is removed.  A connection the user does not hold is
    /// ignored: the table is left as it was.
    pub fn decrement(&mut self, user_id: UserID, conn_id: ConnID) -> (went_offline: bool)
        requires
            old(self).wf(),
        ensures
            final(self).wf(),
            went_offline == (old(self).is_online(user_id) && old(self).conns_of(user_id)
                == seq![conn_id]),
            !old(self).holds(user_id, conn_id) ==> *final(self) == *old(self),
            old(self).holds(user_id, conn_id) ==> final(self).is_online(user_id) == (old(
                self,
            ).conns_of(user_id).len() > 1),
            old(self).holds(user_id, conn_id) && old(self).conns_of(user_id).len() > 1 ==> exists|
                p: int,
            |
                0 <= p < old(self).conns_of(user_id).len() && old(self).conns_of(user_id)[p]
                    == conn_id && final(self).conns_of(user_id) == old(self).conns_of(
                    user_id,
                ).remove(p),
            forall|v: UserID| v != user_id ==> final(self).is_online(v) == old(self).is_online(v),
            forall|v: UserID|
                v != user_id && old(self).is_online(v) ==> final(self).conns_of(v) == old(
                    self,
                ).conns_of(v),
            forall|c: ConnID|
                final(self).has_conn(c) == (old(self).has_conn(c) && !(old(self).holds(
                    user_id,
                    conn_id,
                ) && c == conn_id)),
    {
        let ghost pre = *self;
        let i = match assoc_find(&self.entries, user_id) {
            Some(i) => i,
            None => {
                return false;
            },
        };
        proof {
            lemma_index_of_key(pre.entries@, user_id, i as int);
        }
        let p = match position_usize(&self.entries[i].1, conn_id) {
            Some(p) => p,
            None => {
                proof {
                    if pre.conns_of(user_id) == seq![conn_id] {
                        assert(pre.conns_of(user_id)[0] == conn_id);
                    }
                }
                return false;
            },
        };
        if self.entries[i].1.len() == 1 {
            self.entries.remove(i);
            proof {
                assert(pre.entries@[i as int].1@ =~= seq![conn_id]);
                self.lemma_after_remove_entry(pre, user_id, conn_id, i as int);
                assert(pre.conns_of(user_id) =~= seq![conn_id]);
            }
            true
        } else {
            let entry = vec_index_mut(&mut self.entries, i);
            entry.1.remove(p);
            proof {
                self.lemma_after_remove_conn(pre, user_id, conn_id, i as int, p as int);
                assert(pre.conns_of(user_id)[p as int] == conn_id);
                assert(pre.conns_of(user_id) != seq![conn_id]) by {
                    assert(pre.conns_of(user_id).len() > 1);
                }
            }
            false
        }
    }

    /// Helper facts after appending `conn_id` to the list of entry `i`.
    proof fn lemma_after_push_existing(self, pre: Presence, user_id: UserID, conn_id: ConnID, i: int)
        requires
            pre.wf(),
            !pre.has_conn(conn_id),
            0 <= i < pre.entries@.len(),
            pre.entries@[i].0 == user_id,
            self.entries@.len() == pre.entries@.len(),
            forall|j: int|
                0 <= j < self.entries@.len() && j != i ==> #[trigger] self.entries@[j]
                    == pre.entries@[j],
            self.entries@[i].0 == user_id,
            self.entries@[i].1@ == pre.entries@[i].1@.push(conn_id),
        ensures
            self.wf(),
            self.is_online(user_id),
            self.conns_of(user_id) == pre.conns_of(user_id).push(conn_id),
            forall|v: UserID| v != user_id ==> self.is_online(v) == pre.is_online(v),
            forall|v: UserID|
                v != user_id && pre.is_online(v) ==> self.conns_of(v) == pre.conns_of(v),
            forall|c: ConnID| self.has_conn(c) == (pre.has_conn(c) || c == conn_id),
    {
        lemma_index_of_key(pre.entries@, user_id, i);
        assert(keys_distinct(self.entries@)) by {
            assert forall|a: int, b: int|
                0 <= a < b < self.entries@.len() implies (#[trigger] self.entries@[a]).0 != (
            #[trigger] self.entries@[b]).0 by {
                assert(self.entries@[a].0 == pre.entries@[a].0);
                assert(self.entries@[b].0 == pre.entries@[b].0);
            }
        }
        lemma_index_of_key(self.entries@, user_id, i);
        assert forall|v: UserID| v != user_id implies self.is_online(v) == pre.is_online(v) by {
            if pre.is_online(v) {
                let j = index_of_key(pre.entries@, v);
                assert(self.entries@[j].0 == v);
            }
            if self.is_online(v) {
                let j = index_of_key(self.entries@, v);
                assert(pre.entries@[j].0 == v);
            }
        }
        assert forall|v: UserID|
            v != user_id && pre.is_online(v) implies self.conns_of(v) == pre.conns_of(v) by {
            let j = index_of_key(pre.entries@, v);
            lemma_index_of_key(pre.entries@, v, j);
            lemma_index_of_key(self.entries@, v, j);
        }
        let n = pre.entries@[i].1@.len() as int;
        assert forall|c: ConnID| self.has_conn(c) == (pre.has_conn(c) || c == conn_id) by {
            if pre.has_conn(c) {
                let (a, b) = choose|a: int, b: int|
                    0 <= a < pre.entries@.len() && 0 <= b < pre.entries@[a].1@.len()
                        && pre.entries@[a].1@[b] == c;
                assert(self.entries@[a].1@[b] == c);
            }
            if c == conn_id {
                assert(self.entries@[i].1@[n] == c);
            }
            if self.has_conn(c) {
                let (a, b) = choose|a: int, b: int|
                    0 <= a < self.entries@.len() && 0 <= b < self.entries@[a].1@.len()
                        && self.entries@[a].1@[b] == c;
                if a == i && b == n {
                    assert(c == conn_id);
                } else {
                    assert(pre.entries@[a].1@[b] == c);
                }
            }
        }
        assert forall|a: int, b: int, j: int, l: int|
            0 <= a < self.entries@.len() && 0 <= b < self.entries@[a].1@.len() && 0 <= j
                < self.entries@.len() && 0 <= l < self.entries@[j].1@.len() && (a != j || b != l)
            implies #[trigger] self.entries@[a].1@[b] != #[trigger] self.entries@[j].1@[l] by {
            if a == i && b == n {
                assert(self.entries@[a].1@[b] == conn_id);
                assert(self.entries@[j].1@[l] == pre.entries@[j].1@[l]);
            } else if j == i && l == n {
                assert(self.entries@[j].1@[l] == conn_id);
                assert(self.entries@[a].1@[b] == pre.entries@[a].1@[b]);
            } else {
                assert(self.entries@[a].1@[b] == pre.entries@[a].1@[b]);
                assert(self.entries@[j].1@[l] == pre.entries@[j].1@[l]);
            }
        }
    }

    /// Helper facts after appending a fresh entry for `user_id`.
    proof fn lemma_after_push_new(self, pre: Presence, user_id: UserID, conn_id: ConnID)
        requires
            pre.wf(),
            !pre.has_conn(conn_id),
            !pre.is_online(user_id),
            self.entries@.len() == pre.entries@.len() + 1,
            forall|j: int|
                0 <= j < pre.entries@.len() ==> #[trigger] self.entries@[j] == pre.entries@[j],
            self.entries@[pre.entries@.len() as int].0 == user_id,
            self.entries@[pre.entries@.len() as int].1@ == seq![conn_id],
        ensures
            self.wf(),
            self.is_online(user_id),
            self.conns_of(user_id) == seq![conn_id],
            forall|v: UserID| v != user_id ==> self.is_online(v) == pre.is_online(v),
            forall|v: UserID|
                v != user_id && pre.is_online(v) ==> self.conns_of(v) == pre.conns_of(v),
            forall|c: ConnID| self.has_conn(c) == (pre.has_conn(c) || c == conn_id),
    {
        let n = pre.entries@.len() as int;
        assert(keys_distinct(self.entries@)) by {
            assert forall|a: int, b: int|
                0 <= a < b < self.entries@.len() implies (#[trigger] self.entries@[a]).0 != (
            #[trigger] self.entries@[b]).0 by {
                if b == n {
                    if self.entries@[a].0 == user_id {
                        assert(pre.entries@[a].0 == user_id);
                    }
                } else {
                    assert(self.entries@[a].0 == pre.entries@[a].0);
                    assert(self.entries@[b].0 == pre.entries@[b].0);
                }
            }
        }
        lemma_index_of_key(self.entries@, user_id, n);
        assert forall|v: UserID| v != user_id implies self.is_online(v) == pre.is_online(v) by {
            if pre.is_online(v) {
                let j = index_of_key(pre.entries@, v);
                assert(self.entries@[j].0 == v);
            }
            if self.is_online(v) {
                let j = index_of_key(self.entries@, v);
                assert(j != n);
                assert(pre.entries@[j].0 == v);
            }
        }
        assert forall|v: UserID|
            v != user_id && pre.is_online(v) implies self.conns_of(v) == pre.conns_of(v) by {
            let j = index_of_key(pre.entries@, v);
            lemma_index_of_key(pre.entries@, v, j);
            lemma_index_of_key(self.entries@, v, j);
        }
        assert forall|c: ConnID| self.has_conn(c) == (pre.has_conn(c) || c == conn_id) by {
            if pre.has_conn(c) {
                let (a, b) = choose|a: int, b: int|
                    0 <= a < pre.entries@.len() && 0 <= b < pre.entries@[a].1@.len()
                        && pre.entries@[a].1@[b] == c;
                assert(self.entries@[a].1@[b] == c);
            }
            if c == conn_id {
                assert(self.entries@[n].1@[0] == c);
            }
            if self.has_conn(c) {
                let (a, b) = choose|a: int, b: int|
                    0 <= a < self.entries@.len() && 0 <= b < self.entries@[a].1@.len()
                        && self.entries@[a].1@[b] == c;
                if a == n {
                    assert(c == conn_id);
                } else {
                    assert(pre.entries@[a].1@[b] == c);
                }
            }
        }
        assert forall|a: int, b: int, j: int, l: int|
            0 <= a < self.entries@.len() && 0 <= b < self.entries@[a].1@.len() && 0 <= j
                < self.entries@.len() && 0 <= l < self.entries@[j].1@.len() && (a != j || b != l)
            implies #[trigger] self.entries@[a].1@[b] != #[trigger] self.entries@[j].1@[l] by {
            if a == n && j == n {
                assert(b == 0 && l == 0);
            } else if a == n {
                assert(self.entries@[a].1@[b] == conn_id);
                assert(self.entries@[j].1@[l] == pre.entries@[j].1@[l]);
            } else if j == n {
                assert(self.entries@[j].1@[l] == conn_id);
                assert(self.entries@[a].1@[b] == pre.entries@[a].1@[b]);
            } else {
                assert(self.entries@[a].1@[b] == pre.entries@[a].1@[b]);
                assert(self.entries@[j].1@[l] == pre.entries@[j].1@[l]);
            }
        }
    }

    /// Helper facts after removing the whole entry `i` (the user's last
    /// connection was `conn_id`).
    proof fn lemma_after_remove_entry(self, pre: Presence, user_id: UserID, conn_id: ConnID, i: int)
        requires
            pre.wf(),
            0 <= i < pre.entries@.len(),
            pre.entries@[i].0 == user_id,
            pre.entries@[i].1@ == seq![conn_id],
            self.entries@ == pre.entries@.remove(i),
        ensures
            self.wf(),
            !self.is_online(user_id),
            pre.holds(user_id, conn_id),
            forall|v: UserID| v != user_id ==> self.is_online(v) == pre.is_online(v),
            forall|v: UserID|
                v != user_id && pre.is_online(v) ==> self.conns_of(v) == pre.conns_of(v),
            forall|c: ConnID|
                self.has_conn(c) == (pre.has_conn(c) && !(pre.holds(user_id, conn_id) && c
                    == conn_id)),
    {
        lemma_index_of_key(pre.entries@, user_id, i);
        assert(pre.holds(user_id, conn_id)) by {
            assert(pre.conns_of(user_id)[0] == conn_id);
        }
        if self.is_online(user_id) {
            let j = index_of_key(self.entries@, user_id);
            if j < i {
                assert(pre.entries@[j].0 == user_id);
            } else {
                assert(pre.entries@[j + 1].0 == user_id);
            }
        }
        assert forall|v: UserID| v != user_id implies self.is_online(v) == pre.is_online(v) by {
            if pre.is_online(v) {
                let j = index_of_key(pre.entries@, v);
                assert(pre.entries@[j].0 == v);
                if j < i {
                    assert(self.entries@[j].0 == v);
                } else {
                    assert(j > i);
                    assert(self.entries@[j - 1].0 == v);
                }
            }
            if self.is_online(v) {
                let j = index_of_key(self.entries@, v);
                if j < i {
                    assert(pre.entries@[j].0 == v);
                } else {
                    assert(pre.entries@[j + 1].0 == v);
                }
            }
        }
        assert forall|v: UserID|
            v != user_id && pre.is_online(v) implies self.conns_of(v) == pre.conns_of(v) by {
            let j = index_of_key(pre.entries@, v);
            lemma_index_of_key(pre.entries@, v, j);
            if j < i {
                lemma_index_of_key(self.entries@, v, j);
            } else {
                assert(j > i);
                assert(self.entries@[j - 1] == pre.entries@[j]);
                lemma_index_of_key(self.entries@, v, j - 1);
            }
        }
        assert forall|c: ConnID|
            self.has_conn(c) == (pre.has_conn(c) && !(pre.holds(user_id, conn_id) && c == conn_id))
        by {
            if self.has_conn(c) {
                let (a, b) = choose|a: int, b: int|
                    0 <= a < self.entries@.len() && 0 <= b < self.entries@[a].1@.len()
                        && self.entries@[a].1@[b] == c;
                let a2 = if a < i { a } else { a + 1 };
                assert(pre.entries@[a2].1@[b] == c);
                assert(c != conn_id);
            }
            if pre.has_conn(c) && c != conn_id {
                let (a, b) = choose|a: int, b: int|
                    0 <= a < pre.entries@.len() && 0 <= b < pre.entries@[a].1@.len()
                        && pre.entries@[a].1@[b] == c;
                assert(a != i);
                if a < i {
                    assert(self.entries@[a].1@[b] == c);
                } else {
                    assert(self.entries@[a - 1].1@[b] == c);
                }
            }
        }
        assert forall|a: int, b: int, j: int, l: int|
            0 <= a < self.entries@.len() && 0 <= b < self.entries@[a].1@.len() && 0 <= j
                < self.entries@.len() && 0 <= l < self.entries@[j].1@.len() && (a != j || b != l)
            implies #[trigger] self.entries@[a].1@[b] != #[trigger] self.entries@[j].1@[l] by {
            let a2 = if a < i { a } else { a + 1 };
            let j2 = if j < i { j } else { j + 1 };
            assert(self.entries@[a].1@[b] == pre.entries@[a2].1@[b]);
            assert(self.entries@[j].1@[l] == pre.entries@[j2].1@[l]);
        }
    }

    /// Helper facts after removing position `p` (holding `conn_id`) from the
    /// list of entry `i`, which keeps further connections.
    proof fn lemma_after_remove_conn(
        self,
        pre: Presence,
        user_id: UserID,
        conn_id: ConnID,
        i: int,
        p: int,
    )
        requires
            pre.wf(),
            0 <= i < pre.entries@.len(),
            pre.entries@[i].0 == user_id,
            0 <= p < pre.entries@[i].1@.len(),
            pre.entries@[i].1@[p] == conn_id,
            pre.entries@[i].1@.len() > 1,
            self.entries@.len() == pre.entries@.len(),
            forall|j: int|
                0 <= j < self.entries@.len() && j != i ==> #[trigger] self.entries@[j]
                    == pre.entries@[j],
            self.entries@[i].0 == user_id,
            self.entries@[i].1@ == pre.entries@[i].1@.remove(p),
        ensures
            self.wf(),
            self.is_online(user_id),
            pre.holds(user_id, conn_id),
            self.conns_of(user_id) == pre.conns_of(user_id).remove(p),
            forall|v: UserID| v != user_id ==> self.is_online(v) == pre.is_online(v),
            forall|v: UserID|
                v != user_id && pre.is_online(v) ==> self.conns_of(v) == pre.conns_of(v),
            forall|c: ConnID|
                self.has_conn(c) == (pre.has_conn(c) && !(pre.holds(user_id, conn_id) && c
                    == conn_id)),
    {
        lemma_index_of_key(pre.entries@, user_id, i);
        assert(pre.holds(user_id, conn_id)) by {
            assert(pre.conns_of(user_id)[p] == conn_id);
        }
        assert(keys_distinct(self.entries@)) by {
            assert forall|a: int, b: int|
                0 <= a < b < self.entries@.len() implies (#[trigger] self.entries@[a]).0 != (
            #[trigger] self.entries@[b]).0 by {
                assert(self.entries@[a].0 == pre.entries@[a].0);
                assert(self.entries@[b].0 == pre.entries@[b].0);
            }
        }
        lemma_index_of_key(self.entries@, user_id, i);
        assert forall|v: UserID| v != user_id implies self.is_online(v) == pre.is_online(v) by {
            if pre.is_online(v) {
                let j = index_of_key(pre.entries@, v);
                assert(self.entries@[j].0 == v);
            }
            if self.is_online(v) {
                let j = index_of_key(self.entries@, v);
                assert(pre.entries@[j].0 == v);
            }
        }
        assert forall|v: UserID|
            v != user_id && pre.is_online(v) implies self.conns_of(v) == pre.conns_of(v) by {
            let j = index_of_key(pre.entries@, v);
            lemma_index_of_key(pre.entries@, v, j);
            lemma_index_of_key(self.entries@, v, j);
        }
        assert forall|c: ConnID|
            self.has_conn(c) == (pre.has_conn(c) && !(pre.holds(user_id, conn_id) && c == conn_id))
        by {
            if self.has_conn(c) {
                let (a, b) = choose|a: int, b: int|
                    0 <= a < self.entries@.len() && 0 <= b < self.entries@[a].1@.len()
                        && self.entries@[a].1@[b] == c;
                if a != i {
                    assert(pre.entries@[a].1@[b] == c);
                    assert(c != conn_id);
                } else {
                    let b2 = if b < p { b } else { b + 1 };
                    assert(pre.entries@[i].1@[b2] == c);
                    assert(c != conn_id);
                }
            }
            if pre.has_conn(c) && c != conn_id {
                let (a, b) = choose|a: int, b: int|
                    0 <= a < pre.entries@.len() && 0 <= b < pre.entries@[a].1@.len()
                        && pre.entries@[a].1@[b] == c;
                if a != i {
                    assert(self.entries@[a].1@[b] == c);
                } else {
                    assert(b != p);
                    if b < p {
                        assert(self.entries@[i].1@[b] == c);
                    } else {
                        assert(self.entries@[i].1@[b - 1] == c);
                    }
                }
            }
        }
        assert forall|a: int, b: int, j: int, l: int|
            0 <= a < self.entries@.len() && 0 <= b < self.entries@[a].1@.len() && 0 <= j
                < self.entries@.len() && 0 <= l < self.entries@[j].1@.len() && (a != j || b != l)
            implies #[trigger] self.entries@[a].1@[b] != #[trigger] self.entries@[j].1@[l] by {
            let b2 = if a != i || b < p {
                b
            } else {
                b + 1
            };
            let l2 = if j != i || l < p {
                l
            } else {
                l + 1
            };
            assert(self.entries@[a].1@[b] == pre.entries@[a].1@[b2]);
            assert(self.entries@[j].1@[l] == pre.entries@[j].1@[l2]);
            if a == j && b != l {
                assert(b2 != l2);
            }
        }
    }

    /// The users currently online, in entry order.
    pub fn online_user_ids(&self) -> (r: Vec<UserID>)
        ensures
            r@.len() == self.entries@.len(),
            forall|i: int| 0 <= i < r@.len() ==> r@[i] == (#[trigger] self.entries@[i]).0,
            forall|u: UserID| r@.contains(u) == self.is_online(u),
    {
        let mut r: Vec<UserID> = Vec::new();
        let mut i: usize = 0;
        while i < self.entries.len()
            invariant
                i <= self.entries@.len(),
                r@.len() == i,
                forall|j: int| 0 <= j < i ==> r@[j] == (#[trigger] self.entries@[j]).0,
            decreases self.entries@.len() - i,
        {
            r.push(self.entries[i].0);
            i += 1;
        }
        proof {
            assert forall|u: UserID| r@.contains(u) == self.is_online(u) by {
                if r@.contains(u) {
                    let j = choose|j: int| 0 <= j < r@.len() && r@[j] == u;
                    assert(self.entries@[j].0 == u);
                }
                if self.is_online(u) {
                    let j = index_of_key(self.entries@, u);
                    assert(r@[j] == u);
                }
            }
        }
        r
    }

    /// Whether `user_id` is online, and through which entry.
    pub fn find_user(&self, user_id: UserID) -> (r: Option<usize>)
        ensures
            match r {
                Some(i) => i < self.entries@.len() && self.entries@[i as int].0 == user_id
                    && self.is_online(user_id),
                None => !self.is_online(user_id),
            },
    {
        assoc_find(&self.entries, user_id)
    }

    /// A copy of the connection ids `user_id` holds here, empty when offline.
    pub fn conns_of_user(&self, user_id: UserID) -> (r: Vec<ConnID>)
        requires
            self.wf(),
        ensures
            self.is_online(user_id) ==> r@ == self.conns_of(user_id),
            !self.is_online(user_id) ==> r@.len() == 0,
    {
        match self.find_user(user_id) {
            Some(i) => {
                proof {
                    lemma_index_of_key(self.entries@, user_id, i as int);
                }
                let mut r: Vec<ConnID> = Vec::new();
                let mut k: usize = 0;
                while k < self.entries[i].1.len()
                    invariant
                        i < self.entries@.len(),
                        k <= self.entries@[i as int].1@.len(),
                        r@ == self.entries@[i as int].1@.subrange(0, k as int),
                    decreases self.entries@[i as int].1@.len() - k,
                {
                    r.push(self.entries[i].1[k]);
                    proof {
                        assert(r@ =~= self.entries@[i as int].1@.subrange(0, k + 1));
                    }
                    k += 1;
                }
                proof {
                    assert(r@ =~= self.entries@[i as int].1@);
                }
                r
            },
            None => Vec::new(),
        }
    }
}

} // verus!
