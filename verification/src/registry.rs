//! The group registry: the nested, shared state of the hub.
//!
//! A `Group` is the live state of one chat group while at least one
//! connection to it is open: its channel cache, its connection list and its
//! presence table.  The `Registry` maps group ids to groups and keeps the
//! reverse user-to-groups index in lock step.  Callers hold the registry
//! behind a reader/writer lock: structural changes (`join`, `leave`, cache
//! mutation) run under exclusive access, broadcasts and reads under shared
//! access; the lock itself lives with the embedding program.
//!
//! Two invariants of the registry hold in every reachable state and are part
//! of `Registry::wf`:
//! - a group is present exactly while its connection list is non-empty;
//! - the index lists `(user, group)` exactly when that user holds at least
//!   one open connection in that group.

use vstd::prelude::*;

use crate::assoc::{assoc_find, contains_usize, distinct_seq, has_key, keys_distinct,
    lemma_index_of_key, lemma_push_pair, lemma_remove_pair, lemma_update_pair, position_i32,
    position_usize, value_of, vec_index_mut};
use crate::presence::Presence;
use crate::protocol::{Channel, ChannelID, ConnID, Delivery, GroupID, ServerEvent, UserID,
    UserStatus};

verus! {

/// The channel ids of `channels` are in strictly ascending order.
pub open spec fn channels_sorted(channels: Seq<Channel>) -> bool {
    forall|i: int, j: int|
        0 <= i < j < channels.len() ==> (#[trigger] channels[i]).channel_id < (
        #[trigger] channels[j]).channel_id
}

/// Live state of one chat group: the channel cache mirrored from storage,
/// the ids of the open connections (each one's outbound mailbox is owned by
/// the task that registered it), and the presence table.
pub struct Group {
    pub channels: Vec<Channel>,
    pub connections: Vec<ConnID>,
    pub presence: Presence,
}

impl Group {
    /// The cache holds a channel with this id.
    pub open spec fn has_channel(self, id: ChannelID) -> bool {
        exists|i: int| 0 <= i < self.channels@.len() && (#[trigger] self.channels@[i]).channel_id == id
    }

    /// The cache index of the channel with this id (meaningful when present).
    pub open spec fn channel_index_of(self, id: ChannelID) -> int {
        choose|i: int| 0 <= i < self.channels@.len() && (#[trigger] self.channels@[i]).channel_id == id
    }

    /// The cached name of the channel with this id.
    pub open spec fn channel_name_of(self, id: ChannelID) -> Seq<char> {
        self.channels@[self.channel_index_of(id)].name@
    }

    /// Connection `c` is open in this group.
    pub open spec fn has_conn(self, c: ConnID) -> bool {
        self.connections@.contains(c)
    }

    /// Well-formed: sorted cache, duplicate-free connection list, well-formed
    /// presence, and the connection list holds exactly the connections the
    /// presence table accounts for.
    pub open spec fn wf(self) -> bool {
        &&& channels_sorted(self.channels@)
        &&& distinct_seq(self.connections@)
        &&& self.presence.wf()
        &&& forall|c: ConnID|
            #![trigger self.connections@.contains(c)]
            #![trigger self.presence.has_conn(c)]
            self.connections@.contains(c) == self.presence.has_conn(c)
    }

    /// In a sorted cache the index found for an id is the only one.
    pub proof fn lemma_channel_index(self, id: ChannelID, i: int)
        requires
            channels_sorted(self.channels@),
            0 <= i < self.channels@.len(),
            self.channels@[i].channel_id == id,
        ensures
            self.has_channel(id),
            self.channel_index_of(id) == i,
    {
        assert(0 <= i < self.channels@.len() && self.channels@[i].channel_id == id);
        let j = self.channel_index_of(id);
        if i < j {
            assert(self.channels@[i].channel_id < self.channels@[j].channel_id);
        } else if j < i {
            assert(self.channels@[j].channel_id < self.channels@[i].channel_id);
        }
    }

    /// Binary search of the sorted channel cache.
    pub fn find_channel(&self, channel_id: ChannelID) -> (r: Option<usize>)
        requires
            channels_sorted(self.channels@),
        ensures
            match r {
                Some(i) => i < self.channels@.len() && self.channels@[i as int].channel_id
                    == channel_id && self.has_channel(channel_id) && self.channel_index_of(
                    channel_id,
                ) == i,
                None => !self.has_channel(channel_id),
            },
    {
        let mut lo: usize = 0;
        let mut hi: usize = self.channels.len();
        while lo < hi
            invariant
                lo <= hi <= self.channels@.len(),
                channels_sorted(self.channels@),
                forall|j: int|
                    0 <= j < self.channels@.len() && (#[trigger] self.channels@[j]).channel_id
                        == channel_id ==> lo <= j < hi,
            decreases hi - lo,
        {
            let mid = lo + (hi - lo) / 2;
            let id = self.channels[mid].channel_id;
            if id == channel_id {
                proof {
                    self.lemma_channel_index(channel_id, mid as int);
                }
                return Some(mid);
            } else if id < channel_id {
                lo = mid + 1;
            } else {
                hi = mid;
            }
        }
        None
    }

    /// Whether the cache knows this channel id.
    pub fn contains_channel(&self, channel_id: ChannelID) -> (r: bool)
        requires
            channels_sorted(self.channels@),
        ensures
            r == self.has_channel(channel_id),
    {
        self.find_channel(channel_id).is_some()
    }

    /// A copy of the channel cache, for a channel-list reply.
    pub fn channel_list(&self) -> (r: Vec<Channel>)
        ensures
            r@ == self.channels@,
    {
        let mut r: Vec<Channel> = Vec::new();
        let mut i: usize = 0;
        while i < self.channels.len()
            invariant
                i <= self.channels@.len(),
                r@.len() == i,
                forall|j: int| 0 <= j < i ==> r@[j] == self.channels@[j],
            decreases self.channels@.len() - i,
        {
            let name = self.channels[i].name.clone();
            let channel_id = self.channels[i].channel_id;
            r.push(Channel { channel_id, name });
            i += 1;
        }
        proof {
            assert(r@ =~= self.channels@);
        }
        r
    }

    /// Install a channel in the sorted cache: a fresh id is inserted at its
    /// place, a known id has its name replaced.
    pub fn install_channel(&mut self, channel_id: ChannelID, name: String)
        requires
            channels_sorted(old(self).channels@),
        ensures
            channels_sorted(final(self).channels@),
            final(self).has_channel(channel_id),
            final(self).channel_name_of(channel_id) == name@,
            final(self).channels@.len() == old(self).channels@.len() + (if old(self).has_channel(
                channel_id,
            ) {
                0int
            } else {
                1int
            }),
            forall|id2: ChannelID|
                id2 != channel_id ==> final(self).has_channel(id2) == old(self).has_channel(id2),
            forall|id2: ChannelID|
                id2 != channel_id && old(self).has_channel(id2) ==> final(self).channels@[final(self).channel_index_of(id2)] == old(self).channels@[old(self).channel_index_of(id2)],
            final(self).connections == old(self).connections,
            final(self).presence == old(self).presence,
    {
        let ghost pre = *self;
        let mut i: usize = 0;
        while i < self.channels.len() && self.channels[i].channel_id < channel_id
            invariant
                i <= self.channels@.len(),
                channels_sorted(self.channels@),
                forall|j: int|
                    0 <= j < i ==> (#[trigger] self.channels@[j]).channel_id < channel_id,
                *self == pre,
            decreases self.channels@.len() - i,
        {
            i += 1;
        }
        let found = i < self.channels.len() && self.channels[i].channel_id == channel_id;
        if found {
            proof {
                pre.lemma_channel_index(channel_id, i as int);
            }
            let entry = vec_index_mut(&mut self.channels, i);
            entry.name = name;
            proof {
                self.lemma_cache_after_replace(pre, channel_id, name@, i as int);
            }
        } else {
            proof {
                assert(!pre.has_channel(channel_id)) by {
                    if pre.has_channel(channel_id) {
                        let j = choose|j: int|
                            0 <= j < pre.channels@.len() && (
                            #[trigger] pre.channels@[j]).channel_id == channel_id;
                        if j < i as int {
                        } else if j > i as int {
                            assert(pre.channels@[i as int].channel_id
                                < pre.channels@[j].channel_id);
                        }
                    }
                }
            }
            self.channels.insert(i, Channel { channel_id, name });
            proof {
                self.lemma_cache_after_insert(pre, channel_id, name@, i as int);
            }
        }
    }

    /// Facts after replacing the name of the cache entry at `i`.
    proof fn lemma_cache_after_replace(self, pre: Group, channel_id: ChannelID, name: Seq<char>, i:
        int)
        requires
            channels_sorted(pre.channels@),
            0 <= i < pre.channels@.len(),
            pre.channels@[i].channel_id == channel_id,
            self.channels@.len() == pre.channels@.len(),
            forall|j: int|
                0 <= j < self.channels@.len() && j != i ==> #[trigger] self.channels@[j]
                    == pre.channels@[j],
            self.channels@[i].channel_id == channel_id,
            self.channels@[i].name@ == name,
        ensures
            channels_sorted(self.channels@),
            self.has_channel(channel_id),
            self.channel_name_of(channel_id) == name,
            forall|id2: ChannelID|
                id2 != channel_id ==> self.has_channel(id2) == pre.has_channel(id2),
            forall|id2: ChannelID|
                id2 != channel_id && pre.has_channel(id2) ==> self.channels@[self.channel_index_of(
                    id2,
                )] == pre.channels@[pre.channel_index_of(id2)],
    {
        assert(channels_sorted(self.channels@)) by {
            assert forall|a: int, b: int|
                0 <= a < b < self.channels@.len() implies (#[trigger] self.channels@[a]).channel_id
                < (#[trigger] self.channels@[b]).channel_id by {
                assert(self.channels@[a].channel_id == pre.channels@[a].channel_id);
                assert(self.channels@[b].channel_id == pre.channels@[b].channel_id);
            }
        }
        self.lemma_channel_index(channel_id, i);
        assert forall|id2: ChannelID|
            id2 != channel_id implies self.has_channel(id2) == pre.has_channel(id2) by {
            if pre.has_channel(id2) {
                let j = pre.channel_index_of(id2);
                assert(self.channels@[j].channel_id == id2);
            }
            if self.has_channel(id2) {
                let j = self.channel_index_of(id2);
                assert(pre.channels@[j].channel_id == id2);
            }
        }
        assert forall|id2: ChannelID|
            id2 != channel_id && pre.has_channel(id2) implies self.channels@[self.channel_index_of(
            id2,
        )] == pre.channels@[pre.channel_index_of(id2)] by {
            let j = pre.channel_index_of(id2);
            pre.lemma_channel_index(id2, j);
            self.lemma_channel_index(id2, j);
        }
    }

    /// Facts after inserting a fresh cache entry at `i`.
    proof fn lemma_cache_after_insert(self, pre: Group, channel_id: ChannelID, name: Seq<char>, i:
        int)
        requires
            channels_sorted(pre.channels@),
            !pre.has_channel(channel_id),
            0 <= i <= pre.channels@.len(),
            forall|j: int| 0 <= j < i ==> (#[trigger] pre.channels@[j]).channel_id < channel_id,
            i < pre.channels@.len() ==> pre.channels@[i].channel_id > channel_id,
            self.channels@ == pre.channels@.insert(i, self.channels@[i]),
            self.channels@[i].channel_id == channel_id,
            self.channels@[i].name@ == name,
        ensures
            channels_sorted(self.channels@),
            self.has_channel(channel_id),
            self.channel_name_of(channel_id) == name,
            self.channels@.len() == pre.channels@.len() + 1,
            forall|id2: ChannelID|
                id2 != channel_id ==> self.has_channel(id2) == pre.has_channel(id2),
            forall|id2: ChannelID|
                id2 != channel_id && pre.has_channel(id2) ==> self.channels@[self.channel_index_of(
                    id2,
                )] == pre.channels@[pre.channel_index_of(id2)],
    {
        assert forall|j: int| 0 <= j < self.channels@.len() implies #[trigger] self.channels@[j]
            == (if j < i {
            pre.channels@[j]
        } else if j == i {
            self.channels@[i]
        } else {
            pre.channels@[j - 1]
        }) by {}
        assert(channels_sorted(self.channels@)) by {
            assert forall|a: int, b: int|
                0 <= a < b < self.channels@.len() implies (#[trigger] self.channels@[a]).channel_id
                < (#[trigger] self.channels@[b]).channel_id by {
                if a == i {
                    assert(b > i);
                    assert(self.channels@[b] == pre.channels@[b - 1]);
                    if b - 1 > i - 1 && b - 1 < pre.channels@.len() {
                        if b - 1 == i {
                            assert(pre.channels@[i].channel_id > channel_id);
                        } else {
                            assert(i < pre.channels@.len());
                            assert(pre.channels@[i].channel_id < pre.channels@[b - 1].channel_id);
                        }
                    }
                } else if b == i {
                    assert(a < i);
                    assert(self.channels@[a] == pre.channels@[a]);
                } else if a < i && b > i {
                    assert(self.channels@[a] == pre.channels@[a]);
                    assert(self.channels@[b] == pre.channels@[b - 1]);
                    if a < b - 1 {
                        assert(pre.channels@[a].channel_id < pre.channels@[b - 1].channel_id);
                    } else {
                        assert(pre.channels@[a].channel_id < channel_id);
                        assert(i < pre.channels@.len());
                    }
                } else if b < i {
                    assert(self.channels@[a] == pre.channels@[a]);
                    assert(self.channels@[b] == pre.channels@[b]);
                } else {
                    assert(a > i);
                    assert(self.channels@[a] == pre.channels@[a - 1]);
                    assert(self.channels@[b] == pre.channels@[b - 1]);
                }
            }
        }
        self.lemma_channel_index(channel_id, i);
        assert forall|id2: ChannelID|
            id2 != channel_id implies self.has_channel(id2) == pre.has_channel(id2) by {
            if pre.has_channel(id2) {
                let j = pre.channel_index_of(id2);
                assert(pre.channels@[j].channel_id == id2);
                if j < i {
                    assert(self.channels@[j].channel_id == id2);
                } else {
                    assert(self.channels@[j + 1].channel_id == id2);
                }
            }
            if self.has_channel(id2) {
                let j = self.channel_index_of(id2);
                if j < i {
                    assert(pre.channels@[j].channel_id == id2);
                } else {
                    assert(j > i);
                    assert(pre.channels@[j - 1].channel_id == id2);
                }
            }
        }
        assert forall|id2: ChannelID|
            id2 != channel_id && pre.has_channel(id2) implies self.channels@[self.channel_index_of(
            id2,
        )] == pre.channels@[pre.channel_index_of(id2)] by {
            let j = pre.channel_index_of(id2);
            pre.lemma_channel_index(id2, j);
            if j < i {
                self.lemma_channel_index(id2, j);
            } else {
                assert(self.channels@[j + 1] == pre.channels@[j]);
                self.lemma_channel_index(id2, j + 1);
            }
        }
    }

    /// Drop a channel from the cache; an unknown id is ignored.
    pub fn remove_channel(&mut self, channel_id: ChannelID)
        requires
            channels_sorted(old(self).channels@),
        ensures
            channels_sorted(final(self).channels@),
            !final(self).has_channel(channel_id),
            !old(self).has_channel(channel_id) ==> *final(self) == *old(self),
            old(self).has_channel(channel_id) ==> final(self).channels@.len() == old(self).channels@.len() - 1,
            forall|id2: ChannelID|
                id2 != channel_id ==> final(self).has_channel(id2) == old(self).has_channel(id2),
            forall|id2: ChannelID|
                id2 != channel_id && old(self).has_channel(id2) ==> final(self).channels@[final(self).channel_index_of(id2)] == old(self).channels@[old(self).channel_index_of(id2)],
            final(self).connections == old(self).connections,
            final(self).presence == old(self).presence,
    {
        let ghost pre = *self;
        match self.find_channel(channel_id) {
            None => {},
            Some(i) => {
                self.channels.remove(i);
                proof {
                    assert forall|j: int|
                        0 <= j < self.channels@.len() implies #[trigger] self.channels@[j] == (if j
                        < i as int {
                        pre.channels@[j]
                    } else {
                        pre.channels@[j + 1]
                    }) by {}
                    assert(channels_sorted(self.channels@)) by {
                        assert forall|a: int, b: int|
                            0 <= a < b < self.channels@.len() implies (
                        #[trigger] self.channels@[a]).channel_id < (
                        #[trigger] self.channels@[b]).channel_id by {
                            let a2 = if a < i as int { a } else { a + 1 };
                            let b2 = if b < i as int { b } else { b + 1 };
                            assert(self.channels@[a] == pre.channels@[a2]);
                            assert(self.channels@[b] == pre.channels@[b2]);
                        }
                    }
                    assert(!self.has_channel(channel_id)) by {
                        if self.has_channel(channel_id) {
                            let j = self.channel_index_of(channel_id);
                            let j2 = if j < i as int { j } else { j + 1 };
                            assert(pre.channels@[j2].channel_id == channel_id);
                            pre.lemma_channel_index(channel_id, j2);
                        }
                    }
                    assert forall|id2: ChannelID|
                        id2 != channel_id implies self.has_channel(id2) == pre.has_channel(id2) by {
                        if pre.has_channel(id2) {
                            let j = pre.channel_index_of(id2);
                            assert(pre.channels@[j].channel_id == id2);
                            assert(j != i as int);
                            if j < i as int {
                                assert(self.channels@[j].channel_id == id2);
                            } else {
                                assert(self.channels@[j - 1].channel_id == id2);
                            }
                        }
                        if self.has_channel(id2) {
                            let j = self.channel_index_of(id2);
                            let j2 = if j < i as int { j } else { j + 1 };
                            assert(pre.channels@[j2].channel_id == id2);
                        }
                    }
                    assert forall|id2: ChannelID|
                        id2 != channel_id && pre.has_channel(id2) implies self.channels@[self.channel_index_of(
                        id2,
                    )] == pre.channels@[pre.channel_index_of(id2)] by {
                        let j = pre.channel_index_of(id2);
                        pre.lemma_channel_index(id2, j);
                        if j < i as int {
                            self.lemma_channel_index(id2, j);
                        } else {
                            assert(self.channels@[j - 1] == pre.channels@[j]);
                            self.lemma_channel_index(id2, j - 1);
                        }
                    }
                }
            },
        }
    }

    /// A copy of the open connection ids, the broadcast target set.
    pub fn targets(&self) -> (r: Vec<ConnID>)
        ensures
            r@ == self.connections@,
    {
        let mut r: Vec<ConnID> = Vec::new();
        let mut i: usize = 0;
        while i < self.connections.len()
            invariant
                i <= self.connections@.len(),
                r@ == self.connections@.subrange(0, i as int),
            decreases self.connections@.len() - i,
        {
            r.push(self.connections[i]);
            proof {
                assert(r@ =~= self.connections@.subrange(0, i + 1));
            }
            i += 1;
        }
        proof {
            assert(r@ =~= self.connections@);
        }
        r
    }

    /// The open connection ids other than `origin`: the peers of a sender.
    pub fn targets_except(&self, origin: ConnID) -> (r: Vec<ConnID>)
        requires
            distinct_seq(self.connections@),
        ensures
            distinct_seq(r@),
            !r@.contains(origin),
            forall|c: ConnID| c != origin ==> r@.contains(c) == self.connections@.contains(c),
    {
        let mut r: Vec<ConnID> = Vec::new();
        let mut i: usize = 0;
        while i < self.connections.len()
            invariant
                i <= self.connections@.len(),
                distinct_seq(self.connections@),
                !r@.contains(origin),
                distinct_seq(r@),
                forall|c: ConnID|
                    c != origin ==> r@.contains(c) == self.connections@.subrange(
                        0,
                        i as int,
                    ).contains(c),
            decreases self.connections@.len() - i,
        {
            let c = self.connections[i];
            let ghost pre_r = r@;
            let ghost pre_sub = self.connections@.subrange(0, i as int);
            let ghost sub = self.connections@.subrange(0, i + 1);
            if c != origin {
                proof {
                    assert(!pre_r.contains(c)) by {
                        if pre_r.contains(c) {
                            assert(pre_sub.contains(c));
                            let m = choose|m: int| 0 <= m < pre_sub.len() && pre_sub[m] == c;
                            assert(self.connections@[m] == c);
                            assert(self.connections@[i as int] == c);
                        }
                    }
                }
                r.push(c);
                proof {
                    assert(distinct_seq(r@)) by {
                        assert forall|a: int, b: int|
                            0 <= a < b < r@.len() implies r@[a] != r@[b] by {
                            if b == pre_r.len() {
                                assert(r@[b] == c);
                                assert(r@[a] == pre_r[a]);
                                if r@[a] == c {
                                    assert(pre_r.contains(c));
                                }
                            } else {
                                assert(r@[a] == pre_r[a]);
                                assert(r@[b] == pre_r[b]);
                            }
                        }
                    }
                    assert(!r@.contains(origin)) by {
                        if r@.contains(origin) {
                            let m = choose|m: int| 0 <= m < r@.len() && r@[m] == origin;
                            if m < pre_r.len() {
                                assert(pre_r[m] == origin);
                            }
                        }
                    }
                }
            }
            proof {
                assert forall|c2: ConnID|
                    c2 != origin implies r@.contains(c2) == sub.contains(c2) by {
                    let last = self.connections@[i as int];
                    assert(sub.contains(c2) == (pre_sub.contains(c2) || c2 == last)) by {
                        if sub.contains(c2) {
                            let m = choose|m: int| 0 <= m < sub.len() && sub[m] == c2;
                            if m < i as int {
                                assert(pre_sub[m] == c2);
                            }
                        }
                        if pre_sub.contains(c2) {
                            let m = choose|m: int| 0 <= m < pre_sub.len() && pre_sub[m] == c2;
                            assert(sub[m] == c2);
                        }
                        assert(sub[i as int] == last);
                    }
                    if c != origin {
                        assert(r@ == pre_r.push(c));
                        assert(r@.contains(c2) == (pre_r.contains(c2) || c2 == c)) by {
                            if r@.contains(c2) {
                                let m = choose|m: int| 0 <= m < r@.len() && r@[m] == c2;
                                if m < pre_r.len() {
                                    assert(pre_r[m] == c2);
                                }
                            }
                            if pre_r.contains(c2) {
                                let m = choose|m: int| 0 <= m < pre_r.len() && pre_r[m] == c2;
                                assert(r@[m] == c2);
                            }
                            assert(r@[pre_r.len() as int] == c);
                        }
                    } else {
                        assert(r@ == pre_r);
                        if c2 == last {
                            assert(c2 == origin);
                        }
                    }
                }
            }
            i += 1;
        }
        proof {
            assert(self.connections@.subrange(0, self.connections@.len() as int)
                =~= self.connections@);
        }
        r
    }
}

/// What one `join` did: whether it created the group, whether it took the
/// user from offline to online, and the resulting broadcasts.
pub struct JoinOutcome {
    pub created_group: bool,
    pub came_online: bool,
    pub deliveries: Vec<Delivery>,
}

/// What one `leave` did: whether it took the user offline, whether the group
/// itself was removed, and the resulting broadcasts.
pub struct LeaveOutcome {
    pub went_offline: bool,
    pub removed_group: bool,
    pub deliveries: Vec<Delivery>,
}

/// A one-element delivery list.
fn single_delivery(event: ServerEvent, targets: Vec<ConnID>) -> (r: Vec<Delivery>)
    ensures
        r@.len() == 1,
        r@[0].event == event,
        r@[0].targets == targets,
{
    let mut r: Vec<Delivery> = Vec::new();
    r.push(Delivery { event, targets });
    r
}

/// The `(user, group)` pair is listed in the reverse index `idx`.
pub open spec fn index_maps(idx: Seq<(UserID, Vec<GroupID>)>, u: UserID, g: GroupID) -> bool {
    has_key(idx, u) && value_of(idx, u)@.contains(g)
}

/// Hygiene of the reverse index: one entry per user, no empty entry, no
/// duplicate group id within an entry.
pub open spec fn index_hygiene(idx: Seq<(UserID, Vec<GroupID>)>) -> bool {
    &&& keys_distinct(idx)
    &&& forall|i: int|
        0 <= i < idx.len() ==> (#[trigger] idx[i]).1@.len() > 0 && distinct_seq(idx[i].1@)
}

/// The registry of live groups, with the user-to-groups reverse index.
pub struct Registry {
    pub groups: Vec<(GroupID, Group)>,
    pub user_groups: Vec<(UserID, Vec<GroupID>)>,
}

impl Registry {
    /// The group with this id is live.
    pub open spec fn has_group(self, g: GroupID) -> bool {
        has_key(self.groups@, g)
    }

    /// The live group with this id (meaningful when present).
    pub open spec fn group_of(self, g: GroupID) -> Group {
        value_of(self.groups@, g)
    }

    /// The reverse index lists group `g` for user `u`.
    pub open spec fn in_index(self, u: UserID, g: GroupID) -> bool {
        index_maps(self.user_groups@, u, g)
    }

    /// The group ids the reverse index lists for user `u`.
    pub open spec fn groups_of_user(self, u: UserID) -> Seq<GroupID> {
        value_of(self.user_groups@, u)@
    }

    /// Well-formed, the invariant of every reachable registry state:
    /// distinct group ids; every group well-formed and non-empty (a group
    /// exists exactly while it has connections); and the reverse index lists
    /// `(user, group)` exactly when the user is present in that group.
    pub open spec fn wf(self) -> bool {
        &&& keys_distinct(self.groups@)
        &&& forall|j: int| 0 <= j < self.groups@.len() ==> (#[trigger] self.groups@[j]).1.wf()
        &&& forall|j: int|
            0 <= j < self.groups@.len() ==> (#[trigger] self.groups@[j]).1.connections@.len() > 0
        &&& index_hygiene(self.user_groups@)
        &&& forall|u: UserID, g: GroupID|
            #![trigger self.in_index(u, g)]
            #![trigger self.group_of(g).presence.is_online(u)]
            self.in_index(u, g) == (self.has_group(g) && self.group_of(g).presence.is_online(u))
    }

    /// An empty registry: no live groups, an empty index.
    pub fn new() -> (r: Registry)
        ensures
            r.wf(),
            r.groups@.len() == 0,
            r.user_groups@.len() == 0,
            forall|g: GroupID| !r.has_group(g),
            forall|u: UserID, g: GroupID| !r.in_index(u, g),
    {
        Registry { groups: Vec::new(), user_groups: Vec::new() }
    }

    /// Invariant: a group is present in the registry exactly while its
    /// connection map is non-empty (an absent group has, by absence, none).
    pub proof fn lemma_group_existence(self, g: GroupID)
        requires
            self.wf(),
            self.has_group(g),
        ensures
            self.group_of(g).connections@.len() > 0,
    {
        let i = crate::assoc::index_of_key(self.groups@, g);
        lemma_index_of_key(self.groups@, g, i);
    }

    /// Invariant: a user's presence entry in a group exists exactly when the
    /// user has at least one open connection there, and the reverse index
    /// lists the pair exactly under the same condition.
    pub proof fn lemma_presence_index(self, u: UserID, g: GroupID)
        requires
            self.wf(),
        ensures
            self.in_index(u, g) == (self.has_group(g) && self.group_of(g).presence.is_online(u)),
            self.has_group(g) && self.group_of(g).presence.is_online(u) ==> self.group_of(
                g,
            ).presence.conns_of(u).len() > 0,
    {
        if self.has_group(g) {
            let i = crate::assoc::index_of_key(self.groups@, g);
            lemma_index_of_key(self.groups@, g, i);
            assert(self.groups@[i].1.wf());
            let grp = self.group_of(g);
            if grp.presence.is_online(u) {
                let m = crate::assoc::index_of_key(grp.presence.entries@, u);
                lemma_index_of_key(grp.presence.entries@, u, m);
            }
        }
    }

    /// Admit a connection: make sure the group exists (installing the given
    /// channel cache when it is created), insert the connection, update the
    /// presence table and the reverse index, and build the `online` broadcast
    /// when the user crossed from offline to online.  The broadcast is built
    /// after the connection is inserted, so the joiner itself is among its
    /// targets.  Callers run this under exclusive access; a caller that found
    /// the group absent fetches the cache first and passes it here, so
    /// concurrent admissions for one absent group perform exactly one fetch
    /// and create exactly one group.
    pub fn join(
        &mut self,
        group_id: GroupID,
        user_id: UserID,
        conn_id: ConnID,
        fetched_channels: Option<Vec<Channel>>,
    ) -> (r: JoinOutcome)
        requires
            old(self).wf(),
            !old(self).has_group(group_id) ==> (fetched_channels matches Some(c)
                && channels_sorted(c@)),
            old(self).has_group(group_id) ==> !old(self).group_of(group_id).has_conn(conn_id),
        ensures
            final(self).wf(),
            r.created_group == !old(self).has_group(group_id),
            final(self).has_group(group_id),
            r.created_group ==> (fetched_channels matches Some(c) && final(self).group_of(
                group_id,
            ).channels@ == c@),
            !r.created_group ==> final(self).group_of(group_id).channels == old(self).group_of(
                group_id,
            ).channels,
            r.came_online == (r.created_group || !old(self).group_of(
                group_id,
            ).presence.is_online(user_id)),
            final(self).group_of(group_id).presence.is_online(user_id),
            r.came_online ==> final(self).group_of(group_id).presence.conns_of(user_id)
                == seq![conn_id],
            !r.came_online ==> final(self).group_of(group_id).presence.conns_of(user_id) == old(self).group_of(group_id).presence.conns_of(user_id).push(conn_id),
            r.created_group ==> final(self).group_of(group_id).connections@ == seq![conn_id],
            !r.created_group ==> final(self).group_of(group_id).connections@ == old(self).group_of(group_id).connections@.push(conn_id),
            forall|v: UserID|
                v != user_id && old(self).has_group(group_id) ==> final(self).group_of(
                    group_id,
                ).presence.is_online(v) == old(self).group_of(group_id).presence.is_online(v),
            forall|v: UserID|
                v != user_id && old(self).has_group(group_id) && old(self).group_of(
                    group_id,
                ).presence.is_online(v) ==> final(self).group_of(group_id).presence.conns_of(v)
                    == old(self).group_of(group_id).presence.conns_of(v),
            forall|g: GroupID| g != group_id ==> final(self).has_group(g) == old(self).has_group(g),
            forall|g: GroupID|
                g != group_id && old(self).has_group(g) ==> final(self).group_of(g) == old(self).group_of(g),
            forall|u2: UserID, g2: GroupID|
                !(u2 == user_id && g2 == group_id) ==> final(self).in_index(u2, g2) == old(self).in_index(u2, g2),
            final(self).in_index(user_id, group_id),
            r.came_online == (r.deliveries@.len() == 1),
            !r.came_online ==> r.deliveries@.len() == 0,
            r.came_online ==> r.deliveries@[0].event == (ServerEvent::UserStatusChanged {
                user_id,
                status: UserStatus::Online,
            }) && r.deliveries@[0].targets@ == final(self).group_of(group_id).connections@,
    {
        let ghost pre = *self;
        match self.find_group(group_id) {
            None => {
                let channels = match fetched_channels {
                    Some(c) => c,
                    None => {
                        proof {
                            assert(false);
                        }
                        Vec::new()
                    },
                };
                let mut connections: Vec<ConnID> = Vec::new();
                connections.push(conn_id);
                let presence = Presence::singleton(user_id, conn_id);
                let group = Group { channels, connections, presence };
                self.groups.push((group_id, group));
                proof {
                    lemma_push_pair(
                        pre.groups@,
                        group_id,
                        self.groups@[pre.groups@.len() as int].1,
                    );
                    assert(self.groups@ =~= pre.groups@.push(
                        (group_id, self.groups@[pre.groups@.len() as int].1),
                    ));
                    assert(!index_maps(pre.user_groups@, user_id, group_id)) by {
                        assert(pre.in_index(user_id, group_id) == (pre.has_group(group_id)
                            && pre.group_of(group_id).presence.is_online(user_id)));
                    }
                }
                index_add(&mut self.user_groups, user_id, group_id);
                let mut targets: Vec<ConnID> = Vec::new();
                targets.push(conn_id);
                let mut deliveries: Vec<Delivery> = Vec::new();
                deliveries.push(
                    Delivery {
                        event: ServerEvent::UserStatusChanged {
                            user_id,
                            status: UserStatus::Online,
                        },
                        targets,
                    },
                );
                proof {
                    let g0 = self.group_of(group_id);
                    assert(g0.wf()) by {
                        assert(g0.connections@ =~= seq![conn_id]);
                        assert forall|c: ConnID|
                            g0.connections@.contains(c) == g0.presence.has_conn(c) by {
                            if g0.connections@.contains(c) {
                                let m = choose|m: int|
                                    0 <= m < g0.connections@.len() && g0.connections@[m] == c;
                                assert(c == conn_id);
                            }
                            if c == conn_id {
                                assert(g0.connections@[0] == c);
                            }
                        }
                    }
                    assert forall|j: int| 0 <= j < self.groups@.len() implies (
                    #[trigger] self.groups@[j]).1.wf() && self.groups@[j].1.connections@.len() > 0
                        by {
                        if j < pre.groups@.len() {
                            assert(self.groups@[j] == pre.groups@[j]);
                        } else {
                            assert(self.groups@[j].1 == g0);
                            assert(g0.connections@ =~= seq![conn_id]);
                        }
                    }
                    assert forall|u2: UserID, g2: GroupID|
                        #![trigger self.in_index(u2, g2)]
                        #![trigger self.group_of(g2).presence.is_online(u2)]
                        self.in_index(u2, g2) == (self.has_group(g2) && self.group_of(
                            g2,
                        ).presence.is_online(u2)) by {
                        assert(pre.in_index(u2, g2) == (pre.has_group(g2) && pre.group_of(
                            g2,
                        ).presence.is_online(u2)));
                        if g2 == group_id {
                            assert(self.group_of(g2) == g0);
                            if u2 != user_id {
                                assert(!g0.presence.is_online(u2));
                                assert(!pre.has_group(group_id));
                            }
                        }
                    }
                    assert(self.group_of(group_id).connections@ =~= seq![conn_id]);
                    assert(deliveries@[0].targets@ =~= seq![conn_id]);
                }
                JoinOutcome { created_group: true, came_online: true, deliveries }
            },
            Some(gi) => {
                proof {
                    lemma_index_of_key(pre.groups@, group_id, gi as int);
                    assert(pre.groups@[gi as int].1.wf());
                }
                let came_online;
                let targets;
                {
                    let entry = vec_index_mut(&mut self.groups, gi);
                    entry.1.connections.push(conn_id);
                    came_online = entry.1.presence.increment(user_id, conn_id);
                    targets = entry.1.targets();
                }
                proof {
                    lemma_update_pair(pre.groups@, gi as int, self.groups@[gi as int].1);
                    assert(self.groups@ =~= pre.groups@.update(
                        gi as int,
                        (group_id, self.groups@[gi as int].1),
                    ));
                    let g0 = pre.group_of(group_id);
                    let g1 = self.group_of(group_id);
                    assert(g1.connections@ == g0.connections@.push(conn_id));
                    assert(g1.wf()) by {
                        assert(distinct_seq(g1.connections@)) by {
                            assert forall|a: int, b: int|
                                0 <= a < b < g1.connections@.len() implies g1.connections@[a]
                                != g1.connections@[b] by {
                                if b == g0.connections@.len() {
                                    assert(g1.connections@[b] == conn_id);
                                    assert(g1.connections@[a] == g0.connections@[a]);
                                    if g0.connections@[a] == conn_id {
                                        assert(g0.connections@.contains(conn_id));
                                    }
                                } else {
                                    assert(g1.connections@[a] == g0.connections@[a]);
                                    assert(g1.connections@[b] == g0.connections@[b]);
                                }
                            }
                        }
                        assert forall|c: ConnID|
                            g1.connections@.contains(c) == g1.presence.has_conn(c) by {
                            assert(g0.connections@.contains(c) == g0.presence.has_conn(c));
                            if g1.connections@.contains(c) {
                                let m = choose|m: int|
                                    0 <= m < g1.connections@.len() && g1.connections@[m] == c;
                                if m < g0.connections@.len() {
                                    assert(g0.connections@[m] == c);
                                    assert(g0.connections@.contains(c));
                                } else {
                                    assert(c == conn_id);
                                }
                            }
                            if g0.connections@.contains(c) {
                                let m = choose|m: int|
                                    0 <= m < g0.connections@.len() && g0.connections@[m] == c;
                                assert(g1.connections@[m] == c);
                            }
                            if c == conn_id {
                                assert(g1.connections@[g0.connections@.len() as int] == c);
                            }
                        }
                    }
                    assert forall|j: int| 0 <= j < self.groups@.len() implies (
                    #[trigger] self.groups@[j]).1.wf() && self.groups@[j].1.connections@.len() > 0
                        by {
                        if j != gi as int {
                            assert(self.groups@[j] == pre.groups@[j]);
                        } else {
                            assert(self.groups@[j].1 == g1);
                        }
                    }
                }
                if came_online {
                    proof {
                        assert(!index_maps(pre.user_groups@, user_id, group_id)) by {
                            assert(pre.in_index(user_id, group_id) == (pre.has_group(group_id)
                                && pre.group_of(group_id).presence.is_online(user_id)));
                        }
                    }
                    index_add(&mut self.user_groups, user_id, group_id);
                    let mut deliveries: Vec<Delivery> = Vec::new();
                    deliveries.push(
                        Delivery {
                            event: ServerEvent::UserStatusChanged {
                                user_id,
                                status: UserStatus::Online,
                            },
                            targets,
                        },
                    );
                    proof {
                        let g1 = self.group_of(group_id);
                        assert forall|u2: UserID, g2: GroupID|
                            #![trigger self.in_index(u2, g2)]
                            #![trigger self.group_of(g2).presence.is_online(u2)]
                            self.in_index(u2, g2) == (self.has_group(g2) && self.group_of(
                                g2,
                            ).presence.is_online(u2)) by {
                            assert(pre.in_index(u2, g2) == (pre.has_group(g2) && pre.group_of(
                                g2,
                            ).presence.is_online(u2)));
                            if g2 == group_id {
                                assert(self.group_of(g2) == g1);
                            }
                        }
                    }
                    JoinOutcome { created_group: false, came_online: true, deliveries }
                } else {
                    proof {
                        let g1 = self.group_of(group_id);
                        assert forall|u2: UserID, g2: GroupID|
                            #![trigger self.in_index(u2, g2)]
                            #![trigger self.group_of(g2).presence.is_online(u2)]
                            self.in_index(u2, g2) == (self.has_group(g2) && self.group_of(
                                g2,
                            ).presence.is_online(u2)) by {
                            assert(pre.in_index(u2, g2) == (pre.has_group(g2) && pre.group_of(
                                g2,
                            ).presence.is_online(u2)));
                            if g2 == group_id {
                                assert(self.group_of(g2) == g1);
                            }
                        }
                    }
                    JoinOutcome { created_group: false, came_online: false, deliveries: Vec::new() }
                }
            },
        }
    }

    /// Retire a connection: remove it from the group's connection list,
    /// update the presence table, drop the whole group when its last
    /// connection leaves, keep the reverse index in lock step, and build the
    /// `offline` broadcast when the user crossed from online to offline.  A
    /// connection the group does not hold for this user is a no-op: teardown
    /// is idempotent and never panics.
    pub fn leave(&mut self, group_id: GroupID, user_id: UserID, conn_id: ConnID) -> (r:
        LeaveOutcome)
        requires
            old(self).wf(),
        ensures
            final(self).wf(),
            !(old(self).has_group(group_id) && old(self).group_of(group_id).presence.holds(
                user_id,
                conn_id,
            )) ==> *final(self) == *old(self) && !r.went_offline && !r.removed_group
                && r.deliveries@.len() == 0,
            old(self).has_group(group_id) && old(self).group_of(group_id).presence.holds(
                user_id,
                conn_id,
            ) ==> {
                &&& r.went_offline == (old(self).group_of(group_id).presence.conns_of(user_id)
                    == seq![conn_id])
                &&& r.removed_group == (old(self).group_of(group_id).connections@.len() == 1)
                &&& r.removed_group ==> !final(self).has_group(group_id)
                &&& !r.removed_group ==> final(self).has_group(group_id) && final(self).group_of(
                    group_id,
                ).channels == old(self).group_of(group_id).channels
                &&& !r.removed_group ==> final(self).group_of(group_id).connections@.len() == old(self).group_of(group_id).connections@.len() - 1
                &&& !r.removed_group ==> forall|c: ConnID|
                    final(self).group_of(group_id).connections@.contains(c) == (old(self).group_of(group_id).connections@.contains(c) && c != conn_id)
                &&& !r.removed_group ==> final(self).group_of(group_id).presence.is_online(user_id)
                    == !r.went_offline
                &&& !r.removed_group ==> forall|v: UserID|
                    v != user_id ==> final(self).group_of(group_id).presence.is_online(v) == old(self).group_of(group_id).presence.is_online(v)
                &&& !r.removed_group ==> forall|v: UserID|
                    v != user_id && old(self).group_of(group_id).presence.is_online(v) ==> final(self).group_of(group_id).presence.conns_of(v) == old(self).group_of(
                        group_id,
                    ).presence.conns_of(v)
                &&& forall|g: GroupID|
                    g != group_id ==> final(self).has_group(g) == old(self).has_group(g)
                &&& forall|g: GroupID|
                    g != group_id && old(self).has_group(g) ==> final(self).group_of(g) == old(self).group_of(g)
                &&& forall|u2: UserID, g2: GroupID|
                    !(u2 == user_id && g2 == group_id) ==> final(self).in_index(u2, g2) == old(self).in_index(u2, g2)
                &&& final(self).in_index(user_id, group_id) == !r.went_offline
                &&& r.went_offline == (r.deliveries@.len() == 1)
                &&& !r.went_offline ==> r.deliveries@.len() == 0
                &&& r.went_offline ==> r.deliveries@[0].event == (ServerEvent::UserStatusChanged {
                    user_id,
                    status: UserStatus::Offline,
                })
                &&& (r.went_offline && r.removed_group) ==> r.deliveries@[0].targets@.len() == 0
                &&& (r.went_offline && !r.removed_group) ==> r.deliveries@[0].targets@ == final(self).group_of(group_id).connections@
            },
    {
        let ghost pre = *self;
        let gi = match self.find_group(group_id) {
            Some(gi) => gi,
            None => {
                return LeaveOutcome {
                    went_offline: false,
                    removed_group: false,
                    deliveries: Vec::new(),
                };
            },
        };
        proof {
            lemma_index_of_key(pre.groups@, group_id, gi as int);
            assert(pre.groups@[gi as int].1.wf());
        }
        let ghost g0 = pre.group_of(group_id);
        let held = match self.groups[gi].1.presence.find_user(user_id) {
            Some(ui) => {
                proof {
                    lemma_index_of_key(g0.presence.entries@, user_id, ui as int);
                }
                contains_usize(&self.groups[gi].1.presence.entries[ui].1, conn_id)
            },
            None => false,
        };
        if !held {
            return LeaveOutcome {
                went_offline: false,
                removed_group: false,
                deliveries: Vec::new(),
            };
        }
        proof {
            assert(g0.presence.has_conn(conn_id)) by {
                let ui = crate::assoc::index_of_key(g0.presence.entries@, user_id);
                let k = choose|k: int|
                    0 <= k < g0.presence.conns_of(user_id).len() && g0.presence.conns_of(
                        user_id,
                    )[k] == conn_id;
                assert(g0.presence.entries@[ui].1@[k] == conn_id);
            }
            assert(g0.connections@.contains(conn_id));
            assert(g0.presence.holds(user_id, conn_id));
        }
        let p = match position_usize(&self.groups[gi].1.connections, conn_id) {
            Some(p) => p,
            None => {
                proof {
                    assert(false);
                }
                0
            },
        };
        let went_offline;
        {
            let entry = vec_index_mut(&mut self.groups, gi);
            entry.1.connections.remove(p);
            went_offline = entry.1.presence.decrement(user_id, conn_id);
        }
        proof {
            lemma_update_pair(pre.groups@, gi as int, self.groups@[gi as int].1);
            assert(self.groups@ =~= pre.groups@.update(
                gi as int,
                (group_id, self.groups@[gi as int].1),
            ));
            // the shortened connection list, pointwise
            let g1 = self.group_of(group_id);
            assert(g1.connections@ == g0.connections@.remove(p as int));
            assert forall|c: ConnID|
                g1.connections@.contains(c) == (g0.connections@.contains(c) && c != conn_id) by {
                if g1.connections@.contains(c) {
                    let m = choose|m: int|
                        0 <= m < g1.connections@.len() && g1.connections@[m] == c;
                    let m2 = if m < p as int { m } else { m + 1 };
                    assert(g0.connections@[m2] == c);
                    if c == conn_id {
                        assert(g0.connections@[p as int] == conn_id);
                    }
                }
                if g0.connections@.contains(c) && c != conn_id {
                    let m = choose|m: int|
                        0 <= m < g0.connections@.len() && g0.connections@[m] == c;
                    assert(m != p as int);
                    if m < p as int {
                        assert(g1.connections@[m] == c);
                    } else {
                        assert(g1.connections@[m - 1] == c);
                    }
                }
            }
            assert(distinct_seq(g1.connections@)) by {
                assert forall|a: int, b: int|
                    0 <= a < b < g1.connections@.len() implies g1.connections@[a]
                    != g1.connections@[b] by {
                    let a2 = if a < p as int { a } else { a + 1 };
                    let b2 = if b < p as int { b } else { b + 1 };
                    assert(g1.connections@[a] == g0.connections@[a2]);
                    assert(g1.connections@[b] == g0.connections@[b2]);
                }
            }
            assert(went_offline == (g0.presence.conns_of(user_id) == seq![conn_id]));
        }
        let removed_group = self.groups[gi].1.connections.len() == 0;
        if removed_group {
            proof {
                let g1 = self.group_of(group_id);
                // the group held exactly this one connection
                assert(g0.connections@.len() == 1);
                assert(g0.connections@[0] == conn_id);
                // so nobody but this user was online, and only through it
                assert forall|v: UserID|
                    v != user_id implies !g0.presence.is_online(v) by {
                    if g0.presence.is_online(v) {
                        let m = crate::assoc::index_of_key(g0.presence.entries@, v);
                        lemma_index_of_key(g0.presence.entries@, v, m);
                        let e = g0.presence.entries@[m].1@[0];
                        assert(g0.presence.has_conn(e)) by {
                            assert(g0.presence.entries@[m].1@[0] == e);
                        }
                        assert(g0.connections@.contains(e));
                        let em = choose|em: int|
                            0 <= em < g0.connections@.len() && g0.connections@[em] == e;
                        assert(e == conn_id);
                        let ui = crate::assoc::index_of_key(g0.presence.entries@, user_id);
                        lemma_index_of_key(g0.presence.entries@, user_id, ui);
                        let k = choose|k: int|
                            0 <= k < g0.presence.conns_of(user_id).len() && g0.presence.conns_of(
                                user_id,
                            )[k] == conn_id;
                        assert(g0.presence.entries@[ui].1@[k] == conn_id);
                        assert(g0.presence.entries@[m].1@[0] == conn_id);
                        assert(m != ui);
                    }
                }
                // and this user held only this connection
                assert(g0.presence.conns_of(user_id) =~= seq![conn_id]) by {
                    let ui = crate::assoc::index_of_key(g0.presence.entries@, user_id);
                    lemma_index_of_key(g0.presence.entries@, user_id, ui);
                    let l = g0.presence.conns_of(user_id);
                    assert forall|k: int| 0 <= k < l.len() implies l[k] == conn_id by {
                        assert(g0.presence.has_conn(l[k])) by {
                            assert(g0.presence.entries@[ui].1@[k] == l[k]);
                        }
                        assert(g0.connections@.contains(l[k]));
                        let em = choose|em: int|
                            0 <= em < g0.connections@.len() && g0.connections@[em] == l[k];
                    }
                    assert(l.len() >= 1);
                    if l.len() > 1 {
                        assert(g0.presence.entries@[ui].1@[0] == conn_id);
                        assert(g0.presence.entries@[ui].1@[1] == conn_id);
                        assert(g0.presence.conns_disjoint());
                    }
                }
            }
            let ghost mid = *self;
            self.groups.remove(gi);
            proof {
                lemma_remove_pair(mid.groups@, gi as int);
            }
            index_remove(&mut self.user_groups, user_id, group_id);
            proof {
                assert forall|j: int| 0 <= j < self.groups@.len() implies (
                #[trigger] self.groups@[j]).1.wf() && self.groups@[j].1.connections@.len() > 0 by {
                    let j2 = if j < gi as int { j } else { j + 1 };
                    assert(self.groups@[j] == pre.groups@[j2]);
                }
                assert forall|u2: UserID, g2: GroupID|
                    #![trigger self.in_index(u2, g2)]
                    #![trigger self.group_of(g2).presence.is_online(u2)]
                    self.in_index(u2, g2) == (self.has_group(g2) && self.group_of(
                        g2,
                    ).presence.is_online(u2)) by {
                    assert(pre.in_index(u2, g2) == (pre.has_group(g2) && pre.group_of(
                        g2,
                    ).presence.is_online(u2)));
                    if g2 == group_id {
                        assert(!self.has_group(g2));
                        if u2 != user_id {
                            assert(!g0.presence.is_online(u2));
                        }
                    }
                }
            }
            LeaveOutcome { went_offline: true, removed_group: true, deliveries: single_delivery(
                ServerEvent::UserStatusChanged { user_id, status: UserStatus::Offline },
                Vec::new(),
            ) }
        } else {
            proof {
                let g1 = self.group_of(group_id);
                assert(g1.wf()) by {
                    assert forall|c: ConnID|
                        g1.connections@.contains(c) == g1.presence.has_conn(c) by {
                        assert(g0.connections@.contains(c) == g0.presence.has_conn(c));
                    }
                }
                assert forall|j: int| 0 <= j < self.groups@.len() implies (
                #[trigger] self.groups@[j]).1.wf() && self.groups@[j].1.connections@.len() > 0 by {
                    if j != gi as int {
                        assert(self.groups@[j] == pre.groups@[j]);
                    } else {
                        assert(self.groups@[j].1 == g1);
                    }
                }
            }
            if went_offline {
                index_remove(&mut self.user_groups, user_id, group_id);
                proof {
                    let g1 = self.group_of(group_id);
                    assert forall|u2: UserID, g2: GroupID|
                        #![trigger self.in_index(u2, g2)]
                        #![trigger self.group_of(g2).presence.is_online(u2)]
                        self.in_index(u2, g2) == (self.has_group(g2) && self.group_of(
                            g2,
                        ).presence.is_online(u2)) by {
                        assert(pre.in_index(u2, g2) == (pre.has_group(g2) && pre.group_of(
                            g2,
                        ).presence.is_online(u2)));
                        assert(self.in_index(u2, g2) == (pre.in_index(u2, g2) && !(u2 == user_id
                            && g2 == group_id)));
                        if g2 == group_id {
                            assert(self.has_group(g2));
                            assert(self.group_of(g2) == g1);
                            if u2 == user_id {
                                assert(!g1.presence.is_online(u2));
                            } else {
                                assert(g1.presence.is_online(u2) == g0.presence.is_online(u2));
                            }
                        } else {
                            assert(self.has_group(g2) == pre.has_group(g2));
                            if pre.has_group(g2) {
                                assert(self.group_of(g2) == pre.group_of(g2));
                            }
                        }
                    }
                }
                let targets = self.groups[gi].1.targets();
                LeaveOutcome { went_offline: true, removed_group: false, deliveries:
                    single_delivery(
                    ServerEvent::UserStatusChanged { user_id, status: UserStatus::Offline },
                    targets,
                ) }
            } else {
                proof {
                    let g1 = self.group_of(group_id);
                    assert(g0.presence.conns_of(user_id).len() > 1) by {
                        let l = g0.presence.conns_of(user_id);
                        assert(l.contains(conn_id));
                        let k = choose|k: int| 0 <= k < l.len() && l[k] == conn_id;
                        if l.len() == 1 {
                            assert(l =~= seq![conn_id]);
                        }
                    }
                    assert forall|u2: UserID, g2: GroupID|
                        #![trigger self.in_index(u2, g2)]
                        #![trigger self.group_of(g2).presence.is_online(u2)]
                        self.in_index(u2, g2) == (self.has_group(g2) && self.group_of(
                            g2,
                        ).presence.is_online(u2)) by {
                        assert(pre.in_index(u2, g2) == (pre.has_group(g2) && pre.group_of(
                            g2,
                        ).presence.is_online(u2)));
                        assert(self.user_groups@ == pre.user_groups@);
                        if g2 == group_id {
                            assert(self.has_group(g2));
                            assert(self.group_of(g2) == g1);
                            if u2 == user_id {
                                assert(g1.presence.is_online(u2));
                            } else {
                                assert(g1.presence.is_online(u2) == g0.presence.is_online(u2));
                            }
                        } else {
                            assert(self.has_group(g2) == pre.has_group(g2));
                            if pre.has_group(g2) {
                                assert(self.group_of(g2) == pre.group_of(g2));
                            }
                        }
                    }
                }
                LeaveOutcome { went_offline: false, removed_group: false, deliveries: Vec::new() }
            }
        }
    }

    /// Facts after a group update that left connections and presence alone
    /// (a channel-cache mutation).
    proof fn lemma_cache_only_update(self, pre: Registry, group_id: GroupID, gi: int)
        requires
            pre.wf(),
            0 <= gi < pre.groups@.len(),
            pre.groups@[gi].0 == group_id,
            self.groups@ == pre.groups@.update(gi, (group_id, self.groups@[gi].1)),
            self.groups@[gi].1.wf(),
            self.groups@[gi].1.connections == pre.groups@[gi].1.connections,
            self.groups@[gi].1.presence == pre.groups@[gi].1.presence,
            self.user_groups == pre.user_groups,
        ensures
            self.wf(),
            self.has_group(group_id),
            self.group_of(group_id) == self.groups@[gi].1,
            forall|g: GroupID| g != group_id ==> self.has_group(g) == pre.has_group(g),
            forall|g: GroupID|
                g != group_id && pre.has_group(g) ==> self.group_of(g) == pre.group_of(g),
            forall|u2: UserID, g2: GroupID| self.in_index(u2, g2) == pre.in_index(u2, g2),
    {
        lemma_index_of_key(pre.groups@, group_id, gi);
        lemma_update_pair(pre.groups@, gi, self.groups@[gi].1);
        assert forall|j: int| 0 <= j < self.groups@.len() implies (
        #[trigger] self.groups@[j]).1.wf() && self.groups@[j].1.connections@.len() > 0 by {
            if j != gi {
                assert(self.groups@[j] == pre.groups@[j]);
            } else {
                assert(pre.groups@[gi].1.connections@.len() > 0);
            }
        }
        assert forall|u2: UserID, g2: GroupID|
            #![trigger self.in_index(u2, g2)]
            #![trigger self.group_of(g2).presence.is_online(u2)]
            self.in_index(u2, g2) == (self.has_group(g2) && self.group_of(
                g2,
            ).presence.is_online(u2)) by {
            assert(pre.in_index(u2, g2) == (pre.has_group(g2) && pre.group_of(
                g2,
            ).presence.is_online(u2)));
            assert(self.in_index(u2, g2) == pre.in_index(u2, g2));
            if g2 == group_id {
                assert(self.group_of(g2).presence == pre.group_of(g2).presence);
            } else if pre.has_group(g2) {
                assert(self.group_of(g2) == pre.group_of(g2));
            }
        }
    }

    /// Install a channel in a group's cache (a created channel, or a renamed
    /// one), leaving connections, presence and the index untouched.
    pub fn install_channel(&mut self, group_id: GroupID, channel_id: ChannelID, name: String)
        requires
            old(self).wf(),
            old(self).has_group(group_id),
        ensures
            final(self).wf(),
            final(self).has_group(group_id),
            final(self).group_of(group_id).has_channel(channel_id),
            final(self).group_of(group_id).channel_name_of(channel_id) == name@,
            forall|id2: ChannelID|
                id2 != channel_id ==> final(self).group_of(group_id).has_channel(id2) == old(self).group_of(group_id).has_channel(id2),
            forall|id2: ChannelID|
                id2 != channel_id && old(self).group_of(group_id).has_channel(id2) ==> final(self).group_of(group_id).channels@[final(self).group_of(group_id).channel_index_of(
                    id2,
                )] == old(self).group_of(group_id).channels@[old(self).group_of(
                    group_id,
                ).channel_index_of(id2)],
            final(self).group_of(group_id).channels@.len() == old(self).group_of(
                group_id,
            ).channels@.len() + (if old(self).group_of(group_id).has_channel(channel_id) {
                0int
            } else {
                1int
            }),
            final(self).group_of(group_id).connections == old(self).group_of(group_id).connections,
            final(self).group_of(group_id).presence == old(self).group_of(group_id).presence,
            forall|g: GroupID| g != group_id ==> final(self).has_group(g) == old(self).has_group(g),
            forall|g: GroupID|
                g != group_id && old(self).has_group(g) ==> final(self).group_of(g) == old(self).group_of(g),
            forall|u2: UserID, g2: GroupID|
                final(self).in_index(u2, g2) == old(self).in_index(u2, g2),
    {
        let ghost pre = *self;
        let gi = match self.find_group(group_id) {
            Some(gi) => gi,
            None => {
                proof {
                    assert(false);
                }
                0
            },
        };
        proof {
            lemma_index_of_key(pre.groups@, group_id, gi as int);
            assert(pre.groups@[gi as int].1.wf());
        }
        {
            let entry = vec_index_mut(&mut self.groups, gi);
            entry.1.install_channel(channel_id, name);
        }
        proof {
            assert(self.groups@ =~= pre.groups@.update(
                gi as int,
                (group_id, self.groups@[gi as int].1),
            ));
            assert(self.groups@[gi as int].1.wf());
            self.lemma_cache_only_update(pre, group_id, gi as int);
        }
    }

    /// Drop a channel from a group's cache, leaving connections, presence and
    /// the index untouched.
    pub fn remove_channel(&mut self, group_id: GroupID, channel_id: ChannelID)
        requires
            old(self).wf(),
            old(self).has_group(group_id),
        ensures
            final(self).wf(),
            final(self).has_group(group_id),
            !final(self).group_of(group_id).has_channel(channel_id),
            forall|id2: ChannelID|
                id2 != channel_id ==> final(self).group_of(group_id).has_channel(id2) == old(self).group_of(group_id).has_channel(id2),
            forall|id2: ChannelID|
                id2 != channel_id && old(self).group_of(group_id).has_channel(id2) ==> final(self).group_of(group_id).channels@[final(self).group_of(group_id).channel_index_of(
                    id2,
                )] == old(self).group_of(group_id).channels@[old(self).group_of(
                    group_id,
                ).channel_index_of(id2)],
            old(self).group_of(group_id).has_channel(channel_id) ==> final(self).group_of(
                group_id,
            ).channels@.len() == old(self).group_of(group_id).channels@.len() - 1,
            !old(self).group_of(group_id).has_channel(channel_id) ==> final(self).group_of(
                group_id,
            ) == old(self).group_of(group_id),
            final(self).group_of(group_id).connections == old(self).group_of(group_id).connections,
            final(self).group_of(group_id).presence == old(self).group_of(group_id).presence,
            forall|g: GroupID| g != group_id ==> final(self).has_group(g) == old(self).has_group(g),
            forall|g: GroupID|
                g != group_id && old(self).has_group(g) ==> final(self).group_of(g) == old(self).group_of(g),
            forall|u2: UserID, g2: GroupID|
                final(self).in_index(u2, g2) == old(self).in_index(u2, g2),
    {
        let ghost pre = *self;
        let gi = match self.find_group(group_id) {
            Some(gi) => gi,
            None => {
                proof {
                    assert(false);
                }
                0
            },
        };
        proof {
            lemma_index_of_key(pre.groups@, group_id, gi as int);
            assert(pre.groups@[gi as int].1.wf());
        }
        {
            let entry = vec_index_mut(&mut self.groups, gi);
            entry.1.remove_channel(channel_id);
        }
        proof {
            assert(self.groups@ =~= pre.groups@.update(
                gi as int,
                (group_id, self.groups@[gi as int].1),
            ));
            assert(self.groups@[gi as int].1.wf());
            self.lemma_cache_only_update(pre, group_id, gi as int);
        }
    }

    /// How many channels the group's cache holds.
    pub fn channel_count(&self, group_id: GroupID) -> (n: usize)
        requires
            self.wf(),
            self.has_group(group_id),
        ensures
            n == self.group_of(group_id).channels@.len(),
    {
        let gi = match self.find_group(group_id) {
            Some(gi) => gi,
            None => {
                proof {
                    assert(false);
                }
                0
            },
        };
        proof {
            lemma_index_of_key(self.groups@, group_id, gi as int);
        }
        self.groups[gi].1.channels.len()
    }

    /// Whether the group's cache knows this channel id.
    pub fn group_contains_channel(&self, group_id: GroupID, channel_id: ChannelID) -> (r: bool)
        requires
            self.wf(),
            self.has_group(group_id),
        ensures
            r == self.group_of(group_id).has_channel(channel_id),
    {
        let gi = match self.find_group(group_id) {
            Some(gi) => gi,
            None => {
                proof {
                    assert(false);
                }
                0
            },
        };
        proof {
            lemma_index_of_key(self.groups@, group_id, gi as int);
            assert(self.groups@[gi as int].1.wf());
        }
        self.groups[gi].1.contains_channel(channel_id)
    }

    /// A copy of the group's channel cache.
    pub fn channel_list(&self, group_id: GroupID) -> (r: Vec<Channel>)
        requires
            self.wf(),
            self.has_group(group_id),
        ensures
            r@ == self.group_of(group_id).channels@,
    {
        let gi = match self.find_group(group_id) {
            Some(gi) => gi,
            None => {
                proof {
                    assert(false);
                }
                0
            },
        };
        proof {
            lemma_index_of_key(self.groups@, group_id, gi as int);
        }
        self.groups[gi].1.channel_list()
    }

    /// The users online in the group, in presence-entry order.
    pub fn online_users(&self, group_id: GroupID) -> (r: Vec<UserID>)
        requires
            self.wf(),
            self.has_group(group_id),
        ensures
            forall|u: UserID| r@.contains(u) == self.group_of(group_id).presence.is_online(u),
            r@.len() == self.group_of(group_id).presence.entries@.len(),
    {
        let gi = match self.find_group(group_id) {
            Some(gi) => gi,
            None => {
                proof {
                    assert(false);
                }
                0
            },
        };
        proof {
            lemma_index_of_key(self.groups@, group_id, gi as int);
        }
        self.groups[gi].1.presence.online_user_ids()
    }

    /// Whether the user is online in the group.
    pub fn is_user_online(&self, group_id: GroupID, user_id: UserID) -> (r: bool)
        requires
            self.wf(),
            self.has_group(group_id),
        ensures
            r == self.group_of(group_id).presence.is_online(user_id),
    {
        let gi = match self.find_group(group_id) {
            Some(gi) => gi,
            None => {
                proof {
                    assert(false);
                }
                0
            },
        };
        proof {
            lemma_index_of_key(self.groups@, group_id, gi as int);
        }
        self.groups[gi].1.presence.find_user(user_id).is_some()
    }

    /// One event for every connection of the group.
    pub fn broadcast_all(&self, group_id: GroupID, event: ServerEvent) -> (r: Option<Delivery>)
        requires
            self.wf(),
        ensures
            r is Some == self.has_group(group_id),
            r matches Some(d) ==> d.event == event && d.targets@ == self.group_of(
                group_id,
            ).connections@,
    {
        match self.find_group(group_id) {
            Some(gi) => {
                proof {
                    lemma_index_of_key(self.groups@, group_id, gi as int);
                }
                let targets = self.groups[gi].1.targets();
                Some(Delivery { event, targets })
            },
            None => None,
        }
    }

    /// The peer/reply split of one operation: the origin connection receives
    /// `reply_event`, every other connection of the group receives
    /// `peer_event`.  Both deliveries are produced together, so no event of a
    /// concurrent operation can interleave between a fact and its receipt.
    pub fn broadcast_peer_reply(
        &self,
        group_id: GroupID,
        origin: ConnID,
        peer_event: ServerEvent,
        reply_event: ServerEvent,
    ) -> (r: Option<(Delivery, Delivery)>)
        requires
            self.wf(),
        ensures
            r is Some == self.has_group(group_id),
            r matches Some(pair) ==> {
                &&& pair.0.event == reply_event
                &&& pair.0.targets@ == seq![origin]
                &&& pair.1.event == peer_event
                &&& distinct_seq(pair.1.targets@)
                &&& !pair.1.targets@.contains(origin)
                &&& forall|c: ConnID|
                    c != origin ==> pair.1.targets@.contains(c) == self.group_of(
                        group_id,
                    ).has_conn(c)
            },
    {
        match self.find_group(group_id) {
            Some(gi) => {
                proof {
                    lemma_index_of_key(self.groups@, group_id, gi as int);
                    assert(self.groups@[gi as int].1.wf());
                }
                let mut reply_targets: Vec<ConnID> = Vec::new();
                reply_targets.push(origin);
                let peer_targets = self.groups[gi].1.targets_except(origin);
                proof {
                    assert(reply_targets@ =~= seq![origin]);
                }
                Some(
                    (
                        Delivery { event: reply_event, targets: reply_targets },
                        Delivery { event: peer_event, targets: peer_targets },
                    ),
                )
            },
            None => None,
        }
    }

    /// One event for a single connection of the group.
    pub fn send_reply(&self, group_id: GroupID, conn_id: ConnID, event: ServerEvent) -> (r: Option<
        Delivery,
    >)
        requires
            self.wf(),
        ensures
            r is Some == (self.has_group(group_id) && self.group_of(group_id).has_conn(conn_id)),
            r matches Some(d) ==> d.event == event && d.targets@ == seq![conn_id],
    {
        match self.find_group(group_id) {
            Some(gi) => {
                proof {
                    lemma_index_of_key(self.groups@, group_id, gi as int);
                }
                if contains_usize(&self.groups[gi].1.connections, conn_id) {
                    let mut targets: Vec<ConnID> = Vec::new();
                    targets.push(conn_id);
                    proof {
                        assert(targets@ =~= seq![conn_id]);
                    }
                    Some(Delivery { event, targets })
                } else {
                    None
                }
            },
            None => None,
        }
    }

    /// User `u` holds connection `c` in the live group `g`.
    pub open spec fn user_conn_in(self, u: UserID, g: GroupID, c: ConnID) -> bool {
        self.has_group(g) && self.group_of(g).presence.holds(u, c)
    }

    /// The connection ids `user_id` holds in the live group, empty when the
    /// group is absent or the user is offline there.
    pub fn user_conns_in_group(&self, group_id: GroupID, user_id: UserID) -> (r: Vec<ConnID>)
        requires
            self.wf(),
        ensures
            forall|c: ConnID| r@.contains(c) == self.user_conn_in(user_id, group_id, c),
    {
        match self.find_group(group_id) {
            Some(gi) => {
                proof {
                    lemma_index_of_key(self.groups@, group_id, gi as int);
                    assert(self.groups@[gi as int].1.wf());
                }
                let r = self.groups[gi].1.presence.conns_of_user(user_id);
                proof {
                    let p = self.group_of(group_id).presence;
                    assert forall|c: ConnID|
                        r@.contains(c) == self.user_conn_in(user_id, group_id, c) by {
                        if !p.is_online(user_id) {
                            assert(r@.len() == 0);
                            if r@.contains(c) {
                                let m = choose|m: int| 0 <= m < r@.len() && r@[m] == c;
                            }
                        }
                    }
                }
                r
            },
            None => {
                let r: Vec<ConnID> = Vec::new();
                proof {
                    assert forall|c: ConnID|
                        r@.contains(c) == self.user_conn_in(user_id, group_id, c) by {
                        if r@.contains(c) {
                            let m = choose|m: int| 0 <= m < r@.len() && r@[m] == c;
                        }
                    }
                }
                r
            },
        }
    }

    /// Whether a group id passes the exclusion filter of a fan-out.
    pub open spec fn group_allowed(excluded: Option<GroupID>, g: GroupID) -> bool {
        match excluded {
            Some(e) => g != e,
            None => true,
        }
    }

    /// Every connection id `user_id` holds, across all groups the reverse
    /// index lists for it, skipping an excluded group if one is given.
    fn user_connections_filtered(&self, user_id: UserID, excluded: Option<GroupID>) -> (r: Vec<
        ConnID,
    >)
        requires
            self.wf(),
        ensures
            forall|c: ConnID|
                r@.contains(c) == exists|g: GroupID|
                    #[trigger] self.user_conn_in(user_id, g, c) && Self::group_allowed(excluded, g),
    {
        let mut r: Vec<ConnID> = Vec::new();
        let ui = match assoc_find(&self.user_groups, user_id) {
            Some(ui) => ui,
            None => {
                proof {
                    assert forall|c: ConnID|
                        r@.contains(c) == exists|g: GroupID|
                            #[trigger] self.user_conn_in(user_id, g, c) && Self::group_allowed(
                                excluded,
                                g,
                            ) by {
                        if r@.contains(c) {
                            let m = choose|m: int| 0 <= m < r@.len() && r@[m] == c;
                        }
                        if exists|g: GroupID|
                            #[trigger] self.user_conn_in(user_id, g, c) && Self::group_allowed(
                                excluded,
                                g,
                            ) {
                            let g = choose|g: GroupID|
                                #[trigger] self.user_conn_in(user_id, g, c)
                                    && Self::group_allowed(excluded, g);
                            assert(self.in_index(user_id, g) == (self.has_group(g)
                                && self.group_of(g).presence.is_online(user_id)));
                        }
                    }
                }
                return r;
            },
        };
        proof {
            lemma_index_of_key(self.user_groups@, user_id, ui as int);
        }
        let ghost gl = self.user_groups@[ui as int].1@;
        let mut k: usize = 0;
        while k < self.user_groups[ui].1.len()
            invariant
                self.wf(),
                ui < self.user_groups@.len(),
                self.user_groups@[ui as int].0 == user_id,
                gl == self.user_groups@[ui as int].1@,
                k <= gl.len(),
                forall|c: ConnID|
                    r@.contains(c) == exists|m: int|
                        0 <= m < k && #[trigger] self.user_conn_in(user_id, gl[m], c)
                            && Self::group_allowed(excluded, gl[m]),
            decreases gl.len() - k,
        {
            let g = self.user_groups[ui].1[k];
            let allowed = match excluded {
                Some(e) => g != e,
                None => true,
            };
            let ghost pre_r = r@;
            if allowed {
                proof {
                    assert(gl.contains(g)) by {
                        assert(gl[k as int] == g);
                    }
                    assert(self.in_index(user_id, g)) by {
                        assert(value_of(self.user_groups@, user_id)@.contains(g));
                    }
                    assert(self.in_index(user_id, g) == (self.has_group(g) && self.group_of(
                        g,
                    ).presence.is_online(user_id)));
                }
                let conns = self.user_conns_in_group(g, user_id);
                let mut t: usize = 0;
                while t < conns.len()
                    invariant
                        t <= conns@.len(),
                        r@ == pre_r + conns@.subrange(0, t as int),
                    decreases conns@.len() - t,
                {
                    r.push(conns[t]);
                    proof {
                        assert(r@ =~= pre_r + conns@.subrange(0, t + 1));
                    }
                    t += 1;
                }
                proof {
                    assert(conns@.subrange(0, conns@.len() as int) =~= conns@);
                    assert(r@ == pre_r + conns@);
                    assert forall|c: ConnID|
                        r@.contains(c) == exists|m: int|
                            0 <= m < k + 1 && #[trigger] self.user_conn_in(user_id, gl[m], c)
                                && Self::group_allowed(excluded, gl[m]) by {
                        if r@.contains(c) {
                            let q = choose|q: int| 0 <= q < r@.len() && r@[q] == c;
                            if q < pre_r.len() {
                                assert(pre_r[q] == c);
                                assert(pre_r.contains(c));
                                let m = choose|m: int|
                                    0 <= m < k && #[trigger] self.user_conn_in(user_id, gl[m], c)
                                        && Self::group_allowed(excluded, gl[m]);
                                assert(self.user_conn_in(user_id, gl[m], c) && Self::group_allowed(
                                    excluded,
                                    gl[m],
                                ));
                            } else {
                                assert(conns@[q - pre_r.len()] == c);
                                assert(conns@.contains(c));
                                assert(self.user_conn_in(user_id, gl[k as int], c));
                            }
                        }
                        if exists|m: int|
                            0 <= m < k + 1 && #[trigger] self.user_conn_in(user_id, gl[m], c)
                                && Self::group_allowed(excluded, gl[m]) {
                            let m = choose|m: int|
                                0 <= m < k + 1 && #[trigger] self.user_conn_in(user_id, gl[m], c)
                                    && Self::group_allowed(excluded, gl[m]);
                            if m < k {
                                assert(pre_r.contains(c));
                                let q = choose|q: int| 0 <= q < pre_r.len() && pre_r[q] == c;
                                assert(r@[q] == c);
                            } else {
                                assert(conns@.contains(c));
                                let q = choose|q: int| 0 <= q < conns@.len() && conns@[q] == c;
                                assert(r@[pre_r.len() + q] == c);
                            }
                        }
                    }
                }
            } else {
                proof {
                    assert forall|c: ConnID|
                        r@.contains(c) == exists|m: int|
                            0 <= m < k + 1 && #[trigger] self.user_conn_in(user_id, gl[m], c)
                                && Self::group_allowed(excluded, gl[m]) by {
                        if exists|m: int|
                            0 <= m < k + 1 && #[trigger] self.user_conn_in(user_id, gl[m], c)
                                && Self::group_allowed(excluded, gl[m]) {
                            let m = choose|m: int|
                                0 <= m < k + 1 && #[trigger] self.user_conn_in(user_id, gl[m], c)
                                    && Self::group_allowed(excluded, gl[m]);
                            assert(m < k);
                        }
                    }
                }
            }
            k += 1;
        }
        proof {
            assert forall|c: ConnID|
                r@.contains(c) == exists|g: GroupID|
                    #[trigger] self.user_conn_in(user_id, g, c) && Self::group_allowed(excluded, g)
                by {
                if r@.contains(c) {
                    let m = choose|m: int|
                        0 <= m < gl.len() && #[trigger] self.user_conn_in(user_id, gl[m], c)
                            && Self::group_allowed(excluded, gl[m]);
                    assert(self.user_conn_in(user_id, gl[m], c) && Self::group_allowed(
                        excluded,
                        gl[m],
                    ));
                }
                if exists|g: GroupID|
                    #[trigger] self.user_conn_in(user_id, g, c) && Self::group_allowed(
                        excluded,
                        g,
                    ) {
                    let g = choose|g: GroupID|
                        #[trigger] self.user_conn_in(user_id, g, c) && Self::group_allowed(
                            excluded,
                            g,
                        );
                    assert(self.in_index(user_id, g) == (self.has_group(g) && self.group_of(
                        g,
                    ).presence.is_online(user_id)));
                    assert(gl.contains(g));
                    let m = choose|m: int| 0 <= m < gl.len() && gl[m] == g;
                    assert(self.user_conn_in(user_id, gl[m], c) && Self::group_allowed(
                        excluded,
                        gl[m],
                    ));
                }
            }
        }
        r
    }

    /// Every connection id belonging to `user_id`, across all groups: the
    /// sockets to close when the user is kicked everywhere.  Kicking only
    /// signals these sockets; each connection's own lifecycle performs the
    /// `leave`.
    pub fn kick_user(&self, user_id: UserID) -> (r: Vec<ConnID>)
        requires
            self.wf(),
        ensures
            forall|c: ConnID|
                r@.contains(c) == exists|g: GroupID| #[trigger] self.user_conn_in(user_id, g, c),
    {
        let r = self.user_connections_filtered(user_id, None);
        proof {
            assert forall|c: ConnID|
                r@.contains(c) == exists|g: GroupID| #[trigger] self.user_conn_in(user_id, g, c)
                by {
                if r@.contains(c) {
                    let g = choose|g: GroupID|
                        #[trigger] self.user_conn_in(user_id, g, c) && Self::group_allowed(None, g);
                }
                if exists|g: GroupID| #[trigger] self.user_conn_in(user_id, g, c) {
                    let g = choose|g: GroupID| #[trigger] self.user_conn_in(user_id, g, c);
                    assert(self.user_conn_in(user_id, g, c) && Self::group_allowed(None, g));
                }
            }
        }
        r
    }

    /// The sockets to close when `user_id` is kicked out of one group.
    pub fn kick_user_from_group(&self, user_id: UserID, group_id: GroupID) -> (r: Vec<ConnID>)
        requires
            self.wf(),
        ensures
            forall|c: ConnID| r@.contains(c) == self.user_conn_in(user_id, group_id, c),
    {
        self.user_conns_in_group(group_id, user_id)
    }

    /// One `user renamed` event for every given group that is live, built for
    /// all of that group's connections; an absent group yields an empty
    /// target set.
    pub fn user_renamed(
        &self,
        groups: &Vec<GroupID>,
        user_id: UserID,
        name: &String,
        picture: &String,
    ) -> (r: Vec<Delivery>)
        requires
            self.wf(),
        ensures
            r@.len() == groups@.len(),
            forall|i: int|
                0 <= i < r@.len() ==> (#[trigger] r@[i]).event == (ServerEvent::UserRenamed {
                    user_id,
                    name: *name,
                    picture: *picture,
                }),
            forall|i: int|
                0 <= i < r@.len() && self.has_group(groups@[i]) ==> (#[trigger] r@[i]).targets@
                    == self.group_of(groups@[i]).connections@,
            forall|i: int|
                0 <= i < r@.len() && !self.has_group(groups@[i]) ==> (
                #[trigger] r@[i]).targets@.len() == 0,
    {
        let mut r: Vec<Delivery> = Vec::new();
        let mut i: usize = 0;
        while i < groups.len()
            invariant
                self.wf(),
                i <= groups@.len(),
                r@.len() == i,
                forall|j: int|
                    0 <= j < i ==> (#[trigger] r@[j]).event == (ServerEvent::UserRenamed {
                        user_id,
                        name: *name,
                        picture: *picture,
                    }),
                forall|j: int|
                    0 <= j < i && self.has_group(groups@[j]) ==> (#[trigger] r@[j]).targets@
                        == self.group_of(groups@[j]).connections@,
                forall|j: int|
                    0 <= j < i && !self.has_group(groups@[j]) ==> (
                    #[trigger] r@[j]).targets@.len() == 0,
            decreases groups@.len() - i,
        {
            let event = ServerEvent::UserRenamed {
                user_id,
                name: name.clone(),
                picture: picture.clone(),
            };
            let d = match self.broadcast_all(groups[i], event) {
                Some(d) => d,
                None => {
                    let event2 = ServerEvent::UserRenamed {
                        user_id,
                        name: name.clone(),
                        picture: picture.clone(),
                    };
                    Delivery { event: event2, targets: Vec::new() }
                },
            };
            r.push(d);
            i += 1;
        }
        r
    }

    /// The notifications for a deleted group: for every listed member, the
    /// sockets to close (their connections inside the deleted group) and one
    /// `group deleted` event delivered to all their connections elsewhere.
    pub fn group_deleted_notify(&self, users: &Vec<UserID>, deleted_group_id: GroupID) -> (r: (
        Vec<ConnID>,
        Vec<Delivery>,
    ))
        requires
            self.wf(),
        ensures
            forall|c: ConnID|
                r.0@.contains(c) == exists|i: int|
                    0 <= i < users@.len() && self.user_conn_in(
                        #[trigger] users@[i],
                        deleted_group_id,
                        c,
                    ),
            r.1@.len() == users@.len(),
            forall|i: int|
                0 <= i < r.1@.len() ==> (#[trigger] r.1@[i]).event == (ServerEvent::GroupDeleted {
                    group_id: deleted_group_id,
                }),
            forall|i: int, c: ConnID|
                0 <= i < r.1@.len() ==> #[trigger] r.1@[i].targets@.contains(c) == exists|
                    g: GroupID,
                |
                    #[trigger] self.user_conn_in(users@[i], g, c) && g != deleted_group_id,
    {
        let mut kicks: Vec<ConnID> = Vec::new();
        let mut deliveries: Vec<Delivery> = Vec::new();
        let mut i: usize = 0;
        while i < users.len()
            invariant
                self.wf(),
                i <= users@.len(),
                deliveries@.len() == i,
                forall|c: ConnID|
                    kicks@.contains(c) == exists|m: int|
                        0 <= m < i && self.user_conn_in(
                            #[trigger] users@[m],
                            deleted_group_id,
                            c,
                        ),
                forall|j: int|
                    0 <= j < i ==> (#[trigger] deliveries@[j]).event == (ServerEvent::GroupDeleted {
                        group_id: deleted_group_id,
                    }),
                forall|j: int, c: ConnID|
                    0 <= j < i ==> #[trigger] deliveries@[j].targets@.contains(c) == exists|
                        g: GroupID,
                    |
                        #[trigger] self.user_conn_in(users@[j], g, c) && g != deleted_group_id,
            decreases users@.len() - i,
        {
            let u = users[i];
            let in_deleted = self.user_conns_in_group(deleted_group_id, u);
            let ghost pre_kicks = kicks@;
            let mut t: usize = 0;
            while t < in_deleted.len()
                invariant
                    t <= in_deleted@.len(),
                    kicks@ == pre_kicks + in_deleted@.subrange(0, t as int),
                decreases in_deleted@.len() - t,
            {
                kicks.push(in_deleted[t]);
                proof {
                    assert(kicks@ =~= pre_kicks + in_deleted@.subrange(0, t + 1));
                }
                t += 1;
            }
            proof {
                assert(in_deleted@.subrange(0, in_deleted@.len() as int) =~= in_deleted@);
                assert(kicks@ == pre_kicks + in_deleted@);
                assert forall|c: ConnID|
                    kicks@.contains(c) == exists|m: int|
                        0 <= m < i + 1 && self.user_conn_in(
                            #[trigger] users@[m],
                            deleted_group_id,
                            c,
                        ) by {
                    if kicks@.contains(c) {
                        let q = choose|q: int| 0 <= q < kicks@.len() && kicks@[q] == c;
                        if q < pre_kicks.len() {
                            assert(pre_kicks[q] == c);
                            assert(pre_kicks.contains(c));
                            let m = choose|m: int|
                                0 <= m < i && self.user_conn_in(
                                    #[trigger] users@[m],
                                    deleted_group_id,
                                    c,
                                );
                            assert(self.user_conn_in(users@[m], deleted_group_id, c));
                        } else {
                            assert(in_deleted@[q - pre_kicks.len()] == c);
                            assert(in_deleted@.contains(c));
                            assert(self.user_conn_in(users@[i as int], deleted_group_id, c));
                        }
                    }
                    if exists|m: int|
                        0 <= m < i + 1 && self.user_conn_in(
                            #[trigger] users@[m],
                            deleted_group_id,
                            c,
                        ) {
                        let m = choose|m: int|
                            0 <= m < i + 1 && self.user_conn_in(
                                #[trigger] users@[m],
                                deleted_group_id,
                                c,
                            );
                        if m < i {
                            assert(pre_kicks.contains(c));
                            let q = choose|q: int| 0 <= q < pre_kicks.len() && pre_kicks[q] == c;
                            assert(kicks@[q] == c);
                        } else {
                            assert(in_deleted@.contains(c));
                            let q = choose|q: int|
                                0 <= q < in_deleted@.len() && in_deleted@[q] == c;
                            assert(kicks@[pre_kicks.len() + q] == c);
                        }
                    }
                }
            }
            let elsewhere = self.user_connections_filtered(u, Some(deleted_group_id));
            proof {
                assert forall|c: ConnID|
                    elsewhere@.contains(c) == exists|g: GroupID|
                        #[trigger] self.user_conn_in(users@[i as int], g, c) && g
                            != deleted_group_id by {
                    if elsewhere@.contains(c) {
                        let g = choose|g: GroupID|
                            #[trigger] self.user_conn_in(u, g, c) && Self::group_allowed(
                                Some(deleted_group_id),
                                g,
                            );
                        assert(self.user_conn_in(users@[i as int], g, c) && g != deleted_group_id);
                    }
                    if exists|g: GroupID|
                        #[trigger] self.user_conn_in(users@[i as int], g, c) && g
                            != deleted_group_id {
                        let g = choose|g: GroupID|
                            #[trigger] self.user_conn_in(users@[i as int], g, c) && g
                                != deleted_group_id;
                        assert(self.user_conn_in(u, g, c) && Self::group_allowed(
                            Some(deleted_group_id),
                            g,
                        ));
                    }
                }
            }
            deliveries.push(
                Delivery {
                    event: ServerEvent::GroupDeleted { group_id: deleted_group_id },
                    targets: elsewhere,
                },
            );
            i += 1;
        }
        (kicks, deliveries)
    }

    /// Whether the group is live.
    pub fn contains_group(&self, group_id: GroupID) -> (r: bool)
        ensures
            r == self.has_group(group_id),
    {
        self.find_group(group_id).is_some()
    }

    /// Find a group's position in the table.
    fn find_group(&self, group_id: GroupID) -> (r: Option<usize>)
        ensures
            match r {
                Some(i) => i < self.groups@.len() && self.groups@[i as int].0 == group_id
                    && self.has_group(group_id),
                None => !self.has_group(group_id),
            },
    {
        assoc_find(&self.groups, group_id)
    }
}

/// Add `group_id` to `user_id`'s entry of the reverse index.
fn index_add(idx: &mut Vec<(UserID, Vec<GroupID>)>, user_id: UserID, group_id: GroupID)
    requires
        index_hygiene(old(idx)@),
        !index_maps(old(idx)@, user_id, group_id),
    ensures
        index_hygiene(final(idx)@),
        forall|u: UserID, g: GroupID|
            #![trigger index_maps(final(idx)@, u, g)]
            index_maps(final(idx)@, u, g) == (index_maps(old(idx)@, u, g) || (u == user_id && g
                == group_id)),
        has_key(final(idx)@, user_id),
        has_key(old(idx)@, user_id) ==> value_of(final(idx)@, user_id)@ == value_of(
            old(idx)@,
            user_id,
        )@.push(group_id),
        !has_key(old(idx)@, user_id) ==> value_of(final(idx)@, user_id)@ == seq![group_id],
        forall|u: UserID| u != user_id ==> has_key(final(idx)@, u) == has_key(old(idx)@, u),
        forall|u: UserID|
            u != user_id && has_key(old(idx)@, u) ==> value_of(final(idx)@, u) == value_of(
                old(idx)@,
                u,
            ),
{
    let ghost pre = idx@;
    match assoc_find(idx, user_id) {
        Some(i) => {
            proof {
                lemma_index_of_key(pre, user_id, i as int);
            }
            let entry = vec_index_mut(idx, i);
            entry.1.push(group_id);
            proof {
                lemma_update_pair(pre, i as int, final(entry).1);
                assert(idx@ =~= pre.update(i as int, (pre[i as int].0, final(entry).1)));
                let newlist = value_of(idx@, user_id)@;
                let oldlist = value_of(pre, user_id)@;
                assert(newlist == oldlist.push(group_id));
                assert(distinct_seq(newlist)) by {
                    assert forall|a: int, b: int|
                        0 <= a < b < newlist.len() implies newlist[a] != newlist[b] by {
                        if b == oldlist.len() {
                            if newlist[a] == group_id {
                                assert(oldlist[a] == group_id);
                                assert(oldlist.contains(group_id));
                            }
                        }
                    }
                }
                assert forall|i2: int| 0 <= i2 < idx@.len() implies (#[trigger] idx@[i2]).1@.len()
                    > 0 && distinct_seq(idx@[i2].1@) by {
                    if i2 != i {
                        assert(idx@[i2] == pre[i2]);
                    }
                }
                assert forall|u: UserID, g: GroupID| #![trigger index_maps(idx@, u, g)]
                    index_maps(idx@, u, g) == (index_maps(pre, u, g) || (u == user_id && g
                        == group_id)) by {
                    if u == user_id {
                        if index_maps(pre, u, g) {
                            let p = choose|p: int| 0 <= p < oldlist.len() && oldlist[p] == g;
                            assert(newlist[p] == g);
                            assert(newlist.contains(g));
                        }
                        assert(newlist[oldlist.len() as int] == group_id);
                        assert(newlist.contains(group_id));
                        if index_maps(idx@, u, g) {
                            let p = choose|p: int| 0 <= p < newlist.len() && newlist[p] == g;
                            if p < oldlist.len() {
                                assert(oldlist[p] == g);
                                assert(oldlist.contains(g));
                            }
                        }
                    }
                }
            }
        },
        None => {
            let mut list: Vec<GroupID> = Vec::new();
            list.push(group_id);
            idx.push((user_id, list));
            proof {
                lemma_push_pair(pre, user_id, idx@[pre.len() as int].1);
                assert(idx@ =~= pre.push((user_id, idx@[pre.len() as int].1)));
                assert(value_of(idx@, user_id)@ =~= seq![group_id]);
                assert forall|i2: int| 0 <= i2 < idx@.len() implies (#[trigger] idx@[i2]).1@.len()
                    > 0 && distinct_seq(idx@[i2].1@) by {
                    if i2 < pre.len() {
                        assert(idx@[i2] == pre[i2]);
                    }
                }
                assert forall|u: UserID, g: GroupID| #![trigger index_maps(idx@, u, g)]
                    index_maps(idx@, u, g) == (index_maps(pre, u, g) || (u == user_id && g
                        == group_id)) by {
                    if u == user_id {
                        assert(!index_maps(pre, u, g));
                        let newlist = value_of(idx@, user_id)@;
                        assert(newlist == seq![group_id]);
                        if index_maps(idx@, u, g) {
                            let p = choose|p: int| 0 <= p < newlist.len() && newlist[p] == g;
                            assert(g == group_id);
                        }
                        assert(newlist[0] == group_id);
                        assert(newlist.contains(group_id));
                    }
                }
            }
        },
    }
}

/// Remove `group_id` from `user_id`'s entry of the reverse index, dropping
/// the entry when it empties.  A pair the index does not list is ignored.
fn index_remove(idx: &mut Vec<(UserID, Vec<GroupID>)>, user_id: UserID, group_id: GroupID)
    requires
        index_hygiene(old(idx)@),
    ensures
        index_hygiene(final(idx)@),
        forall|u: UserID, g: GroupID|
            #![trigger index_maps(final(idx)@, u, g)]
            index_maps(final(idx)@, u, g) == (index_maps(old(idx)@, u, g) && !(u == user_id && g
                == group_id)),
        !index_maps(old(idx)@, user_id, group_id) ==> *final(idx) == *old(idx),
        forall|u: UserID| u != user_id ==> has_key(final(idx)@, u) == has_key(old(idx)@, u),
        forall|u: UserID|
            u != user_id && has_key(old(idx)@, u) ==> value_of(final(idx)@, u) == value_of(
                old(idx)@,
                u,
            ),
        has_key(final(idx)@, user_id) == (has_key(old(idx)@, user_id) && !(value_of(
            old(idx)@,
            user_id,
        )@ == seq![group_id])),
{
    let ghost pre = idx@;
    let i = match assoc_find(idx, user_id) {
        Some(i) => i,
        None => {
            return ;
        },
    };
    proof {
        lemma_index_of_key(pre, user_id, i as int);
    }
    let p = match position_i32(&idx[i].1, group_id) {
        Some(p) => p,
        None => {
            proof {
                if value_of(pre, user_id)@ == seq![group_id] {
                    assert(value_of(pre, user_id)@[0] == group_id);
                }
            }
            return ;
        },
    };
    let ghost oldlist = pre[i as int].1@;
    if idx[i].1.len() == 1 {
        idx.remove(i);
        proof {
            lemma_remove_pair(pre, i as int);
            assert(oldlist =~= seq![group_id]);
            assert forall|i2: int| 0 <= i2 < idx@.len() implies (#[trigger] idx@[i2]).1@.len() > 0
                && distinct_seq(idx@[i2].1@) by {
                let i3 = if i2 < i as int { i2 } else { i2 + 1 };
                assert(idx@[i2] == pre[i3]);
            }
            assert forall|u: UserID, g: GroupID| #![trigger index_maps(idx@, u, g)]
                index_maps(idx@, u, g) == (index_maps(pre, u, g) && !(u == user_id && g
                    == group_id)) by {
                if u == user_id {
                    assert(!has_key(idx@, user_id));
                    if index_maps(pre, u, g) && g != group_id {
                        let q = choose|q: int| 0 <= q < oldlist.len() && oldlist[q] == g;
                        assert(oldlist[q] == group_id);
                    }
                }
            }
        }
    } else {
        let entry = vec_index_mut(idx, i);
        entry.1.remove(p);
        proof {
            lemma_update_pair(pre, i as int, final(entry).1);
            assert(idx@ =~= pre.update(i as int, (pre[i as int].0, final(entry).1)));
            let newlist = value_of(idx@, user_id)@;
            assert(newlist == oldlist.remove(p as int));
            assert forall|b: int| 0 <= b < newlist.len() implies #[trigger] newlist[b] == (if b
                < p as int {
                oldlist[b]
            } else {
                oldlist[b + 1]
            }) by {}
            assert(distinct_seq(newlist)) by {
                assert forall|a: int, b: int|
                    0 <= a < b < newlist.len() implies newlist[a] != newlist[b] by {
                    let a2 = if a < p as int { a } else { a + 1 };
                    let b2 = if b < p as int { b } else { b + 1 };
                    assert(newlist[a] == oldlist[a2]);
                    assert(newlist[b] == oldlist[b2]);
                }
            }
            assert forall|i2: int| 0 <= i2 < idx@.len() implies (#[trigger] idx@[i2]).1@.len() > 0
                && distinct_seq(idx@[i2].1@) by {
                if i2 != i as int {
                    assert(idx@[i2] == pre[i2]);
                }
            }
            assert(!newlist.contains(group_id)) by {
                if newlist.contains(group_id) {
                    let b = choose|b: int| 0 <= b < newlist.len() && newlist[b] == group_id;
                    let b2 = if b < p as int { b } else { b + 1 };
                    assert(oldlist[b2] == group_id);
                    assert(oldlist[p as int] == group_id);
                }
            }
            assert forall|u: UserID, g: GroupID| #![trigger index_maps(idx@, u, g)]
                index_maps(idx@, u, g) == (index_maps(pre, u, g) && !(u == user_id && g
                    == group_id)) by {
                if u == user_id {
                    if index_maps(pre, u, g) && g != group_id {
                        let q = choose|q: int| 0 <= q < oldlist.len() && oldlist[q] == g;
                        let q2 = if q < p as int { q } else { q - 1 };
                        assert(newlist[q2] == g);
                        assert(newlist.contains(g));
                    }
                    if index_maps(idx@, u, g) {
                        let q = choose|q: int| 0 <= q < newlist.len() && newlist[q] == g;
                        let q2 = if q < p as int { q } else { q + 1 };
                        assert(oldlist[q2] == g);
                        assert(oldlist.contains(g));
                        assert(g != group_id);
                    }
                }
            }
            assert(oldlist != seq![group_id]) by {
                assert(oldlist.len() > 1);
            }
        }
    }
}

} // verus!
