//! The per-process connection registry: a map from device-qualified
//! identities to outbound channel handles.
//!
//! A channel handle is an opaque 64-bit token that the surrounding process
//! associates with one socket's outbound queue.  The registry owns
//! registration, conditional unregistration, and the routing decisions of
//! local fan-out; pushing events down the channels is the process's job.

use vstd::prelude::*;

verus! {

/// One live registration: a device-qualified identity and its channel.
#[derive(Clone, Copy, Debug, PartialEq, Eq, Structural)]
pub struct Registration {
    pub user_id: u128,
    pub device_id: u32,
    pub channel: u64,
}

/// A registration for the pair exists.
pub open spec fn registered(rs: Seq<Registration>, user_id: u128, device_id: u32) -> bool {
    exists|i: int|
        0 <= i < rs.len() && rs[i].user_id == user_id && rs[i].device_id == device_id
}

/// The index of the pair's registration; meaningful only when one exists,
/// and then unique under `registry_wf`.
pub open spec fn reg_index(rs: Seq<Registration>, user_id: u128, device_id: u32) -> int {
    choose|i: int| 0 <= i < rs.len() && rs[i].user_id == user_id && rs[i].device_id == device_id
}

/// The channel registered for the pair, if any.
pub open spec fn channel_of(rs: Seq<Registration>, user_id: u128, device_id: u32) -> Option<u64> {
    if registered(rs, user_id, device_id) {
        Some(rs[reg_index(rs, user_id, device_id)].channel)
    } else {
        None
    }
}

/// At most one registration per device-qualified identity.
pub open spec fn registry_wf(rs: Seq<Registration>) -> bool {
    forall|i: int, j: int|
        0 <= i < j < rs.len() ==> !(rs[i].user_id == rs[j].user_id && rs[i].device_id
            == rs[j].device_id)
}

/// The row at `i` is the one `reg_index` names.
proof fn lemma_reg_index(rs: Seq<Registration>, i: int)
    requires
        registry_wf(rs),
        0 <= i < rs.len(),
    ensures
        registered(rs, rs[i].user_id, rs[i].device_id),
        reg_index(rs, rs[i].user_id, rs[i].device_id) == i,
        channel_of(rs, rs[i].user_id, rs[i].device_id) == Some(rs[i].channel),
{
    assert(0 <= i < rs.len() && rs[i].user_id == rs[i].user_id && rs[i].device_id
        == rs[i].device_id);
    let j = reg_index(rs, rs[i].user_id, rs[i].device_id);
    if i < j {
        assert(!(rs[i].user_id == rs[j].user_id && rs[i].device_id == rs[j].device_id));
    }
    if j < i {
        assert(!(rs[j].user_id == rs[i].user_id && rs[j].device_id == rs[i].device_id));
    }
}

/// The process-local registry of live connections.
pub struct ConnectionRegistry {
    entries: Vec<Registration>,
}

impl View for ConnectionRegistry {
    type V = Seq<Registration>;

    closed spec fn view(&self) -> Seq<Registration> {
        self.entries@
    }
}

impl ConnectionRegistry {
    /// The registry invariant.
    pub open spec fn wf(self) -> bool {
        registry_wf(self@)
    }

    /// An empty registry.
    pub fn new() -> (r: ConnectionRegistry)
        ensures
            r.wf(),
            r@.len() == 0,
    {
        ConnectionRegistry { entries: Vec::new() }
    }

    /// The index of the pair's registration, if any.
    fn find(&self, user_id: u128, device_id: u32) -> (r: Option<usize>)
        ensures
            match r {
                Some(i) => i < self@.len() && self@[i as int].user_id == user_id
                    && self@[i as int].device_id == device_id,
                None => !registered(self@, user_id, device_id),
            },
    {
        let n = self.entries.len();
        let mut i: usize = 0;
        while i < n
            invariant
                n == self.entries.len(),
                0 <= i <= n,
                forall|j: int|
                    0 <= j < i ==> !((#[trigger] self.entries@[j]).user_id == user_id
                        && self.entries@[j].device_id == device_id),
            decreases n - i,
        {
            if self.entries[i].user_id == user_id && self.entries[i].device_id == device_id {
                return Some(i);
            }
            i = i + 1;
        }
        None
    }

    /// Register a channel for the device-qualified identity, replacing any
    /// prior registration for the same pair: a reconnect evicts the stale
    /// entry.  Every other pair keeps its channel.
    pub fn register(&mut self, user_id: u128, device_id: u32, channel: u64)
        requires
            old(self).wf(),
        ensures
            final(self).wf(),
            channel_of(final(self)@, user_id, device_id) == Some(channel),
            forall|u: u128, d: u32|
                !(u == user_id && d == device_id) ==> channel_of(final(self)@, u, d) == channel_of(
                    old(self)@,
                    u,
                    d,
                ),
    {
        let ghost rs0 = self@;
        match self.find(user_id, device_id) {
            Some(i) => {
                let _ = self.entries.remove(i);
                proof {
                    let rs = self@;
                    assert forall|u: u128, d: u32| !(u == user_id && d == device_id) implies channel_of(
                        rs,
                        u,
                        d,
                    ) == channel_of(rs0, u, d) by {
                        lemma_removed_pair(rs0, rs, i as int, u, d);
                    }
                    assert forall|k: int, l: int| 0 <= k < l < rs.len() implies !(rs[k].user_id
                        == rs[l].user_id && rs[k].device_id == rs[l].device_id) by {
                        assert(rs[k] == if k < i as int {
                            rs0[k]
                        } else {
                            rs0[k + 1]
                        });
                        assert(rs[l] == if l < i as int {
                            rs0[l]
                        } else {
                            rs0[l + 1]
                        });
                    }
                    assert(!registered(rs, user_id, device_id)) by {
                        if registered(rs, user_id, device_id) {
                            let k = reg_index(rs, user_id, device_id);
                            assert(rs[k] == if k < i as int {
                                rs0[k]
                            } else {
                                rs0[k + 1]
                            });
                            lemma_reg_index(rs0, i as int);
                            if k < i as int {
                                assert(!(rs0[k].user_id == rs0[i as int].user_id
                                    && rs0[k].device_id == rs0[i as int].device_id));
                            } else {
                                assert(!(rs0[i as int].user_id == rs0[k + 1].user_id
                                    && rs0[i as int].device_id == rs0[k + 1].device_id));
                            }
                            assert(false);
                        }
                    }
                }
                self.push_fresh(user_id, device_id, channel);
                proof {
                    assert forall|u: u128, d: u32| !(u == user_id && d == device_id) implies channel_of(
                        self@,
                        u,
                        d,
                    ) == channel_of(rs0, u, d) by {}
                }
            },
            None => {
                self.push_fresh(user_id, device_id, channel);
            },
        }
    }

    /// Append a registration for a pair that has none.
    fn push_fresh(&mut self, user_id: u128, device_id: u32, channel: u64)
        requires
            old(self).wf(),
            !registered(old(self)@, user_id, device_id),
        ensures
            final(self).wf(),
            channel_of(final(self)@, user_id, device_id) == Some(channel),
            forall|u: u128, d: u32|
                !(u == user_id && d == device_id) ==> channel_of(final(self)@, u, d) == channel_of(
                    old(self)@,
                    u,
                    d,
                ),
    {
        let ghost rs0 = self@;
        self.entries.push(Registration { user_id, device_id, channel });
        proof {
            let rs = self@;
            let n = rs0.len() as int;
            assert forall|k: int, l: int| 0 <= k < l < rs.len() implies !(rs[k].user_id
                == rs[l].user_id && rs[k].device_id == rs[l].device_id) by {
                if l == n {
                    if rs[k].user_id == user_id && rs[k].device_id == device_id {
                        assert(registered(rs0, user_id, device_id));
                    }
                }
            }
            lemma_reg_index(rs, n);
            assert forall|u: u128, d: u32| !(u == user_id && d == device_id) implies channel_of(
                rs,
                u,
                d,
            ) == channel_of(rs0, u, d) by {
                if registered(rs, u, d) {
                    let k = reg_index(rs, u, d);
                    assert(k < n);
                    lemma_reg_index(rs0, k);
                    lemma_reg_index(rs, k);
                }
                if registered(rs0, u, d) {
                    let k = reg_index(rs0, u, d);
                    assert(rs[k] == rs0[k]);
                    lemma_reg_index(rs, k);
                }
            }
        }
    }

    /// Unregister the pair only while it still holds the caller's channel:
    /// a late unregister never evicts a newer registration for the same
    /// pair.
    pub fn unregister(&mut self, user_id: u128, device_id: u32, channel: u64)
        requires
            old(self).wf(),
        ensures
            final(self).wf(),
            channel_of(final(self)@, user_id, device_id) == (if channel_of(
                old(self)@,
                user_id,
                device_id,
            ) == Some(channel) {
                None::<u64>
            } else {
                channel_of(old(self)@, user_id, device_id)
            }),
            forall|u: u128, d: u32|
                !(u == user_id && d == device_id) ==> channel_of(final(self)@, u, d) == channel_of(
                    old(self)@,
                    u,
                    d,
                ),
    {
        let ghost rs0 = self@;
        match self.find(user_id, device_id) {
            Some(i) => {
                proof {
                    lemma_reg_index(rs0, i as int);
                }
                if self.entries[i].channel == channel {
                    let _ = self.entries.remove(i);
                    proof {
                        let rs = self@;
                        assert forall|k: int, l: int| 0 <= k < l < rs.len() implies !(rs[k].user_id
                            == rs[l].user_id && rs[k].device_id == rs[l].device_id) by {
                            assert(rs[k] == if k < i as int {
                                rs0[k]
                            } else {
                                rs0[k + 1]
                            });
                            assert(rs[l] == if l < i as int {
                                rs0[l]
                            } else {
                                rs0[l + 1]
                            });
                        }
                        assert forall|u: u128, d: u32| !(u == user_id && d
                            == device_id) implies channel_of(rs, u, d) == channel_of(
                            rs0,
                            u,
                            d,
                        ) by {
                            lemma_removed_pair(rs0, rs, i as int, u, d);
                        }
                        assert(!registered(rs, user_id, device_id)) by {
                            if registered(rs, user_id, device_id) {
                                let k = reg_index(rs, user_id, device_id);
                                assert(rs[k] == if k < i as int {
                                    rs0[k]
                                } else {
                                    rs0[k + 1]
                                });
                                if k < i as int {
                                    assert(!(rs0[k].user_id == rs0[i as int].user_id
                                        && rs0[k].device_id == rs0[i as int].device_id));
                                } else {
                                    assert(!(rs0[i as int].user_id == rs0[k + 1].user_id
                                        && rs0[i as int].device_id == rs0[k + 1].device_id));
                                }
                                assert(false);
                            }
                        }
                    }
                }
            },
            None => {},
        }
    }

    /// The channel registered for one device-qualified identity.
    pub fn route_to_device(&self, user_id: u128, device_id: u32) -> (r: Option<u64>)
        requires
            self.wf(),
        ensures
            r == channel_of(self@, user_id, device_id),
    {
        match self.find(user_id, device_id) {
            Some(i) => {
                proof {
                    lemma_reg_index(self@, i as int);
                }
                Some(self.entries[i].channel)
            },
            None => None,
        }
    }

    /// The channels of every device registered for `user_id`, one per
    /// device and none twice: the local fan-out targets of an event for
    /// that user.
    #[verifier::rlimit(50)]
    pub fn route_to_user(&self, user_id: u128) -> (r: Vec<(u32, u64)>)
        requires
            self.wf(),
        ensures
            forall|k: int|
                0 <= k < r@.len() ==> channel_of(self@, user_id, (#[trigger] r@[k]).0) == Some(
                    r@[k].1,
                ),
            forall|d: u32| registered(self@, user_id, d) ==> exists|k: int|
                0 <= k < r@.len() && (#[trigger] r@[k]).0 == d,
            forall|k1: int, k2: int| 0 <= k1 < k2 < r@.len() ==> r@[k1].0 != r@[k2].0,
    {
        let n = self.entries.len();
        let mut i: usize = 0;
        let mut r: Vec<(u32, u64)> = Vec::new();
        let ghost mut src: Seq<int> = Seq::empty();
        while i < n
            invariant
                self.wf(),
                n == self.entries.len(),
                0 <= i <= n,
                src.len() == r@.len(),
                forall|k: int|
                    0 <= k < r@.len() ==> 0 <= #[trigger] src[k] < i && self.entries@[src[k]].user_id
                        == user_id && self.entries@[src[k]].device_id == r@[k].0
                        && self.entries@[src[k]].channel == r@[k].1,
                forall|j: int|
                    0 <= j < i && (#[trigger] self.entries@[j]).user_id == user_id ==> (exists|
                        k: int,
                    |
                        0 <= k < r@.len() && #[trigger] src[k] == j),
                forall|k1: int, k2: int| 0 <= k1 < k2 < r@.len() ==> src[k1] != src[k2],
            decreases n - i,
        {
            let e = self.entries[i];
            if e.user_id == user_id {
                let ghost old_r = r@;
                r.push((e.device_id, e.channel));
                proof {
                    let ghost old_src = src;
                    src = src.push(i as int);
                    assert(r@[old_r.len() as int] == (e.device_id, e.channel));
                    assert(forall|k: int| 0 <= k < old_r.len() ==> r@[k] == old_r[k]);
                    assert(forall|k: int| 0 <= k < old_src.len() ==> src[k] == old_src[k]);
                    assert(src[old_src.len() as int] == i as int);
                    assert forall|j: int|
                        0 <= j < i + 1 && (#[trigger] self.entries@[j]).user_id
                            == user_id implies (exists|k: int|
                        0 <= k < r@.len() && #[trigger] src[k] == j) by {
                        if j < i {
                            let k = choose|k: int| 0 <= k < old_r.len() && old_src[k] == j;
                            assert(src[k] == j);
                        } else {
                            assert(src[old_src.len() as int] == j);
                        }
                    }
                }
            } else {
                proof {
                    assert forall|j: int|
                        0 <= j < i + 1 && (#[trigger] self.entries@[j]).user_id
                            == user_id implies (exists|k: int|
                        0 <= k < r@.len() && #[trigger] src[k] == j) by {
                        assert(j < i);
                    }
                }
            }
            i = i + 1;
        }
        proof {
            assert forall|k: int| 0 <= k < r@.len() implies channel_of(
                self@,
                user_id,
                (#[trigger] r@[k]).0,
            ) == Some(r@[k].1) by {
                lemma_reg_index(self@, src[k]);
            }
            assert forall|d: u32| registered(self@, user_id, d) implies exists|k: int|
                0 <= k < r@.len() && (#[trigger] r@[k]).0 == d by {
                let j = choose|j: int|
                    0 <= j < self@.len() && self@[j].user_id == user_id && self@[j].device_id == d;
                assert(self.entries@[j].user_id == user_id);
                let k = choose|k: int| 0 <= k < r@.len() && src[k] == j;
                assert(r@[k].0 == d);
            }
            assert forall|k1: int, k2: int| 0 <= k1 < k2 < r@.len() implies r@[k1].0
                != r@[k2].0 by {
                let j1 = src[k1];
                let j2 = src[k2];
                if j1 < j2 {
                    assert(!(self.entries@[j1].user_id == self.entries@[j2].user_id
                        && self.entries@[j1].device_id == self.entries@[j2].device_id));
                } else {
                    assert(!(self.entries@[j2].user_id == self.entries@[j1].user_id
                        && self.entries@[j2].device_id == self.entries@[j1].device_id));
                }
            }
        }
        r
    }
}

/// Removing row `i` leaves every other pair's channel unchanged.
proof fn lemma_removed_pair(
    rs0: Seq<Registration>,
    rs: Seq<Registration>,
    i: int,
    u: u128,
    d: u32,
)
    requires
        registry_wf(rs0),
        0 <= i < rs0.len(),
        rs == rs0.remove(i),
        !(u == rs0[i].user_id && d == rs0[i].device_id),
        registry_wf(rs),
    ensures
        channel_of(rs, u, d) == channel_of(rs0, u, d),
{
    if registered(rs, u, d) {
        let k = reg_index(rs, u, d);
        assert(rs[k] == if k < i {
            rs0[k]
        } else {
            rs0[k + 1]
        });
        if k < i {
            lemma_reg_index(rs0, k);
            lemma_reg_index(rs, k);
        } else {
            lemma_reg_index(rs0, k + 1);
            lemma_reg_index(rs, k);
        }
    }
    if registered(rs0, u, d) {
        let k = reg_index(rs0, u, d);
        assert(k != i);
        if k < i {
            assert(rs[k] == rs0[k]);
            lemma_reg_index(rs, k);
        } else {
            assert(rs[k - 1] == rs0[k]);
            lemma_reg_index(rs, k - 1);
        }
        lemma_reg_index(rs0, k);
    }
}

} // verus!
