//! The presence store model: per-user soft state with an expiry.
//!
//! A record says what a user's status is until some time; an absent or
//! expired record means offline.  The store that backs this at run time is
//! an external key/value service, so the process around the library reads
//! and writes that service with the same semantics; this model is what the
//! session rules are proved against.

use vstd::prelude::*;

use crate::model::UserStatus;

verus! {

/// One user's presence: a status that holds until `expires_at`.
#[derive(Clone, Copy, Debug, PartialEq, Eq, Structural)]
pub struct PresenceRecord {
    pub user_id: u128,
    pub status: UserStatus,
    pub expires_at: u64,
}

/// A record for the user exists.
pub open spec fn has_record(rs: Seq<PresenceRecord>, user_id: u128) -> bool {
    exists|i: int| 0 <= i < rs.len() && rs[i].user_id == user_id
}

/// The index of the user's record; meaningful only when one exists, and
/// then unique under `presence_wf`.
pub open spec fn record_index(rs: Seq<PresenceRecord>, user_id: u128) -> int {
    choose|i: int| 0 <= i < rs.len() && rs[i].user_id == user_id
}

/// At most one record per user.
pub open spec fn presence_wf(rs: Seq<PresenceRecord>) -> bool {
    forall|i: int, j: int| 0 <= i < j < rs.len() ==> rs[i].user_id != rs[j].user_id
}

/// The user's status as seen at time `at`: the stored status while its
/// record has not expired, and offline otherwise.  Absence means offline.
pub open spec fn presence_at(rs: Seq<PresenceRecord>, user_id: u128, at: u64) -> UserStatus {
    if has_record(rs, user_id) && rs[record_index(rs, user_id)].expires_at > at {
        rs[record_index(rs, user_id)].status
    } else {
        UserStatus::Offline
    }
}

/// The row at `i` is the one `record_index` names.
proof fn lemma_record_index(rs: Seq<PresenceRecord>, i: int)
    requires
        presence_wf(rs),
        0 <= i < rs.len(),
    ensures
        has_record(rs, rs[i].user_id),
        record_index(rs, rs[i].user_id) == i,
{
    assert(0 <= i < rs.len() && rs[i].user_id == rs[i].user_id);
    let j = record_index(rs, rs[i].user_id);
    if i < j {
        assert(rs[i].user_id != rs[j].user_id);
    }
    if j < i {
        assert(rs[j].user_id != rs[i].user_id);
    }
}

/// The process-local model of the presence service.
pub struct PresenceStore {
    records: Vec<PresenceRecord>,
}

impl View for PresenceStore {
    type V = Seq<PresenceRecord>;

    closed spec fn view(&self) -> Seq<PresenceRecord> {
        self.records@
    }
}

impl PresenceStore {
    /// The store invariant.
    pub open spec fn wf(self) -> bool {
        presence_wf(self@)
    }

    /// An empty store: everyone offline.
    pub fn new() -> (r: PresenceStore)
        ensures
            r.wf(),
            r@.len() == 0,
    {
        PresenceStore { records: Vec::new() }
    }

    /// Record the user's status, holding for `ttl` time units from `now`
    /// (saturating).  Every other user's presence is untouched.
    pub fn set_presence(&mut self, user_id: u128, status: UserStatus, now: u64, ttl: u64)
        requires
            old(self).wf(),
        ensures
            final(self).wf(),
            ({
                let expiry = if now + ttl > u64::MAX {
                    u64::MAX as int
                } else {
                    now + ttl
                };
                forall|at: u64|
                    presence_at(final(self)@, user_id, at) == (if expiry > at {
                        status
                    } else {
                        UserStatus::Offline
                    })
            }),
            forall|u: u128, at: u64|
                u != user_id ==> presence_at(final(self)@, u, at) == presence_at(
                    old(self)@,
                    u,
                    at,
                ),
    {
        let ghost rs0 = self@;
        let expires_at = if ttl > u64::MAX - now {
            u64::MAX
        } else {
            now + ttl
        };
        let record = PresenceRecord { user_id, status, expires_at };
        let n = self.records.len();
        let mut i: usize = 0;
        while i < n
            invariant
                n == self.records.len(),
                0 <= i <= n,
                self@ == rs0,
                rs0 == old(self)@,
                presence_wf(rs0),
                record == (PresenceRecord { user_id, status, expires_at }),
                expires_at == (if now + ttl > u64::MAX {
                    u64::MAX as int
                } else {
                    now + ttl
                }),
                forall|j: int| 0 <= j < i ==> (#[trigger] self@[j]).user_id != user_id,
            decreases n - i,
        {
            if self.records[i].user_id == user_id {
                let _ = self.records.remove(i);
                self.records.insert(i, record);
                proof {
                    let rs = self@;
                    assert(rs =~= rs0.update(i as int, record));
                    assert forall|k: int, l: int| 0 <= k < l < rs.len() implies rs[k].user_id
                        != rs[l].user_id by {
                        assert(rs0[k].user_id != rs0[l].user_id);
                        assert(rs[k] == if k == i as int {
                            record
                        } else {
                            rs0[k]
                        });
                        assert(rs[l] == if l == i as int {
                            record
                        } else {
                            rs0[l]
                        });
                    }
                    lemma_record_index(rs, i as int);
                    assert forall|u: u128, at: u64| u != user_id implies presence_at(rs, u, at)
                        == presence_at(rs0, u, at) by {
                        if has_record(rs, u) {
                            let k = record_index(rs, u);
                            assert(k != i as int);
                            assert(rs[k] == rs0[k]);
                            lemma_record_index(rs0, k);
                            lemma_record_index(rs, k);
                        }
                        if has_record(rs0, u) {
                            let k = record_index(rs0, u);
                            assert(k != i as int);
                            assert(rs[k] == rs0[k]);
                            lemma_record_index(rs, k);
                            lemma_record_index(rs0, k);
                        }
                    }
                }
                return ;
            }
            i = i + 1;
        }
        self.records.push(record);
        proof {
            let rs = self@;
            let n0 = rs0.len() as int;
            assert forall|k: int, l: int| 0 <= k < l < rs.len() implies rs[k].user_id
                != rs[l].user_id by {
                if l == n0 {
                    assert(rs[k] == rs0[k]);
                }
            }
            lemma_record_index(rs, n0);
            assert forall|u: u128, at: u64| u != user_id implies presence_at(rs, u, at)
                == presence_at(rs0, u, at) by {
                if has_record(rs, u) {
                    let k = record_index(rs, u);
                    assert(k < n0);
                    assert(rs[k] == rs0[k]);
                    lemma_record_index(rs0, k);
                    lemma_record_index(rs, k);
                }
                if has_record(rs0, u) {
                    let k = record_index(rs0, u);
                    assert(rs[k] == rs0[k]);
                    lemma_record_index(rs, k);
                    lemma_record_index(rs0, k);
                }
            }
        }
    }

    /// The user's status at time `now`: offline when no unexpired record
    /// exists.
    pub fn get_presence(&self, user_id: u128, now: u64) -> (r: UserStatus)
        requires
            self.wf(),
        ensures
            r == presence_at(self@, user_id, now),
    {
        let n = self.records.len();
        let mut i: usize = 0;
        while i < n
            invariant
                self.wf(),
                n == self.records.len(),
                0 <= i <= n,
                forall|j: int| 0 <= j < i ==> (#[trigger] self@[j]).user_id != user_id,
            decreases n - i,
        {
            let rec = self.records[i];
            if rec.user_id == user_id {
                proof {
                    lemma_record_index(self@, i as int);
                }
                if rec.expires_at > now {
                    return rec.status;
                } else {
                    return UserStatus::Offline;
                }
            }
            i = i + 1;
        }
        UserStatus::Offline
    }
}

} // verus!
