//! The in-memory credential manager: per-model ready queues, the
//! cooldown table, the refreshing set, and ownership of the full
//! credential records. Pure state, no I/O; owned and mutated solely by
//! the coordinator.

use vstd::prelude::*;

use crate::CredentialId;
use crate::credentials::{AssignV, AssignedCredential, CredV, GoogleCredential};

verus! {

/// Clock-skew allowance in seconds: a token whose expiry lies closer
/// than this is treated as already expired.
pub const EXPIRY_SKEW_SECS: i64 = 30;

/// The manager's owned copy of one credential, under its stable id.
pub struct CredentialRecord {
    pub id: CredentialId,
    pub cred: GoogleCredential,
}

impl Clone for CredentialRecord {
    fn clone(&self) -> (res: Self)
        ensures
            res == *self,
    {
        CredentialRecord { id: self.id, cred: self.cred.clone() }
    }
}

/// Ordered sequence of credential ids eligible to serve one model key.
pub struct ModelQueue {
    pub key: String,
    pub ids: Vec<CredentialId>,
}

/// A (credential, model) pair that must not serve before `not_before`.
pub struct CooldownEntry {
    pub id: CredentialId,
    pub key: String,
    pub not_before: i64,
}

impl Clone for CooldownEntry {
    fn clone(&self) -> (res: Self)
        ensures
            res == *self,
    {
        CooldownEntry { id: self.id, key: self.key.clone(), not_before: self.not_before }
    }
}

/// Mathematical image of a record.
#[verifier::ext_equal]
pub struct RecordV {
    pub id: CredentialId,
    pub cred: CredV,
}

/// Mathematical image of a queue.
#[verifier::ext_equal]
pub struct QueueV {
    pub key: Seq<char>,
    pub ids: Seq<CredentialId>,
}

/// Mathematical image of a cooldown entry.
#[verifier::ext_equal]
pub struct CooldownV {
    pub id: CredentialId,
    pub key: Seq<char>,
    pub not_before: int,
}

/// Mathematical image of the whole manager.
#[verifier::ext_equal]
pub struct ManagerV {
    pub records: Seq<RecordV>,
    pub queues: Seq<QueueV>,
    pub cooldowns: Seq<CooldownV>,
    pub refreshing: Seq<CredentialId>,
}

impl View for CredentialRecord {
    type V = RecordV;

    open spec fn view(&self) -> RecordV {
        RecordV { id: self.id, cred: self.cred@ }
    }
}

impl View for ModelQueue {
    type V = QueueV;

    open spec fn view(&self) -> QueueV {
        QueueV { key: self.key@, ids: self.ids@ }
    }
}

impl View for CooldownEntry {
    type V = CooldownV;

    open spec fn view(&self) -> CooldownV {
        CooldownV { id: self.id, key: self.key@, not_before: self.not_before as int }
    }
}

/// What one acquisition round trip yields: at most one assignment,
/// plus the candidates dequeued on the way whose tokens need refresh.
pub struct Assignment {
    pub assigned: Option<AssignedCredential>,
    pub refresh_ids: Vec<CredentialId>,
}

/// In-memory credential manager state.
pub struct CredentialManager {
    pub records: Vec<CredentialRecord>,
    pub queues: Vec<ModelQueue>,
    pub cooldowns: Vec<CooldownEntry>,
    pub refreshing: Vec<CredentialId>,
}

impl View for CredentialManager {
    type V = ManagerV;

    open spec fn view(&self) -> ManagerV {
        ManagerV {
            records: self.records@.map_values(|r: CredentialRecord| r@),
            queues: self.queues@.map_values(|q: ModelQueue| q@),
            cooldowns: self.cooldowns@.map_values(|c: CooldownEntry| c@),
            refreshing: self.refreshing@,
        }
    }
}

// ---------------------------------------------------------------------------
// Spec-level lookups
// ---------------------------------------------------------------------------

pub open spec fn has_id_rec(rs: Seq<RecordV>, id: CredentialId) -> bool {
    exists|i: int| 0 <= i < rs.len() && #[trigger] rs[i].id == id
}

pub open spec fn has_record(m: ManagerV, id: CredentialId) -> bool {
    has_id_rec(m.records, id)
}

pub open spec fn rec_index(rs: Seq<RecordV>, id: CredentialId) -> int {
    choose|i: int| 0 <= i < rs.len() && #[trigger] rs[i].id == id
}

pub open spec fn record_index(m: ManagerV, id: CredentialId) -> int {
    rec_index(m.records, id)
}

/// The credential stored under `id` (meaningful only when
/// `has_record(m, id)`).
pub open spec fn record_of(m: ManagerV, id: CredentialId) -> CredV {
    m.records[record_index(m, id)].cred
}

pub open spec fn has_queue(m: ManagerV, key: Seq<char>) -> bool {
    exists|i: int| 0 <= i < m.queues.len() && #[trigger] m.queues[i].key == key
}

pub open spec fn q_index(qs: Seq<QueueV>, key: Seq<char>) -> int {
    choose|i: int| 0 <= i < qs.len() && #[trigger] qs[i].key == key
}

pub open spec fn queue_index(m: ManagerV, key: Seq<char>) -> int {
    q_index(m.queues, key)
}

/// The ready queue for `key` (meaningful only when `has_queue(m, key)`).
pub open spec fn queue_of(m: ManagerV, key: Seq<char>) -> Seq<CredentialId> {
    m.queues[queue_index(m, key)].ids
}

pub open spec fn has_cd(cds: Seq<CooldownV>, id: CredentialId, key: Seq<char>) -> bool {
    exists|i: int| 0 <= i < cds.len() && #[trigger] cds[i].id == id && cds[i].key == key
}

pub open spec fn has_cooldown(m: ManagerV, id: CredentialId, key: Seq<char>) -> bool {
    has_cd(m.cooldowns, id, key)
}

pub open spec fn cd_index(cds: Seq<CooldownV>, id: CredentialId, key: Seq<char>) -> int {
    choose|i: int| 0 <= i < cds.len() && #[trigger] cds[i].id == id && cds[i].key == key
}

pub open spec fn cooldown_index(m: ManagerV, id: CredentialId, key: Seq<char>) -> int {
    cd_index(m.cooldowns, id, key)
}

/// The not-before instant for `(id, key)` (meaningful only when
/// `has_cooldown(m, id, key)`).
pub open spec fn cooldown_of(m: ManagerV, id: CredentialId, key: Seq<char>) -> int {
    m.cooldowns[cooldown_index(m, id, key)].not_before
}

/// A cooldown exists for `(id, key)` and has not yet expired.
pub open spec fn cooldown_active(m: ManagerV, id: CredentialId, key: Seq<char>, now: int) -> bool {
    has_cooldown(m, id, key) && now < cooldown_of(m, id, key)
}

/// A credential may be assigned only when it carries an access token
/// whose expiry, less the skew allowance, lies in the future.
pub open spec fn cred_usable(c: CredV, now: int) -> bool {
    c.access_token is Some && now < c.expiry - EXPIRY_SKEW_SECS
}

// ---------------------------------------------------------------------------
// Well-formedness
// ---------------------------------------------------------------------------

/// The invariants that hold of the manager between coordinator
/// messages: ids are unique everywhere, every queued id has a record,
/// and no queued id is marked refreshing.
pub open spec fn wf(m: ManagerV) -> bool {
    &&& forall|i: int, j: int|
        0 <= i < j < m.records.len() ==> #[trigger] m.records[i].id != #[trigger] m.records[j].id
    &&& forall|i: int, j: int|
        0 <= i < j < m.queues.len() ==> #[trigger] m.queues[i].key != #[trigger] m.queues[j].key
    &&& forall|q: int, i: int, j: int|
        0 <= q < m.queues.len() && 0 <= i < j < m.queues[q].ids.len()
            ==> #[trigger] m.queues[q].ids[i] != #[trigger] m.queues[q].ids[j]
    &&& forall|q: int, i: int|
        0 <= q < m.queues.len() && 0 <= i < m.queues[q].ids.len() ==> has_record(
            m,
            #[trigger] m.queues[q].ids[i],
        )
    &&& forall|q: int, i: int|
        0 <= q < m.queues.len() && 0 <= i < m.queues[q].ids.len() ==> !m.refreshing.contains(
            #[trigger] m.queues[q].ids[i],
        )
    &&& forall|i: int, j: int|
        0 <= i < j < m.cooldowns.len() ==> !(#[trigger] m.cooldowns[i].id
            == #[trigger] m.cooldowns[j].id && m.cooldowns[i].key == m.cooldowns[j].key)
    &&& forall|i: int, j: int|
        0 <= i < j < m.refreshing.len() ==> #[trigger] m.refreshing[i]
            != #[trigger] m.refreshing[j]
    &&& forall|i: int|
        0 <= i < m.refreshing.len() ==> has_record(m, #[trigger] m.refreshing[i])
}

// ---------------------------------------------------------------------------
// Spec-level transitions
// ---------------------------------------------------------------------------

/// Append `id` to the tail unless already present.
pub open spec fn push_unique(s: Seq<CredentialId>, id: CredentialId) -> Seq<CredentialId> {
    if s.contains(id) {
        s
    } else {
        s.push(id)
    }
}

/// The predicate keeping every id other than `id`.
pub open spec fn id_ne(id: CredentialId) -> spec_fn(CredentialId) -> bool {
    |x: CredentialId| x != id
}

/// The predicate keeping every record not owned by `id`.
pub open spec fn record_ne(id: CredentialId) -> spec_fn(RecordV) -> bool {
    |r: RecordV| r.id != id
}

/// The predicate keeping every cooldown not owned by `id`.
pub open spec fn cooldown_ne(id: CredentialId) -> spec_fn(CooldownV) -> bool {
    |c: CooldownV| c.id != id
}

/// Remove every occurrence of `id`.
pub open spec fn remove_id(s: Seq<CredentialId>, id: CredentialId) -> Seq<CredentialId> {
    s.filter(id_ne(id))
}

/// Install or update the record for `id`.
pub open spec fn upsert_record(rs: Seq<RecordV>, id: CredentialId, c: CredV) -> Seq<RecordV> {
    let nr = RecordV { id, cred: c };
    if exists|i: int| 0 <= i < rs.len() && #[trigger] rs[i].id == id {
        rs.update(choose|i: int| 0 <= i < rs.len() && #[trigger] rs[i].id == id, nr)
    } else {
        rs.push(nr)
    }
}

/// `add_credential`: installs/updates the record, appends `id` to the
/// tail of every queue where it is absent, and clears any refreshing
/// mark. Cooldowns are untouched.
pub open spec fn mv_add_credential(m: ManagerV, id: CredentialId, c: CredV) -> ManagerV {
    ManagerV {
        records: upsert_record(m.records, id, c),
        queues: m.queues.map_values(
            |q: QueueV| QueueV { key: q.key, ids: push_unique(q.ids, id) },
        ),
        cooldowns: m.cooldowns,
        refreshing: remove_id(m.refreshing, id),
    }
}

/// `delete_credential`: removes `id` from records, all queues, all
/// cooldowns, and the refreshing set.
pub open spec fn mv_delete(m: ManagerV, id: CredentialId) -> ManagerV {
    ManagerV {
        records: m.records.filter(record_ne(id)),
        queues: m.queues.map_values(|q: QueueV| QueueV { key: q.key, ids: remove_id(q.ids, id) }),
        cooldowns: m.cooldowns.filter(cooldown_ne(id)),
        refreshing: remove_id(m.refreshing, id),
    }
}

/// `mark_refreshing`: removes `id` from every queue and inserts it
/// into the refreshing set.
pub open spec fn mv_mark_refreshing(m: ManagerV, id: CredentialId) -> ManagerV {
    ManagerV {
        records: m.records,
        queues: m.queues.map_values(|q: QueueV| QueueV { key: q.key, ids: remove_id(q.ids, id) }),
        cooldowns: m.cooldowns,
        refreshing: push_unique(m.refreshing, id),
    }
}

/// Install or update the cooldown entry for `(id, key)`.
pub open spec fn upsert_cooldown(
    cds: Seq<CooldownV>,
    id: CredentialId,
    key: Seq<char>,
    nb: int,
) -> Seq<CooldownV> {
    let nc = CooldownV { id, key, not_before: nb };
    if has_cd(cds, id, key) {
        cds.update(
            choose|i: int| 0 <= i < cds.len() && #[trigger] cds[i].id == id && cds[i].key == key,
            nc,
        )
    } else {
        cds.push(nc)
    }
}

/// A cooldown duration wider than the instant type saturates.
pub open spec fn clamp_secs(d: int) -> int {
    if d > i64::MAX {
        i64::MAX as int
    } else {
        d
    }
}

/// Saturating addition within the instant type.
pub open spec fn sat_add64(a: int, b: int) -> int {
    if a + b > i64::MAX {
        i64::MAX as int
    } else {
        a + b
    }
}

/// `report_rate_limit`: records the not-before instant for `(id, key)`
/// and, if `id` stands at the head of queue `key`, rotates it to the
/// tail. Every other queue retains `id` in place.
pub open spec fn mv_report_rate_limit(
    m: ManagerV,
    id: CredentialId,
    key: Seq<char>,
    nb: int,
) -> ManagerV {
    let queues = if has_queue(m, key) {
        let qi = queue_index(m, key);
        let ids = m.queues[qi].ids;
        if ids.len() > 0 && ids[0] == id {
            m.queues.update(qi, QueueV { key, ids: ids.drop_first().push(id) })
        } else {
            m.queues
        }
    } else {
        m.queues
    };
    ManagerV {
        records: m.records,
        queues,
        cooldowns: upsert_cooldown(m.cooldowns, id, key, nb),
        refreshing: m.refreshing,
    }
}

// ---------------------------------------------------------------------------
// The assignment scan
// ---------------------------------------------------------------------------

/// Result of examining one ready queue from head toward tail.
#[verifier::ext_equal]
pub struct ScanV {
    /// The first viable candidate, if any.
    pub assigned: Option<CredentialId>,
    /// Candidates dequeued for refresh (token absent or expired), in
    /// head-to-tail order.
    pub refresh: Seq<CredentialId>,
    /// Candidates left in the queue ahead of the re-pushed assignee:
    /// the cooldown-skipped ones and, once assigned, the unexamined
    /// remainder.
    pub kept: Seq<CredentialId>,
    /// Examined candidates whose expired cooldown entry for this key
    /// is dropped.
    pub dropped: Seq<CredentialId>,
}

/// The assignment algorithm over one queue. Each candidate is
/// classified in order: an active cooldown skips it in place; an
/// expired cooldown is dropped and the candidate re-examined; a
/// missing or expiring token dequeues it for refresh; otherwise it is
/// the assignment and scanning stops.
pub open spec fn scan(m: ManagerV, key: Seq<char>, now: int, ids: Seq<CredentialId>) -> ScanV
    decreases ids.len(),
{
    if ids.len() == 0 {
        ScanV {
            assigned: None,
            refresh: Seq::empty(),
            kept: Seq::empty(),
            dropped: Seq::empty(),
        }
    } else {
        let id = ids[0];
        if cooldown_active(m, id, key, now) {
            let r = scan(m, key, now, ids.drop_first());
            ScanV {
                assigned: r.assigned,
                refresh: r.refresh,
                kept: seq![id] + r.kept,
                dropped: r.dropped,
            }
        } else {
            let dropped0: Seq<CredentialId> = if has_cooldown(m, id, key) {
                seq![id]
            } else {
                Seq::empty()
            };
            if !cred_usable(record_of(m, id), now) {
                let r = scan(m, key, now, ids.drop_first());
                ScanV {
                    assigned: r.assigned,
                    refresh: seq![id] + r.refresh,
                    kept: r.kept,
                    dropped: dropped0 + r.dropped,
                }
            } else {
                ScanV {
                    assigned: Some(id),
                    refresh: Seq::empty(),
                    kept: ids.drop_first(),
                    dropped: dropped0,
                }
            }
        }
    }
}

/// The queue contents after the scan: the kept candidates, with the
/// assignee re-pushed to the tail.
pub open spec fn scan_queue(r: ScanV) -> Seq<CredentialId> {
    match r.assigned {
        Some(a) => r.kept.push(a),
        None => r.kept,
    }
}

/// The predicate keeping every cooldown entry not dropped by the scan.
pub open spec fn cd_keep(key: Seq<char>, dropped: Seq<CredentialId>) -> spec_fn(CooldownV) -> bool {
    |c: CooldownV| !(c.key == key && dropped.contains(c.id))
}

/// `get_assigned`: the post-state. The scanned queue is replaced by
/// its residue and the expired cooldown entries examined on the way
/// are dropped; records and the refreshing set are untouched.
pub open spec fn mv_get_assigned(m: ManagerV, key: Seq<char>, now: int) -> ManagerV {
    if !has_queue(m, key) {
        m
    } else {
        let r = scan(m, key, now, queue_of(m, key));
        ManagerV {
            records: m.records,
            queues: m.queues.update(queue_index(m, key), QueueV { key, ids: scan_queue(r) }),
            cooldowns: m.cooldowns.filter(cd_keep(key, r.dropped)),
            refreshing: m.refreshing,
        }
    }
}

/// What the scan promises: its outputs come from the queue, stay
/// duplicate-free, an assignee is a usable, non-cooled candidate, and
/// only expired cooldown entries are dropped.
pub(crate) proof fn lemma_scan(m: ManagerV, key: Seq<char>, now: int, ids: Seq<CredentialId>)
    requires
        ids.no_duplicates(),
    ensures
        ({
            let r = scan(m, key, now, ids);
            &&& forall|x: CredentialId| #[trigger] scan_queue(r).contains(x) ==> ids.contains(x)
            &&& forall|x: CredentialId| #[trigger] r.refresh.contains(x) ==> ids.contains(x)
            &&& scan_queue(r).no_duplicates()
            &&& forall|x: CredentialId|
                #[trigger] r.dropped.contains(x) ==> has_cooldown(m, x, key) && cooldown_of(
                    m,
                    x,
                    key,
                ) <= now
            &&& match r.assigned {
                Some(a) => {
                    &&& ids.contains(a)
                    &&& cred_usable(record_of(m, a), now)
                    &&& !cooldown_active(m, a, key, now)
                },
                None => true,
            }
        }),
    decreases ids.len(),
{
    let r = scan(m, key, now, ids);
    if ids.len() > 0 {
        let id = ids[0];
        let tail = ids.drop_first();
        assert(tail.no_duplicates());
        assert(forall|x: CredentialId| #[trigger] tail.contains(x) ==> ids.contains(x)) by {
            assert forall|x: CredentialId| #[trigger] tail.contains(x) implies ids.contains(x) by {
                let k = choose|k: int| 0 <= k < tail.len() && tail[k] == x;
                assert(ids[k + 1] == x);
            }
        }
        assert(!tail.contains(id)) by {
            if tail.contains(id) {
                let k = choose|k: int| 0 <= k < tail.len() && tail[k] == id;
                assert(ids[k + 1] == ids[0]);
            }
        }
        lemma_scan(m, key, now, tail);
        let rt = scan(m, key, now, tail);
        if cooldown_active(m, id, key, now) {
            assert forall|x: CredentialId| #[trigger] r.dropped.contains(x) implies has_cooldown(
                m,
                x,
                key,
            ) && cooldown_of(m, x, key) <= now by {
                assert(rt.dropped.contains(x));
            }
            assert(scan_queue(r) =~= seq![id] + scan_queue(rt)) by {
                if rt.assigned is Some {
                    Seq::push_distributes_over_add(seq![id], rt.kept, rt.assigned->0);
                }
            }
            assert forall|x: CredentialId| #[trigger] scan_queue(r).contains(x) implies ids.contains(
                x,
            ) by {
                let k = choose|k: int| 0 <= k < scan_queue(r).len() && scan_queue(r)[k] == x;
                if k == 0 {
                    assert(ids.contains(ids[0]));
                } else {
                    assert(scan_queue(rt)[k - 1] == x);
                    assert(scan_queue(rt).contains(x));
                }
            }
            assert(scan_queue(r).no_duplicates()) by {
                assert forall|a: int, b: int|
                    0 <= a < b < scan_queue(r).len() implies scan_queue(r)[a] != scan_queue(
                    r,
                )[b] by {
                    if a == 0 {
                        assert(scan_queue(rt)[b - 1] == scan_queue(r)[b]);
                        assert(scan_queue(rt).contains(scan_queue(r)[b]));
                        assert(tail.contains(scan_queue(r)[b]));
                    } else {
                        assert(scan_queue(rt)[a - 1] == scan_queue(r)[a]);
                        assert(scan_queue(rt)[b - 1] == scan_queue(r)[b]);
                    }
                }
            }
            assert forall|x: CredentialId| #[trigger] r.refresh.contains(x) implies ids.contains(
                x,
            ) by {
                assert(rt.refresh.contains(x));
            }
        } else if !cred_usable(record_of(m, id), now) {
            assert(scan_queue(r) == scan_queue(rt));
            let d0: Seq<CredentialId> = if has_cooldown(m, id, key) {
                seq![id]
            } else {
                Seq::empty()
            };
            assert forall|x: CredentialId| #[trigger] r.dropped.contains(x) implies has_cooldown(
                m,
                x,
                key,
            ) && cooldown_of(m, x, key) <= now by {
                let k = choose|k: int| 0 <= k < r.dropped.len() && r.dropped[k] == x;
                if k < d0.len() {
                    assert(x == id);
                } else {
                    assert(rt.dropped[k - d0.len()] == x);
                    assert(rt.dropped.contains(x));
                }
            }
            assert forall|x: CredentialId| #[trigger] r.refresh.contains(x) implies ids.contains(
                x,
            ) by {
                let k = choose|k: int| 0 <= k < r.refresh.len() && r.refresh[k] == x;
                if k == 0 {
                    assert(ids.contains(ids[0]));
                } else {
                    assert(rt.refresh[k - 1] == x);
                    assert(rt.refresh.contains(x));
                }
            }
        } else {
            assert(scan_queue(r) == tail.push(id));
            assert forall|x: CredentialId| #[trigger] scan_queue(r).contains(x) implies ids.contains(
                x,
            ) by {
                let k = choose|k: int| 0 <= k < scan_queue(r).len() && scan_queue(r)[k] == x;
                if k < tail.len() {
                    assert(tail.contains(x));
                } else {
                    assert(x == id);
                    assert(ids.contains(ids[0]));
                }
            }
            assert(scan_queue(r).no_duplicates()) by {
                assert forall|a: int, b: int|
                    0 <= a < b < scan_queue(r).len() implies scan_queue(r)[a] != scan_queue(
                    r,
                )[b] by {
                    if b == tail.len() {
                        assert(scan_queue(r)[b] == id);
                        assert(tail.contains(tail[a]));
                    }
                }
            }
            assert(ids.contains(ids[0]));
            assert forall|x: CredentialId| #[trigger] r.dropped.contains(x) implies has_cooldown(
                m,
                x,
                key,
            ) && cooldown_of(m, x, key) <= now by {
                let k = choose|k: int| 0 <= k < r.dropped.len() && r.dropped[k] == x;
                assert(x == id);
            }
        }
    }
}

// ---------------------------------------------------------------------------
// Transition lemmas
// ---------------------------------------------------------------------------

/// Installing a record keeps ids unique, changes no other record, and
/// adds exactly `id` to the held set.
pub(crate) proof fn lemma_upsert_record_wf(rs: Seq<RecordV>, id: CredentialId, c: CredV)
    requires
        forall|i: int, j: int| 0 <= i < j < rs.len() ==> #[trigger] rs[i].id != #[trigger] rs[j].id,
    ensures
        ({
            let rs2 = upsert_record(rs, id, c);
            &&& forall|i: int, j: int|
                0 <= i < j < rs2.len() ==> #[trigger] rs2[i].id != #[trigger] rs2[j].id
            &&& forall|x: CredentialId|
                #[trigger] has_id_rec(rs2, x) <==> (has_id_rec(rs, x) || x == id)
            &&& forall|i: int|
                0 <= i < rs2.len() && #[trigger] rs2[i].id == id ==> rs2[i] == (RecordV {
                    id,
                    cred: c,
                })
            &&& forall|i: int|
                0 <= i < rs2.len() && #[trigger] rs2[i].id != id ==> 0 <= i < rs.len() && rs2[i]
                    == rs[i]
        }),
{
    let rs2 = upsert_record(rs, id, c);
    if has_id_rec(rs, id) {
        let ci = choose|i: int| 0 <= i < rs.len() && #[trigger] rs[i].id == id;
        assert(rs2 == rs.update(ci, RecordV { id, cred: c }));
        assert forall|x: CredentialId| #[trigger] has_id_rec(rs2, x) implies (has_id_rec(rs, x)
            || x == id) by {
            let i = choose|i: int| 0 <= i < rs2.len() && #[trigger] rs2[i].id == x;
            if i != ci {
                assert(rs[i].id == x);
            }
        }
        assert forall|x: CredentialId| has_id_rec(rs, x) || x == id implies #[trigger] has_id_rec(
            rs2,
            x,
        ) by {
            if x == id {
                assert(rs2[ci].id == id);
            } else {
                let i = choose|i: int| 0 <= i < rs.len() && #[trigger] rs[i].id == x;
                assert(rs2[i].id == x);
            }
        }
    } else {
        assert(rs2 == rs.push(RecordV { id, cred: c }));
        assert forall|x: CredentialId| has_id_rec(rs, x) || x == id implies #[trigger] has_id_rec(
            rs2,
            x,
        ) by {
            if x == id {
                assert(rs2[rs.len() as int].id == id);
            } else {
                let i = choose|i: int| 0 <= i < rs.len() && #[trigger] rs[i].id == x;
                assert(rs2[i].id == x);
            }
        }
        assert forall|x: CredentialId| #[trigger] has_id_rec(rs2, x) implies (has_id_rec(rs, x)
            || x == id) by {
            let i = choose|i: int| 0 <= i < rs2.len() && #[trigger] rs2[i].id == x;
            if i < rs.len() {
                assert(rs[i].id == x);
            }
        }
    }
}

/// Installing a cooldown entry keeps (id, key) pairs unique, changes
/// no other entry, and adds exactly `(id, key)` to the held set.
pub(crate) proof fn lemma_upsert_cooldown_wf(cds: Seq<CooldownV>, id: CredentialId, key: Seq<char>, nb: int)
    requires
        forall|i: int, j: int|
            0 <= i < j < cds.len() ==> !(#[trigger] cds[i].id == #[trigger] cds[j].id && cds[i].key
                == cds[j].key),
    ensures
        ({
            let cds2 = upsert_cooldown(cds, id, key, nb);
            &&& forall|i: int, j: int|
                0 <= i < j < cds2.len() ==> !(#[trigger] cds2[i].id == #[trigger] cds2[j].id
                    && cds2[i].key == cds2[j].key)
            &&& forall|i: int|
                0 <= i < cds2.len() && #[trigger] cds2[i].id == id && cds2[i].key == key
                    ==> cds2[i] == (CooldownV { id, key, not_before: nb })
            &&& forall|i: int|
                0 <= i < cds2.len() && !(#[trigger] cds2[i].id == id && cds2[i].key == key) ==> 0
                    <= i < cds.len() && cds2[i] == cds[i]
            &&& exists|i: int|
                0 <= i < cds2.len() && #[trigger] cds2[i].id == id && cds2[i].key == key
        }),
{
    let nc = CooldownV { id, key, not_before: nb };
    let cds2 = upsert_cooldown(cds, id, key, nb);
    if exists|i: int| 0 <= i < cds.len() && #[trigger] cds[i].id == id && cds[i].key == key {
        let ci = choose|i: int|
            0 <= i < cds.len() && #[trigger] cds[i].id == id && cds[i].key == key;
        assert(cds2 == cds.update(ci, nc));
        assert(cds2[ci].id == id && cds2[ci].key == key);
    } else {
        assert(cds2 == cds.push(nc));
        assert(cds2[cds.len() as int].id == id && cds2[cds.len() as int].key == key);
    }
}

/// Membership and uniqueness facts about `remove_id`.
pub(crate) proof fn lemma_remove_id(s: Seq<CredentialId>, id: CredentialId)
    ensures
        forall|x: CredentialId|
            #[trigger] remove_id(s, id).contains(x) ==> s.contains(x) && x != id,
        s.no_duplicates() ==> remove_id(s, id).no_duplicates(),
{
    crate::seqs::lemma_filter_sub(s, id_ne(id));
    if s.no_duplicates() {
        crate::seqs::lemma_filter_distinct(s, id_ne(id));
    }
}

/// Membership facts about `push_unique`.
pub(crate) proof fn lemma_push_unique(s: Seq<CredentialId>, id: CredentialId)
    ensures
        forall|x: CredentialId|
            #[trigger] push_unique(s, id).contains(x) <==> (s.contains(x) || x == id),
        s.no_duplicates() ==> push_unique(s, id).no_duplicates(),
{
    let s2 = push_unique(s, id);
    if !s.contains(id) {
        assert forall|x: CredentialId| #[trigger] s2.contains(x) implies (s.contains(x) || x
            == id) by {
            let i = choose|i: int| 0 <= i < s2.len() && s2[i] == x;
            if i < s.len() {
                assert(s[i] == x);
            }
        }
        assert forall|x: CredentialId| s.contains(x) || x == id implies #[trigger] s2.contains(
            x,
        ) by {
            if x == id {
                assert(s2[s.len() as int] == id);
            } else {
                let i = choose|i: int| 0 <= i < s.len() && s[i] == x;
                assert(s2[i] == x);
            }
        }
    }
}

// ---------------------------------------------------------------------------
// Executable helpers
// ---------------------------------------------------------------------------

fn vec_contains_id(v: &Vec<CredentialId>, id: CredentialId) -> (r: bool)
    ensures
        r == v@.contains(id),
{
    let mut i: usize = 0;
    while i < v.len()
        invariant
            i <= v@.len(),
            forall|j: int| 0 <= j < i as int ==> v@[j] != id,
        decreases v@.len() - i,
    {
        if v[i] == id {
            return true;
        }
        i += 1;
    }
    false
}

/// A copy of `v` with every occurrence of `id` removed.
fn copy_ids_without(v: &Vec<CredentialId>, id: CredentialId) -> (r: Vec<CredentialId>)
    ensures
        r@ == remove_id(v@, id),
{
    let mut out: Vec<CredentialId> = Vec::new();
    let mut i: usize = 0;
    while i < v.len()
        invariant
            i <= v@.len(),
            out@ == v@.take(i as int).filter(id_ne(id)),
        decreases v@.len() - i,
    {
        proof {
            crate::seqs::lemma_filter_take_step(v@, id_ne(id), i as int);
        }
        if v[i] != id {
            out.push(v[i]);
        }
        i += 1;
    }
    proof {
        crate::seqs::lemma_filter_take_all(v@, id_ne(id));
    }
    out
}

/// A copy of `v` with its head rotated to the tail.
fn rotate_head(v: &Vec<CredentialId>) -> (r: Vec<CredentialId>)
    requires
        v@.len() > 0,
    ensures
        r@ == v@.drop_first().push(v@[0]),
{
    let mut out: Vec<CredentialId> = Vec::new();
    let mut i: usize = 1;
    while i < v.len()
        invariant
            1 <= i <= v@.len(),
            out@ == v@.subrange(1, i as int),
        decreases v@.len() - i,
    {
        out.push(v[i]);
        proof {
            assert(out@ =~= v@.subrange(1, i + 1));
        }
        i += 1;
    }
    out.push(v[0]);
    proof {
        assert(out@ =~= v@.drop_first().push(v@[0]));
    }
    out
}

/// A copy of `v`, with `id` appended when absent.
fn copy_ids_push_unique(v: &Vec<CredentialId>, id: CredentialId) -> (r: Vec<CredentialId>)
    ensures
        r@ == push_unique(v@, id),
{
    let mut out: Vec<CredentialId> = Vec::new();
    let mut i: usize = 0;
    while i < v.len()
        invariant
            i <= v@.len(),
            out@ == v@.take(i as int),
        decreases v@.len() - i,
    {
        out.push(v[i]);
        proof {
            assert(out@ =~= v@.take(i + 1));
        }
        i += 1;
    }
    proof {
        assert(out@ =~= v@);
    }
    if !vec_contains_id(v, id) {
        out.push(id);
    }
    out
}

// ---------------------------------------------------------------------------
// Executable state and operations
// ---------------------------------------------------------------------------

impl CredentialManager {
    /// An empty manager with one empty ready queue per model key.
    pub fn new(model_keys: &Vec<String>) -> (r: Self)
        requires
            forall|i: int, j: int|
                0 <= i < j < model_keys@.len() ==> #[trigger] model_keys@[i]@
                    != #[trigger] model_keys@[j]@,
        ensures
            wf(r@),
            r@.records =~= Seq::<RecordV>::empty(),
            r@.cooldowns =~= Seq::<CooldownV>::empty(),
            r@.refreshing =~= Seq::<CredentialId>::empty(),
            r@.queues.len() == model_keys@.len(),
            forall|i: int|
                0 <= i < model_keys@.len() ==> #[trigger] r@.queues[i] == (QueueV {
                    key: model_keys@[i]@,
                    ids: Seq::<CredentialId>::empty(),
                }),
    {
        let mut queues: Vec<ModelQueue> = Vec::new();
        let mut k: usize = 0;
        while k < model_keys.len()
            invariant
                k <= model_keys@.len(),
                queues@.len() == k,
                forall|i: int|
                    0 <= i < k as int ==> #[trigger] queues@[i]@ == (QueueV {
                        key: model_keys@[i]@,
                        ids: Seq::<CredentialId>::empty(),
                    }),
            decreases model_keys@.len() - k,
        {
            queues.push(ModelQueue { key: model_keys[k].clone(), ids: Vec::new() });
            k += 1;
        }
        let r = CredentialManager { records: Vec::new(), queues, cooldowns: Vec::new(), refreshing: Vec::new() };
        proof {
            assert forall|i: int| 0 <= i < model_keys@.len() implies #[trigger] r@.queues[i]
                == (QueueV { key: model_keys@[i]@, ids: Seq::<CredentialId>::empty() }) by {
                assert(r@.queues[i] == queues@[i]@);
            }
        }
        r
    }

    fn find_record(&self, id: CredentialId) -> (r: Option<usize>)
        ensures
            match r {
                Some(i) => i < self@.records.len() && self@.records[i as int].id == id,
                None => !has_record(self@, id),
            },
    {
        let mut i: usize = 0;
        while i < self.records.len()
            invariant
                i <= self@.records.len(),
                forall|j: int| 0 <= j < i as int ==> #[trigger] self@.records[j].id != id,
            decreases self@.records.len() - i,
        {
            if self.records[i].id == id {
                return Some(i);
            }
            i += 1;
        }
        None
    }

    fn find_queue(&self, key: &String) -> (r: Option<usize>)
        ensures
            match r {
                Some(i) => i < self@.queues.len() && self@.queues[i as int].key == key@,
                None => !has_queue(self@, key@),
            },
    {
        let mut i: usize = 0;
        while i < self.queues.len()
            invariant
                i <= self@.queues.len(),
                forall|j: int| 0 <= j < i as int ==> #[trigger] self@.queues[j].key != key@,
            decreases self@.queues.len() - i,
        {
            if self.queues[i].key == *key {
                return Some(i);
            }
            i += 1;
        }
        None
    }

    fn find_cooldown(&self, id: CredentialId, key: &String) -> (r: Option<usize>)
        ensures
            match r {
                Some(i) => i < self@.cooldowns.len() && self@.cooldowns[i as int].id == id
                    && self@.cooldowns[i as int].key == key@,
                None => !has_cooldown(self@, id, key@),
            },
    {
        let mut i: usize = 0;
        while i < self.cooldowns.len()
            invariant
                i <= self@.cooldowns.len(),
                forall|j: int|
                    0 <= j < i as int ==> !(#[trigger] self@.cooldowns[j].id == id
                        && self@.cooldowns[j].key == key@),
            decreases self@.cooldowns.len() - i,
        {
            if self.cooldowns[i].id == id && self.cooldowns[i].key == *key {
                return Some(i);
            }
            i += 1;
        }
        None
    }

    /// Whether a record for `id` is held.
    pub fn contains(&self, id: CredentialId) -> (r: bool)
        ensures
            r == has_record(self@, id),
    {
        self.find_record(id).is_some()
    }

    /// Whether `id` is currently in flight through the refresh pipeline.
    pub fn is_refreshing(&self, id: CredentialId) -> (r: bool)
        ensures
            r == self@.refreshing.contains(id),
    {
        let mut i: usize = 0;
        while i < self.refreshing.len()
            invariant
                i <= self@.refreshing.len(),
                forall|j: int| 0 <= j < i as int ==> #[trigger] self@.refreshing[j] != id,
            decreases self@.refreshing.len() - i,
        {
            if self.refreshing[i] == id {
                return true;
            }
            i += 1;
        }
        false
    }

    /// A clone of the full record, when one is held. Record ids are
    /// unique under `wf`, so the returned value is pinned down.
    pub fn get_full_credential_copy(&self, id: CredentialId) -> (r: Option<GoogleCredential>)
        requires
            wf(self@),
        ensures
            match r {
                Some(c) => has_record(self@, id) && c@ == record_of(self@, id),
                None => !has_record(self@, id),
            },
    {
        match self.find_record(id) {
            Some(i) => {
                let c = self.records[i].cred.clone();
                proof {
                    assert(self@.records[record_index(self@, id)].id == id);
                }
                Some(c)
            },
            None => None,
        }
    }

    /// The project id of the record for `id`, when one is held.
    pub fn project_id_of(&self, id: CredentialId) -> (r: Option<String>)
        requires
            wf(self@),
        ensures
            match r {
                Some(p) => has_record(self@, id) && p@ == record_of(self@, id).project_id,
                None => !has_record(self@, id),
            },
    {
        match self.find_record(id) {
            Some(i) => {
                proof {
                    assert(self@.records[record_index(self@, id)].id == id);
                }
                Some(self.records[i].cred.project_id.clone())
            },
            None => None,
        }
    }

    /// Install or update the record for `id`, append `id` to the tail
    /// of every queue where it is absent, and clear any refreshing
    /// mark. Cooldowns are not cleared.
    pub fn add_credential(&mut self, id: CredentialId, cred: GoogleCredential)
        requires
            wf(old(self)@),
        ensures
            final(self)@ == mv_add_credential(old(self)@, id, cred@),
            wf(final(self)@),
    {
        let ghost m1 = self@;
        let ghost cv = cred@;
        match self.find_record(id) {
            Some(i) => {
                proof {
                    let ci = choose|j: int|
                        0 <= j < m1.records.len() && #[trigger] m1.records[j].id == id;
                    assert(m1.records[i as int].id == id);
                    if (i as int) < ci {
                        assert(m1.records[i as int].id != m1.records[ci].id);
                    } else if ci < i as int {
                        assert(m1.records[ci].id != m1.records[i as int].id);
                    }
                    assert(i as int == ci);
                }
                self.records[i] = CredentialRecord { id, cred };
                proof {
                    assert(self@.records =~= upsert_record(m1.records, id, cv));
                }
            },
            None => {
                self.records.push(CredentialRecord { id, cred });
                proof {
                    assert(self@.records =~= upsert_record(m1.records, id, cv));
                }
            },
        }
        let mut new_queues: Vec<ModelQueue> = Vec::new();
        let mut q: usize = 0;
        while q < self.queues.len()
            invariant
                q <= self.queues@.len(),
                self.queues@.map_values(|x: ModelQueue| x@) == m1.queues,
                self@.records == upsert_record(m1.records, id, cv),
                self@.cooldowns == m1.cooldowns,
                self@.refreshing == m1.refreshing,
                new_queues@.len() == q as int,
                forall|j: int|
                    0 <= j < q as int ==> #[trigger] new_queues@[j]@ == (QueueV {
                        key: m1.queues[j].key,
                        ids: push_unique(m1.queues[j].ids, id),
                    }),
            decreases self.queues@.len() - q,
        {
            let key2 = self.queues[q].key.clone();
            let ids2 = copy_ids_push_unique(&self.queues[q].ids, id);
            new_queues.push(ModelQueue { key: key2, ids: ids2 });
            q += 1;
        }
        self.queues = new_queues;
        let nr = copy_ids_without(&self.refreshing, id);
        self.refreshing = nr;
        proof {
            let m2 = self@;
            assert(m2.queues =~= m1.queues.map_values(
                |qv: QueueV| QueueV { key: qv.key, ids: push_unique(qv.ids, id) },
            ));
            assert(m2 =~= mv_add_credential(m1, id, cv));
            lemma_upsert_record_wf(m1.records, id, cv);
            lemma_remove_id(m1.refreshing, id);
            assert(m1.refreshing.no_duplicates());
            assert forall|q1: int, i: int|
                0 <= q1 < m2.queues.len() && 0 <= i < m2.queues[q1].ids.len() implies has_record(
                m2,
                #[trigger] m2.queues[q1].ids[i],
            ) && !m2.refreshing.contains(m2.queues[q1].ids[i]) by {
                lemma_push_unique(m1.queues[q1].ids, id);
                let x = m2.queues[q1].ids[i];
                assert(m2.queues[q1].ids.contains(x));
                assert(push_unique(m1.queues[q1].ids, id).contains(x));
                if x == id {
                    assert(has_id_rec(m2.records, x));
                } else {
                    assert(m1.queues[q1].ids.contains(x));
                    let k = choose|k: int|
                        0 <= k < m1.queues[q1].ids.len() && m1.queues[q1].ids[k] == x;
                    assert(has_record(m1, m1.queues[q1].ids[k]));
                    assert(!m1.refreshing.contains(m1.queues[q1].ids[k]));
                }
            }
            assert forall|q1: int, i: int, j: int|
                0 <= q1 < m2.queues.len() && 0 <= i < j < m2.queues[q1].ids.len() implies #[trigger] m2.queues[q1].ids[i] != #[trigger] m2.queues[q1].ids[j] by {
                let ids1 = m1.queues[q1].ids;
                assert(forall|a: int, b: int|
                    0 <= a < b < ids1.len() ==> #[trigger] ids1[a] != #[trigger] ids1[b]);
                if !ids1.contains(id) {
                    if j < ids1.len() {
                    } else {
                        assert(m2.queues[q1].ids[j] == id);
                        assert(ids1[i] == m2.queues[q1].ids[i]);
                        assert(ids1.contains(ids1[i]));
                    }
                }
            }
            assert forall|i: int|
                0 <= i < m2.refreshing.len() implies has_record(
                m2,
                #[trigger] m2.refreshing[i],
            ) by {
                let x = m2.refreshing[i];
                assert(m2.refreshing.contains(x));
                assert(m1.refreshing.contains(x));
                let k = choose|k: int| 0 <= k < m1.refreshing.len() && m1.refreshing[k] == x;
                assert(has_record(m1, m1.refreshing[k]));
            }
            assert(m2.refreshing.no_duplicates());
            assert(wf(m2));
        }
    }

    /// Rebuild every queue without `id`.
    fn strip_from_queues(&mut self, id: CredentialId)
        ensures
            final(self).records == old(self).records,
            final(self).cooldowns == old(self).cooldowns,
            final(self).refreshing == old(self).refreshing,
            final(self)@.queues == old(self)@.queues.map_values(
                |qv: QueueV| QueueV { key: qv.key, ids: remove_id(qv.ids, id) },
            ),
    {
        let ghost qs1 = self@.queues;
        let mut new_queues: Vec<ModelQueue> = Vec::new();
        let mut q: usize = 0;
        while q < self.queues.len()
            invariant
                q <= self.queues@.len(),
                self.queues@.map_values(|x: ModelQueue| x@) == qs1,
                new_queues@.len() == q as int,
                forall|j: int|
                    0 <= j < q as int ==> #[trigger] new_queues@[j]@ == (QueueV {
                        key: qs1[j].key,
                        ids: remove_id(qs1[j].ids, id),
                    }),
            decreases self.queues@.len() - q,
        {
            let key2 = self.queues[q].key.clone();
            let ids2 = copy_ids_without(&self.queues[q].ids, id);
            new_queues.push(ModelQueue { key: key2, ids: ids2 });
            q += 1;
        }
        self.queues = new_queues;
        proof {
            assert(self@.queues =~= qs1.map_values(
                |qv: QueueV| QueueV { key: qv.key, ids: remove_id(qv.ids, id) },
            ));
        }
    }

    /// Remove `id` from records, every queue, every cooldown, and the
    /// refreshing set.
    pub fn delete_credential(&mut self, id: CredentialId)
        requires
            wf(old(self)@),
        ensures
            final(self)@ == mv_delete(old(self)@, id),
            wf(final(self)@),
    {
        let ghost m1 = self@;
        let mut keep: Vec<CredentialRecord> = Vec::new();
        let mut i: usize = 0;
        while i < self.records.len()
            invariant
                i <= self.records@.len(),
                self.records@.map_values(|r: CredentialRecord| r@) == m1.records,
                keep@.map_values(|r: CredentialRecord| r@) == m1.records.take(i as int).filter(
                    record_ne(id),
                ),
            decreases self.records@.len() - i,
        {
            proof {
                crate::seqs::lemma_filter_take_step(m1.records, record_ne(id), i as int);
            }
            if self.records[i].id != id {
                keep.push(self.records[i].clone());
                proof {
                    assert(keep@.map_values(|r: CredentialRecord| r@) =~= m1.records.take(
                        i + 1,
                    ).filter(record_ne(id)));
                }
            }
            i += 1;
        }
        self.records = keep;
        proof {
            crate::seqs::lemma_filter_take_all(m1.records, record_ne(id));
        }
        let mut keep_cd: Vec<CooldownEntry> = Vec::new();
        let mut c: usize = 0;
        while c < self.cooldowns.len()
            invariant
                c <= self.cooldowns@.len(),
                self.cooldowns@.map_values(|x: CooldownEntry| x@) == m1.cooldowns,
                keep_cd@.map_values(|x: CooldownEntry| x@) == m1.cooldowns.take(c as int).filter(
                    cooldown_ne(id),
                ),
            decreases self.cooldowns@.len() - c,
        {
            proof {
                crate::seqs::lemma_filter_take_step(m1.cooldowns, cooldown_ne(id), c as int);
            }
            if self.cooldowns[c].id != id {
                keep_cd.push(self.cooldowns[c].clone());
                proof {
                    assert(keep_cd@.map_values(|x: CooldownEntry| x@) =~= m1.cooldowns.take(
                        c + 1,
                    ).filter(cooldown_ne(id)));
                }
            }
            c += 1;
        }
        self.cooldowns = keep_cd;
        proof {
            crate::seqs::lemma_filter_take_all(m1.cooldowns, cooldown_ne(id));
        }
        self.strip_from_queues(id);
        let nr = copy_ids_without(&self.refreshing, id);
        self.refreshing = nr;
        proof {
            let m2 = self@;
            assert(m2 =~= mv_delete(m1, id));
            assert(m1.refreshing.no_duplicates());
            assert forall|x: int, y: int|
                0 <= x < m1.records.len() && 0 <= y < m1.records.len() && x != y implies m1.records[x] != m1.records[y] by {
                if x < y {
                    assert(m1.records[x].id != m1.records[y].id);
                } else {
                    assert(m1.records[y].id != m1.records[x].id);
                }
            }
            assert(m1.records.no_duplicates());
            assert forall|x: int, y: int|
                0 <= x < m1.cooldowns.len() && 0 <= y < m1.cooldowns.len() && x != y implies m1.cooldowns[x] != m1.cooldowns[y] by {
                if x < y {
                    assert(!(m1.cooldowns[x].id == m1.cooldowns[y].id && m1.cooldowns[x].key
                        == m1.cooldowns[y].key));
                } else {
                    assert(!(m1.cooldowns[y].id == m1.cooldowns[x].id && m1.cooldowns[y].key
                        == m1.cooldowns[x].key));
                }
            }
            assert(m1.cooldowns.no_duplicates());
            crate::seqs::lemma_filter_sub(m1.records, record_ne(id));
            crate::seqs::lemma_filter_distinct(m1.records, record_ne(id));
            crate::seqs::lemma_filter_sub(m1.cooldowns, cooldown_ne(id));
            crate::seqs::lemma_filter_distinct(m1.cooldowns, cooldown_ne(id));
            lemma_remove_id(m1.refreshing, id);
            assert forall|a: int, b: int| 0 <= a < b < m2.records.len() implies #[trigger] m2.records[a].id != #[trigger] m2.records[b].id by {
                if m2.records[a].id == m2.records[b].id {
                    assert(m2.records.contains(m2.records[a]));
                    assert(m2.records.contains(m2.records[b]));
                    assert(m1.records.contains(m2.records[a]));
                    assert(m1.records.contains(m2.records[b]));
                    let x = choose|x: int|
                        0 <= x < m1.records.len() && m1.records[x] == m2.records[a];
                    let y = choose|y: int|
                        0 <= y < m1.records.len() && m1.records[y] == m2.records[b];
                    assert(m2.records[a] != m2.records[b]);
                    assert(x != y);
                }
            }
            assert forall|a: int, b: int| 0 <= a < b < m2.cooldowns.len() implies !(#[trigger] m2.cooldowns[a].id == #[trigger] m2.cooldowns[b].id && m2.cooldowns[a].key
                == m2.cooldowns[b].key) by {
                if m2.cooldowns[a].id == m2.cooldowns[b].id && m2.cooldowns[a].key
                    == m2.cooldowns[b].key {
                    assert(m2.cooldowns.contains(m2.cooldowns[a]));
                    assert(m2.cooldowns.contains(m2.cooldowns[b]));
                    assert(m1.cooldowns.contains(m2.cooldowns[a]));
                    assert(m1.cooldowns.contains(m2.cooldowns[b]));
                    let x = choose|x: int|
                        0 <= x < m1.cooldowns.len() && m1.cooldowns[x] == m2.cooldowns[a];
                    let y = choose|y: int|
                        0 <= y < m1.cooldowns.len() && m1.cooldowns[y] == m2.cooldowns[b];
                    assert(m2.cooldowns[a] != m2.cooldowns[b]);
                    assert(x != y);
                }
            }
            assert forall|q1: int, a: int, b: int|
                0 <= q1 < m2.queues.len() && 0 <= a < b < m2.queues[q1].ids.len() implies #[trigger] m2.queues[q1].ids[a] != #[trigger] m2.queues[q1].ids[b] by {
                assert(m1.queues[q1].ids.no_duplicates());
                lemma_remove_id(m1.queues[q1].ids, id);
                crate::seqs::lemma_filter_distinct(m1.queues[q1].ids, id_ne(id));
            }
            assert forall|q1: int, a: int|
                0 <= q1 < m2.queues.len() && 0 <= a < m2.queues[q1].ids.len() implies has_record(
                m2,
                #[trigger] m2.queues[q1].ids[a],
            ) && !m2.refreshing.contains(m2.queues[q1].ids[a]) by {
                let x = m2.queues[q1].ids[a];
                lemma_remove_id(m1.queues[q1].ids, id);
                assert(m2.queues[q1].ids.contains(x));
                assert(m1.queues[q1].ids.contains(x) && x != id);
                let k = choose|k: int|
                    0 <= k < m1.queues[q1].ids.len() && m1.queues[q1].ids[k] == x;
                assert(has_record(m1, m1.queues[q1].ids[k]));
                assert(!m1.refreshing.contains(m1.queues[q1].ids[k]));
                let ri = choose|ri: int|
                    0 <= ri < m1.records.len() && #[trigger] m1.records[ri].id == x;
                assert(record_ne(id)(m1.records[ri]));
                m1.records.lemma_filter_contains(record_ne(id), ri);
                assert(m2.records.contains(m1.records[ri]));
                let rj = choose|rj: int|
                    0 <= rj < m2.records.len() && m2.records[rj] == m1.records[ri];
                assert(m2.records[rj].id == x);
            }
            assert forall|a: int|
                0 <= a < m2.refreshing.len() implies has_record(
                m2,
                #[trigger] m2.refreshing[a],
            ) by {
                let x = m2.refreshing[a];
                assert(m2.refreshing.contains(x));
                assert(m1.refreshing.contains(x) && x != id);
                let k = choose|k: int| 0 <= k < m1.refreshing.len() && m1.refreshing[k] == x;
                assert(has_record(m1, m1.refreshing[k]));
                let ri = choose|ri: int|
                    0 <= ri < m1.records.len() && #[trigger] m1.records[ri].id == x;
                assert(record_ne(id)(m1.records[ri]));
                m1.records.lemma_filter_contains(record_ne(id), ri);
                assert(m2.records.contains(m1.records[ri]));
                let rj = choose|rj: int|
                    0 <= rj < m2.records.len() && m2.records[rj] == m1.records[ri];
                assert(m2.records[rj].id == x);
            }
            assert(m2.refreshing.no_duplicates());
            assert(wf(m2));
        }
    }

    /// Remove `id` from every queue and insert it into the refreshing
    /// set. The exclusion lock preventing duplicate refresh.
    pub fn mark_refreshing(&mut self, id: CredentialId)
        requires
            wf(old(self)@),
            has_record(old(self)@, id),
        ensures
            final(self)@ == mv_mark_refreshing(old(self)@, id),
            wf(final(self)@),
    {
        let ghost m1 = self@;
        self.strip_from_queues(id);
        if !vec_contains_id(&self.refreshing, id) {
            self.refreshing.push(id);
        }
        proof {
            let m2 = self@;
            assert(m2 =~= mv_mark_refreshing(m1, id));
            lemma_push_unique(m1.refreshing, id);
            assert(m1.refreshing.no_duplicates());
            assert forall|q1: int, a: int, b: int|
                0 <= q1 < m2.queues.len() && 0 <= a < b < m2.queues[q1].ids.len() implies #[trigger] m2.queues[q1].ids[a] != #[trigger] m2.queues[q1].ids[b] by {
                assert(m1.queues[q1].ids.no_duplicates());
                crate::seqs::lemma_filter_distinct(m1.queues[q1].ids, id_ne(id));
            }
            assert forall|q1: int, a: int|
                0 <= q1 < m2.queues.len() && 0 <= a < m2.queues[q1].ids.len() implies has_record(
                m2,
                #[trigger] m2.queues[q1].ids[a],
            ) && !m2.refreshing.contains(m2.queues[q1].ids[a]) by {
                let x = m2.queues[q1].ids[a];
                lemma_remove_id(m1.queues[q1].ids, id);
                assert(m2.queues[q1].ids.contains(x));
                assert(m1.queues[q1].ids.contains(x) && x != id);
                let k = choose|k: int|
                    0 <= k < m1.queues[q1].ids.len() && m1.queues[q1].ids[k] == x;
                assert(has_record(m1, m1.queues[q1].ids[k]));
                assert(!m1.refreshing.contains(m1.queues[q1].ids[k]));
            }
            assert forall|a: int|
                0 <= a < m2.refreshing.len() implies has_record(
                m2,
                #[trigger] m2.refreshing[a],
            ) by {
                let x = m2.refreshing[a];
                assert(m2.refreshing.contains(x));
                if x != id {
                    assert(m1.refreshing.contains(x));
                    let k = choose|k: int| 0 <= k < m1.refreshing.len() && m1.refreshing[k] == x;
                    assert(has_record(m1, m1.refreshing[k]));
                }
            }
            assert(m2.refreshing.no_duplicates());
            assert(wf(m2));
        }
    }

    /// Record a cooldown for `(id, model_key)` expiring at the
    /// saturating sum of `now` and the cooldown, and rotate `id` from
    /// the head of that one queue to its tail. Other queues retain
    /// `id` in place.
    pub fn report_rate_limit(&mut self, id: CredentialId, model_key: &String, cooldown_secs: u64, now: i64)
        requires
            wf(old(self)@),
        ensures
            final(self)@ == mv_report_rate_limit(
                old(self)@,
                id,
                model_key@,
                sat_add64(now as int, clamp_secs(cooldown_secs as int)),
            ),
            wf(final(self)@),
    {
        let ghost m1 = self@;
        let d: i64 = if cooldown_secs > (i64::MAX as u64) {
            i64::MAX
        } else {
            cooldown_secs as i64
        };
        let nb: i64 = if now > i64::MAX - d {
            i64::MAX
        } else {
            now + d
        };
        match self.find_queue(model_key) {
            Some(qi) => {
                proof {
                    let ci = choose|j: int|
                        0 <= j < m1.queues.len() && #[trigger] m1.queues[j].key == model_key@;
                    assert(m1.queues[qi as int].key == model_key@);
                    if (qi as int) < ci {
                        assert(m1.queues[qi as int].key != m1.queues[ci].key);
                    } else if ci < qi as int {
                        assert(m1.queues[ci].key != m1.queues[qi as int].key);
                    }
                    assert(qi as int == queue_index(m1, model_key@));
                }
                if self.queues[qi].ids.len() > 0 && self.queues[qi].ids[0] == id {
                    let key2 = self.queues[qi].key.clone();
                    let rotated = rotate_head(&self.queues[qi].ids);
                    self.queues[qi] = ModelQueue { key: key2, ids: rotated };
                    proof {
                        assert(self@.queues =~= m1.queues.update(
                            qi as int,
                            QueueV {
                                key: model_key@,
                                ids: m1.queues[qi as int].ids.drop_first().push(id),
                            },
                        ));
                    }
                }
            },
            None => {},
        }
        match self.find_cooldown(id, model_key) {
            Some(ci) => {
                self.cooldowns[ci] = CooldownEntry { id, key: model_key.clone(), not_before: nb };
                proof {
                    let cc = choose|j: int|
                        0 <= j < m1.cooldowns.len() && #[trigger] m1.cooldowns[j].id == id
                            && m1.cooldowns[j].key == model_key@;
                    assert(m1.cooldowns[ci as int].id == id && m1.cooldowns[ci as int].key
                        == model_key@);
                    if (ci as int) < cc {
                        assert(!(m1.cooldowns[ci as int].id == m1.cooldowns[cc].id
                            && m1.cooldowns[ci as int].key == m1.cooldowns[cc].key));
                    } else if cc < ci as int {
                        assert(!(m1.cooldowns[cc].id == m1.cooldowns[ci as int].id
                            && m1.cooldowns[cc].key == m1.cooldowns[ci as int].key));
                    }
                    assert(ci as int == cc);
                    assert(self@.cooldowns =~= m1.cooldowns.update(
                        ci as int,
                        CooldownV { id, key: model_key@, not_before: nb as int },
                    ));
                    assert(self@.cooldowns == upsert_cooldown(
                        m1.cooldowns,
                        id,
                        model_key@,
                        nb as int,
                    ));
                }
            },
            None => {
                self.cooldowns.push(CooldownEntry { id, key: model_key.clone(), not_before: nb });
                proof {
                    assert(self@.cooldowns =~= upsert_cooldown(
                        m1.cooldowns,
                        id,
                        model_key@,
                        nb as int,
                    ));
                }
            },
        }
        proof {
            let m2 = self@;
            let nbs = sat_add64(now as int, clamp_secs(cooldown_secs as int));
            assert(nb as int == nbs);
            assert(m2 =~= mv_report_rate_limit(m1, id, model_key@, nbs));
            lemma_upsert_cooldown_wf(m1.cooldowns, id, model_key@, nbs);
            assert forall|q1: int, a: int, b: int|
                0 <= q1 < m2.queues.len() && 0 <= a < b < m2.queues[q1].ids.len() implies #[trigger] m2.queues[q1].ids[a] != #[trigger] m2.queues[q1].ids[b] by {
                let ids1 = m1.queues[q1].ids;
                let ids2 = m2.queues[q1].ids;
                assert(forall|x: int, y: int|
                    0 <= x < y < ids1.len() ==> #[trigger] ids1[x] != #[trigger] ids1[y]);
                if ids2 != ids1 {
                    assert(ids2 == ids1.drop_first().push(ids1[0]));
                    assert(forall|x: int|
                        0 <= x < ids2.len() - 1 ==> #[trigger] ids2[x] == ids1[x + 1]);
                    assert(ids2[ids2.len() - 1] == ids1[0]);
                }
            }
            assert forall|q1: int, a: int|
                0 <= q1 < m2.queues.len() && 0 <= a < m2.queues[q1].ids.len() implies has_record(
                m2,
                #[trigger] m2.queues[q1].ids[a],
            ) && !m2.refreshing.contains(m2.queues[q1].ids[a]) by {
                let ids1 = m1.queues[q1].ids;
                let ids2 = m2.queues[q1].ids;
                if ids2 != ids1 {
                    assert(ids2 == ids1.drop_first().push(ids1[0]));
                    if a < ids2.len() - 1 {
                        assert(ids2[a] == ids1[a + 1]);
                        assert(has_record(m1, ids1[a + 1]));
                        assert(!m1.refreshing.contains(ids1[a + 1]));
                    } else {
                        assert(ids2[a] == ids1[0]);
                        assert(has_record(m1, ids1[0]));
                        assert(!m1.refreshing.contains(ids1[0]));
                    }
                } else {
                    assert(has_record(m1, ids1[a]));
                    assert(!m1.refreshing.contains(ids1[a]));
                }
            }
            assert(wf(m2));
        }
    }

    /// How many credentials are held.
    pub fn total_creds(&self) -> (r: usize)
        ensures
            r == self@.records.len(),
    {
        self.records.len()
    }

    /// How many ids the ready queue for `model_key` holds (zero when
    /// no such queue exists).
    pub fn queue_len(&self, model_key: &String) -> (r: usize)
        requires
            wf(self@),
        ensures
            r as int == if has_queue(self@, model_key@) {
                queue_of(self@, model_key@).len() as int
            } else {
                0
            },
    {
        match self.find_queue(model_key) {
            Some(qi) => {
                proof {
                    let ci = choose|j: int|
                        0 <= j < self@.queues.len() && #[trigger] self@.queues[j].key
                            == model_key@;
                    assert(self@.queues[qi as int].key == model_key@);
                    if (qi as int) < ci {
                        assert(self@.queues[qi as int].key != self@.queues[ci].key);
                    } else if ci < qi as int {
                        assert(self@.queues[ci].key != self@.queues[qi as int].key);
                    }
                    assert(qi as int == queue_index(self@, model_key@));
                }
                self.queues[qi].ids.len()
            },
            None => 0,
        }
    }

    /// How many cooldown entries stand.
    pub fn cooldown_len(&self) -> (r: usize)
        ensures
            r == self@.cooldowns.len(),
    {
        self.cooldowns.len()
    }

    /// How many ids are in flight through the refresh pipeline.
    pub fn refreshing_len(&self) -> (r: usize)
        ensures
            r == self@.refreshing.len(),
    {
        self.refreshing.len()
    }

    /// The scheduler primitive: examine the ready queue for
    /// `model_key` from head toward tail, skip candidates on active
    /// cooldown, drop expired cooldown entries, dequeue candidates
    /// whose token is absent or expiring for refresh, and assign the
    /// first viable candidate, re-pushing it to the tail so that
    /// concurrent callers rotate across credentials.
    pub fn get_assigned(&mut self, model_key: &String, now: i64) -> (r: Assignment)
        requires
            wf(old(self)@),
        ensures
            final(self)@ == mv_get_assigned(old(self)@, model_key@, now as int),
            wf(final(self)@),
            !has_queue(old(self)@, model_key@) ==> r.assigned is None && r.refresh_ids@
                == Seq::<CredentialId>::empty(),
            has_queue(old(self)@, model_key@) ==> ({
                let sc = scan(
                    old(self)@,
                    model_key@,
                    now as int,
                    queue_of(old(self)@, model_key@),
                );
                &&& r.refresh_ids@ == sc.refresh
                &&& match r.assigned {
                    Some(a) => {
                        &&& sc.assigned == Some(a.id)
                        &&& has_record(old(self)@, a.id)
                        &&& record_of(old(self)@, a.id).access_token == Some(a@.access_token)
                        &&& a@.project_id == record_of(old(self)@, a.id).project_id
                        &&& a@.target_model == model_key@
                        &&& cred_usable(record_of(old(self)@, a.id), now as int)
                        &&& !cooldown_active(old(self)@, a.id, model_key@, now as int)
                    },
                    None => sc.assigned is None,
                }
            }),
    {
        let ghost m1 = self@;
        let qi = match self.find_queue(model_key) {
            Some(qi) => qi,
            None => {
                return Assignment { assigned: None, refresh_ids: Vec::new() };
            },
        };
        proof {
            let ci = choose|j: int|
                0 <= j < m1.queues.len() && #[trigger] m1.queues[j].key == model_key@;
            assert(m1.queues[qi as int].key == model_key@);
            if (qi as int) < ci {
                assert(m1.queues[qi as int].key != m1.queues[ci].key);
            } else if ci < qi as int {
                assert(m1.queues[ci].key != m1.queues[qi as int].key);
            }
            assert(qi as int == queue_index(m1, model_key@));
        }
        let ghost ids0 = m1.queues[qi as int].ids;
        let ghost sc = scan(m1, model_key@, now as int, ids0);
        let n = self.queues[qi].ids.len();
        let mut kept: Vec<CredentialId> = Vec::new();
        let mut refresh_ids: Vec<CredentialId> = Vec::new();
        let mut dropped: Vec<CredentialId> = Vec::new();
        let mut assigned_id: Option<CredentialId> = None;
        let mut i: usize = 0;
        proof {
            assert(ids0.skip(0) =~= ids0);
            assert(Seq::<CredentialId>::empty() + sc.refresh =~= sc.refresh);
            assert(Seq::<CredentialId>::empty() + sc.kept =~= sc.kept);
            assert(Seq::<CredentialId>::empty() + sc.dropped =~= sc.dropped);
        }
        while i < n && assigned_id.is_none()
            invariant
                wf(m1),
                self@ == m1,
                qi < m1.queues.len(),
                qi as int == queue_index(m1, model_key@),
                m1.queues[qi as int].key == model_key@,
                ids0 == m1.queues[qi as int].ids,
                n == ids0.len(),
                sc == scan(m1, model_key@, now as int, ids0),
                i <= n,
                assigned_id is None ==> {
                    let rest = scan(m1, model_key@, now as int, ids0.skip(i as int));
                    &&& sc.assigned == rest.assigned
                    &&& sc.refresh == refresh_ids@ + rest.refresh
                    &&& sc.kept == kept@ + rest.kept
                    &&& sc.dropped == dropped@ + rest.dropped
                },
                match assigned_id {
                    Some(aid) => {
                        &&& sc.assigned == Some(aid)
                        &&& sc.refresh == refresh_ids@
                        &&& sc.kept == kept@ + ids0.skip(i as int)
                        &&& sc.dropped == dropped@
                    },
                    None => true,
                },
            decreases n - i,
        {
            let id = self.queues[qi].ids[i];
            let ghost s_i = ids0.skip(i as int);
            let ghost s_n = ids0.skip(i as int + 1);
            let ghost rest = scan(m1, model_key@, now as int, s_i);
            let ghost refresh_pre = refresh_ids@;
            proof {
                assert(s_i.len() == n - i);
                assert(s_i[0] == ids0[i as int]);
                assert(s_i.drop_first() =~= s_n);
            }
            let cd = self.find_cooldown(id, model_key);
            let mut skipped = false;
            match cd {
                Some(ci) => {
                    proof {
                        let cc = choose|j: int|
                            0 <= j < m1.cooldowns.len() && #[trigger] m1.cooldowns[j].id == id
                                && m1.cooldowns[j].key == model_key@;
                        assert(m1.cooldowns[ci as int].id == id && m1.cooldowns[ci as int].key
                            == model_key@);
                        if (ci as int) < cc {
                            assert(!(m1.cooldowns[ci as int].id == m1.cooldowns[cc].id
                                && m1.cooldowns[ci as int].key == m1.cooldowns[cc].key));
                        } else if cc < ci as int {
                            assert(!(m1.cooldowns[cc].id == m1.cooldowns[ci as int].id
                                && m1.cooldowns[cc].key == m1.cooldowns[ci as int].key));
                        }
                        assert(ci as int == cooldown_index(m1, id, model_key@));
                        assert(cooldown_of(m1, id, model_key@)
                            == m1.cooldowns[ci as int].not_before);
                    }
                    if now < self.cooldowns[ci].not_before {
                        proof {
                            assert(cooldown_active(m1, id, model_key@, now as int));
                        }
                        kept.push(id);
                        skipped = true;
                        proof {
                            assert(sc.kept =~= kept@ + scan(
                                m1,
                                model_key@,
                                now as int,
                                s_n,
                            ).kept);
                        }
                    } else {
                        dropped.push(id);
                        proof {
                            assert(!cooldown_active(m1, id, model_key@, now as int));
                            assert(has_cooldown(m1, id, model_key@));
                        }
                    }
                },
                None => {
                    proof {
                        assert(!cooldown_active(m1, id, model_key@, now as int));
                    }
                },
            }
            if !skipped {
                proof {
                    assert(has_record(m1, ids0[i as int]));
                }
                match self.find_record(id) {
                    Some(ri) => {
                        proof {
                            let rc = choose|j: int|
                                0 <= j < m1.records.len() && #[trigger] m1.records[j].id == id;
                            assert(m1.records[ri as int].id == id);
                            if (ri as int) < rc {
                                assert(m1.records[ri as int].id != m1.records[rc].id);
                            } else if rc < ri as int {
                                assert(m1.records[rc].id != m1.records[ri as int].id);
                            }
                            assert(ri as int == record_index(m1, id));
                            assert(record_of(m1, id) == m1.records[ri as int].cred);
                        }
                        let exp = self.records[ri].cred.expiry;
                        let threshold: i64 = if exp < i64::MIN + EXPIRY_SKEW_SECS {
                            i64::MIN
                        } else {
                            exp - EXPIRY_SKEW_SECS
                        };
                        let usable = self.records[ri].cred.access_token.is_some() && now
                            < threshold;
                        proof {
                            assert(usable == cred_usable(record_of(m1, id), now as int));
                        }
                        if !usable {
                            refresh_ids.push(id);
                            proof {
                                let rn = scan(m1, model_key@, now as int, s_n);
                                assert(rest.refresh == seq![id] + rn.refresh);
                                assert(sc.refresh =~= refresh_ids@ + rn.refresh);
                                assert(sc.dropped =~= dropped@ + rn.dropped);
                            }
                        } else {
                            assigned_id = Some(id);
                            proof {
                                assert(rest.assigned == Some(id));
                                assert(rest.kept == s_i.drop_first());
                                assert(sc.assigned == Some(id));
                                assert(sc.refresh =~= refresh_pre);
                                assert(sc.kept =~= kept@ + ids0.skip(i as int + 1));
                                assert(sc.dropped =~= dropped@);
                            }
                        }
                    },
                    None => {
                        proof {
                            assert(false);
                        }
                    },
                }
            }
            i += 1;
        }
        proof {
            if assigned_id is None {
                assert(i == n);
                assert(ids0.skip(n as int) =~= Seq::<CredentialId>::empty());
                assert(sc.assigned is None);
                assert(sc.refresh =~= refresh_ids@);
                assert(sc.kept =~= kept@);
                assert(sc.dropped =~= dropped@);
            }
        }
        if assigned_id.is_some() {
            let ghost kept_mid = kept@;
            let mut j: usize = i;
            while j < n
                invariant
                    self@ == m1,
                    qi < m1.queues.len(),
                    ids0 == m1.queues[qi as int].ids,
                    n == ids0.len(),
                    i <= j <= n,
                    kept@ == kept_mid + ids0.subrange(i as int, j as int),
                decreases n - j,
            {
                kept.push(self.queues[qi].ids[j]);
                proof {
                    assert(kept@ =~= kept_mid + ids0.subrange(i as int, j as int + 1));
                }
                j += 1;
            }
            proof {
                assert(ids0.subrange(i as int, n as int) =~= ids0.skip(i as int));
                assert(kept@ == kept_mid + ids0.skip(i as int));
                assert(kept@ == sc.kept);
            }
        }
        match assigned_id {
            Some(aid) => {
                kept.push(aid);
                proof {
                    assert(kept@ == scan_queue(sc));
                }
            },
            None => {
                proof {
                    assert(kept@ == scan_queue(sc));
                }
            },
        }
        let key2 = self.queues[qi].key.clone();
        self.queues[qi] = ModelQueue { key: key2, ids: kept };
        proof {
            assert(self@.queues =~= m1.queues.update(
                qi as int,
                QueueV { key: model_key@, ids: scan_queue(sc) },
            ));
        }
        let ghost qs2 = self@.queues;
        let mut keep_cd: Vec<CooldownEntry> = Vec::new();
        let mut c: usize = 0;
        while c < self.cooldowns.len()
            invariant
                self@.cooldowns == m1.cooldowns,
                self@.queues == qs2,
                self@.records == m1.records,
                self@.refreshing == m1.refreshing,
                c <= m1.cooldowns.len(),
                keep_cd@.map_values(|x: CooldownEntry| x@) == m1.cooldowns.take(c as int).filter(
                    cd_keep(model_key@, dropped@),
                ),
            decreases m1.cooldowns.len() - c,
        {
            proof {
                crate::seqs::lemma_filter_take_step(
                    m1.cooldowns,
                    cd_keep(model_key@, dropped@),
                    c as int,
                );
            }
            let is_dropped = self.cooldowns[c].key == *model_key && vec_contains_id(
                &dropped,
                self.cooldowns[c].id,
            );
            if !is_dropped {
                keep_cd.push(self.cooldowns[c].clone());
                proof {
                    assert(keep_cd@.map_values(|x: CooldownEntry| x@) =~= m1.cooldowns.take(
                        c + 1,
                    ).filter(cd_keep(model_key@, dropped@)));
                }
            }
            c += 1;
        }
        self.cooldowns = keep_cd;
        proof {
            crate::seqs::lemma_filter_take_all(m1.cooldowns, cd_keep(model_key@, dropped@));
            assert(dropped@ == sc.dropped);
            assert(self@.cooldowns == m1.cooldowns.filter(cd_keep(model_key@, sc.dropped)));
        }
        let result_assigned: Option<AssignedCredential> = match assigned_id {
            Some(aid) => {
                match self.find_record(aid) {
                    Some(ri) => {
                        proof {
                            lemma_scan(m1, model_key@, now as int, ids0);
                            assert(ids0.no_duplicates());
                            let rc = choose|j: int|
                                0 <= j < m1.records.len() && #[trigger] m1.records[j].id == aid;
                            assert(self@.records == m1.records);
                            assert(m1.records[ri as int].id == aid);
                            if (ri as int) < rc {
                                assert(m1.records[ri as int].id != m1.records[rc].id);
                            } else if rc < ri as int {
                                assert(m1.records[rc].id != m1.records[ri as int].id);
                            }
                            assert(ri as int == record_index(m1, aid));
                            assert(cred_usable(record_of(m1, aid), now as int));
                        }
                        let tok = match &self.records[ri].cred.access_token {
                            Some(t) => t.clone(),
                            None => {
                                proof {
                                    assert(false);
                                }
                                String::new()
                            },
                        };
                        Some(
                            AssignedCredential {
                                id: aid,
                                project_id: self.records[ri].cred.project_id.clone(),
                                access_token: tok,
                                target_model: model_key.clone(),
                            },
                        )
                    },
                    None => {
                        proof {
                            lemma_scan(m1, model_key@, now as int, ids0);
                            assert(ids0.no_duplicates());
                            assert(ids0.contains(aid));
                            let k = choose|k: int| 0 <= k < ids0.len() && ids0[k] == aid;
                            assert(has_record(m1, ids0[k]));
                            assert(false);
                        }
                        None
                    },
                }
            },
            None => None,
        };
        proof {
            let m2 = self@;
            assert(m2 =~= mv_get_assigned(m1, model_key@, now as int));
            lemma_scan(m1, model_key@, now as int, ids0);
            assert(ids0.no_duplicates());
            assert forall|x: int, y: int|
                0 <= x < m1.cooldowns.len() && 0 <= y < m1.cooldowns.len() && x != y implies m1.cooldowns[x] != m1.cooldowns[y] by {
                if x < y {
                    assert(!(m1.cooldowns[x].id == m1.cooldowns[y].id && m1.cooldowns[x].key
                        == m1.cooldowns[y].key));
                } else {
                    assert(!(m1.cooldowns[y].id == m1.cooldowns[x].id && m1.cooldowns[y].key
                        == m1.cooldowns[x].key));
                }
            }
            assert(m1.cooldowns.no_duplicates());
            crate::seqs::lemma_filter_sub(m1.cooldowns, cd_keep(model_key@, sc.dropped));
            crate::seqs::lemma_filter_distinct(m1.cooldowns, cd_keep(model_key@, sc.dropped));
            assert forall|a: int, b: int| 0 <= a < b < m2.cooldowns.len() implies !(#[trigger] m2.cooldowns[a].id == #[trigger] m2.cooldowns[b].id && m2.cooldowns[a].key
                == m2.cooldowns[b].key) by {
                if m2.cooldowns[a].id == m2.cooldowns[b].id && m2.cooldowns[a].key
                    == m2.cooldowns[b].key {
                    assert(m2.cooldowns.contains(m2.cooldowns[a]));
                    assert(m2.cooldowns.contains(m2.cooldowns[b]));
                    assert(m1.cooldowns.contains(m2.cooldowns[a]));
                    assert(m1.cooldowns.contains(m2.cooldowns[b]));
                    let x = choose|x: int|
                        0 <= x < m1.cooldowns.len() && m1.cooldowns[x] == m2.cooldowns[a];
                    let y = choose|y: int|
                        0 <= y < m1.cooldowns.len() && m1.cooldowns[y] == m2.cooldowns[b];
                    assert(m2.cooldowns[a] != m2.cooldowns[b]);
                    assert(x != y);
                }
            }
            assert forall|q1: int, a: int, b: int|
                0 <= q1 < m2.queues.len() && 0 <= a < b < m2.queues[q1].ids.len() implies #[trigger] m2.queues[q1].ids[a] != #[trigger] m2.queues[q1].ids[b] by {
                if q1 == qi as int {
                    assert(m2.queues[q1].ids == scan_queue(sc));
                    assert(scan_queue(sc).no_duplicates());
                } else {
                    assert(m2.queues[q1] == m1.queues[q1]);
                }
            }
            assert forall|q1: int, a: int|
                0 <= q1 < m2.queues.len() && 0 <= a < m2.queues[q1].ids.len() implies has_record(
                m2,
                #[trigger] m2.queues[q1].ids[a],
            ) && !m2.refreshing.contains(m2.queues[q1].ids[a]) by {
                let x = m2.queues[q1].ids[a];
                if q1 == qi as int {
                    assert(m2.queues[q1].ids == scan_queue(sc));
                    assert(scan_queue(sc).contains(x));
                    assert(ids0.contains(x));
                    let k = choose|k: int| 0 <= k < ids0.len() && ids0[k] == x;
                    assert(has_record(m1, ids0[k]));
                    assert(!m1.refreshing.contains(ids0[k]));
                } else {
                    assert(m2.queues[q1] == m1.queues[q1]);
                    assert(has_record(m1, m1.queues[q1].ids[a]));
                    assert(!m1.refreshing.contains(m1.queues[q1].ids[a]));
                }
            }
            assert(wf(m2));
            match &result_assigned {
                Some(a) => {
                    assert(!cooldown_active(m1, a.id, model_key@, now as int));
                },
                None => {},
            }
        }
        Assignment { assigned: result_assigned, refresh_ids }
    }
}

} // verus!
