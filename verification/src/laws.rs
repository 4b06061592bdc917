//! The system-wide guarantees, proved from the transition functions
//! the executable operations are verified against. Queue hygiene
//! itself — every queued id has a record and is not refreshing — is
//! the `wf` invariant, which every manager operation and every
//! coordinator step states in its `ensures`.

use vstd::prelude::*;

use crate::CredentialId;
use crate::coordinator::{spec_assigned_id, sv_load, sv_report_invalid, sv_startup};
use crate::manager::{
    cd_index, cooldown_active, cooldown_of, cred_usable, has_cooldown, has_queue, has_record,
    mv_add_credential, mv_delete, mv_get_assigned, mv_report_rate_limit, queue_index, queue_of,
    record_of,
    remove_id, scan, wf, ManagerV, QueueV, RecordV,
};
use crate::credentials::CredV;
use crate::store::{
    has_row_id, row_for, row_id_index, row_of, row_pid_index, spec_active, store_wf, sv_set_status,
    sv_upsert, StoreV,
};

verus! {

/// Queue hygiene, spelled out: in a well-formed manager — which
/// every operation and every coordinator step re-establishes — each
/// id in any queue has a record and is not in the refreshing set.
pub proof fn lemma_queued_id_hygiene(m: ManagerV, q: int, i: int)
    requires
        wf(m),
        0 <= q < m.queues.len(),
        0 <= i < m.queues[q].ids.len(),
    ensures
        has_record(m, m.queues[q].ids[i]),
        !m.refreshing.contains(m.queues[q].ids[i]),
{
}

/// Two successive `ReportInvalid` for one id, with no intervening
/// `RefreshComplete`, submit at most one refresh job: the first
/// report marks the id refreshing, and the second finds it so.
pub proof fn lemma_duplicate_invalid_single_job(m: ManagerV, id: CredentialId)
    requires
        wf(m),
    ensures
        ({
            let first = sv_report_invalid(m, id);
            let second = sv_report_invalid(first.0, id);
            !(first.1 && second.1)
        }),
{
    let first = sv_report_invalid(m, id);
    if first.1 {
        crate::manager::lemma_push_unique(m.refreshing, id);
        assert(first.0.refreshing.contains(id));
    }
}

/// A rate-limit report with not-before instant `nb` excludes the id
/// from assignment on that model at every earlier instant: the
/// cooldown is active, and the scan never assigns a candidate whose
/// cooldown is active.
pub proof fn lemma_rate_limit_excludes(
    m: ManagerV,
    id: CredentialId,
    key: Seq<char>,
    nb: int,
    t2: int,
)
    requires
        wf(m),
        t2 < nb,
    ensures
        spec_assigned_id(mv_report_rate_limit(m, id, key, nb), key, t2) != Some(id),
{
    let m2 = mv_report_rate_limit(m, id, key, nb);
    crate::manager::lemma_upsert_cooldown_wf(m.cooldowns, id, key, nb);
    assert(has_cooldown(m2, id, key));
    let ci = cd_index(m2.cooldowns, id, key);
    assert(m2.cooldowns[ci].id == id && m2.cooldowns[ci].key == key);
    assert(cooldown_of(m2, id, key) == nb);
    assert(cooldown_active(m2, id, key, t2));
    if has_queue(m2, key) {
        let qi2 = queue_index(m2, key);
        let ids2 = m2.queues[qi2].ids;
        assert(ids2.no_duplicates()) by {
            if has_queue(m, key) {
                let qh = queue_index(m, key);
                let ids = m.queues[qh].ids;
                if ids.len() > 0 && ids[0] == id {
                    assert(m2.queues == m.queues.update(
                        qh,
                        QueueV { key, ids: ids.drop_first().push(id) },
                    ));
                    if qi2 == qh {
                        let rot = ids.drop_first().push(ids[0]);
                        assert(ids2 == rot);
                        assert forall|a: int, b: int|
                            0 <= a < b < rot.len() implies rot[a] != rot[b] by {
                            assert(forall|x: int, y: int|
                                0 <= x < y < ids.len() ==> #[trigger] ids[x] != #[trigger] ids[y]);
                            assert(forall|x: int|
                                0 <= x < rot.len() - 1 ==> #[trigger] rot[x] == ids[x + 1]);
                            assert(rot[rot.len() - 1] == ids[0]);
                        }
                    } else {
                        assert(ids2 == m.queues[qi2].ids);
                    }
                } else {
                    assert(m2.queues == m.queues);
                }
            } else {
                assert(m2.queues == m.queues);
            }
        }
        assert(queue_of(m2, key) == ids2);
        crate::manager::lemma_scan(m2, key, t2, ids2);
        if scan(m2, key, t2, ids2).assigned == Some(id) {
            assert(!cooldown_active(m2, id, key, t2));
        }
    }
}

/// An acquisition drops only expired cooldown entries: a cooldown
/// still active at the acquisition instant survives it — on any
/// model — with its not-before instant intact.
pub proof fn lemma_acquisition_keeps_active_cooldowns(
    m: ManagerV,
    key2: Seq<char>,
    t: int,
    id: CredentialId,
    key: Seq<char>,
)
    requires
        wf(m),
        cooldown_active(m, id, key, t),
    ensures
        cooldown_active(mv_get_assigned(m, key2, t), id, key, t),
        cooldown_of(mv_get_assigned(m, key2, t), id, key) == cooldown_of(m, id, key),
{
    let m2 = mv_get_assigned(m, key2, t);
    if has_queue(m, key2) {
        let ids = queue_of(m, key2);
        let qi = queue_index(m, key2);
        assert(ids.no_duplicates()) by {
            assert(forall|x: int, y: int|
                0 <= x < y < m.queues[qi].ids.len() ==> #[trigger] m.queues[qi].ids[x]
                    != #[trigger] m.queues[qi].ids[y]);
        }
        crate::manager::lemma_scan(m, key2, t, ids);
        let r = scan(m, key2, t, ids);
        let ci = cd_index(m.cooldowns, id, key);
        assert(m.cooldowns[ci].id == id && m.cooldowns[ci].key == key);
        let entry = m.cooldowns[ci];
        assert(cooldown_of(m, id, key) == entry.not_before);
        assert(crate::manager::cd_keep(key2, r.dropped)(entry)) by {
            if entry.key == key2 && r.dropped.contains(entry.id) {
                assert(cooldown_of(m, id, key2) <= t);
                assert(t < cooldown_of(m, id, key));
            }
        }
        m.cooldowns.lemma_filter_contains(crate::manager::cd_keep(key2, r.dropped), ci);
        assert(m2.cooldowns.contains(entry));
        let j = choose|j: int| 0 <= j < m2.cooldowns.len() && m2.cooldowns[j] == entry;
        assert(m2.cooldowns[j].id == id && m2.cooldowns[j].key == key);
        assert(has_cooldown(m2, id, key));
        crate::seqs::lemma_filter_sub(m.cooldowns, crate::manager::cd_keep(key2, r.dropped));
        let cj = cd_index(m2.cooldowns, id, key);
        assert(m2.cooldowns[cj].id == id && m2.cooldowns[cj].key == key);
        assert(m2.cooldowns.contains(m2.cooldowns[cj]));
        assert(m.cooldowns.contains(m2.cooldowns[cj]));
        let k0 = choose|k0: int| 0 <= k0 < m.cooldowns.len() && m.cooldowns[k0] == m2.cooldowns[cj];
        if k0 < ci {
            assert(!(m.cooldowns[k0].id == m.cooldowns[ci].id && m.cooldowns[k0].key
                == m.cooldowns[ci].key));
        } else if ci < k0 {
            assert(!(m.cooldowns[ci].id == m.cooldowns[k0].id && m.cooldowns[ci].key
                == m.cooldowns[k0].key));
        }
        assert(m2.cooldowns[cj] == entry);
        assert(cooldown_of(m2, id, key) == entry.not_before);
    }
}

/// After a ban the credential is deleted from every queue:
/// acquisition on any model never assigns it again.
pub proof fn lemma_banned_never_assigned(m: ManagerV, id: CredentialId, key: Seq<char>, t: int)
    requires
        wf(m),
    ensures
        spec_assigned_id(mv_delete(m, id), key, t) != Some(id),
{
    let m2 = mv_delete(m, id);
    if has_queue(m2, key) {
        let qi = queue_index(m2, key);
        assert(m2.queues[qi] == QueueV {
            key: m.queues[qi].key,
            ids: remove_id(m.queues[qi].ids, id),
        });
        let ids = m.queues[qi].ids;
        let ids2 = m2.queues[qi].ids;
        assert(ids.no_duplicates()) by {
            assert(forall|x: int, y: int|
                0 <= x < y < ids.len() ==> #[trigger] ids[x] != #[trigger] ids[y]);
        }
        crate::manager::lemma_remove_id(ids, id);
        assert(queue_of(m2, key) == ids2);
        crate::manager::lemma_scan(m2, key, t, ids2);
        match scan(m2, key, t, ids2).assigned {
            Some(a) => {
                assert(ids2.contains(a));
                assert(a != id);
            },
            None => {},
        }
    }
}

/// Upsert round-trips: after `upsert(c, true)` hands back an id,
/// fetching that id yields exactly `c`'s fields under that id, active.
pub proof fn lemma_upsert_get_round_trip(s: StoreV, c: CredV)
    requires
        store_wf(s),
    ensures
        ({
            let (s2, id) = sv_upsert(s, c, true);
            &&& has_row_id(s2.rows, id)
            &&& row_of(s2.rows, id) == row_for(id, c, true)
        }),
{
    let (s2, id) = sv_upsert(s, c, true);
    if crate::store::has_row_pid(s.rows, c.project_id) {
        let i = row_pid_index(s.rows, c.project_id);
        assert(s2.rows == s.rows.update(i, row_for(s.rows[i].id, c, true)));
        assert(s2.rows[i].id == id);
        assert(has_row_id(s2.rows, id));
        let j = row_id_index(s2.rows, id);
        assert(s2.rows[j].id == id);
        if j < i {
            assert(s2.rows[j].id == s.rows[j].id);
            assert(s.rows[j].id < s.rows[i].id);
        } else if i < j {
            assert(s2.rows[j].id == s.rows[j].id);
            assert(s.rows[i].id < s.rows[j].id);
        }
        assert(j == i);
    } else {
        assert(s2.rows == s.rows.push(row_for(s.next_id, c, true)));
        assert(s2.rows[s.rows.len() as int].id == id);
        assert(has_row_id(s2.rows, id));
        let j = row_id_index(s2.rows, id);
        assert(s2.rows[j].id == id);
        if j < s.rows.len() {
            assert(s2.rows[j].id == s.rows[j].id);
            assert(s.rows[j].id < s.next_id);
        }
        assert(j == s.rows.len());
    }
}

/// After the status column is set false, the active listing excludes
/// the id.
pub proof fn lemma_banned_not_listed(s: StoreV, id: CredentialId)
    requires
        store_wf(s),
    ensures
        forall|i: int|
            0 <= i < spec_active(sv_set_status(s, id, false).rows).len()
                ==> #[trigger] spec_active(sv_set_status(s, id, false).rows)[i].id != id,
{
    let s2 = sv_set_status(s, id, false);
    let act = spec_active(s2.rows);
    crate::seqs::lemma_filter_sub(s2.rows, crate::store::row_active());
    assert forall|i: int| 0 <= i < act.len() implies #[trigger] act[i].id != id by {
        let row = act[i];
        assert(act.contains(row));
        assert(s2.rows.contains(row) && row.status);
        let k = choose|k: int| 0 <= k < s2.rows.len() && s2.rows[k] == row;
        if crate::store::has_row_id(s.rows, id) {
            let ri = row_id_index(s.rows, id);
            if k == ri {
                assert(!row.status);
            } else {
                assert(s2.rows[k] == s.rows[k]);
                if k < ri {
                    assert(s.rows[k].id < s.rows[ri].id);
                } else {
                    assert(s.rows[ri].id < s.rows[k].id);
                }
            }
        } else {
            assert(s2 == s);
            assert(s.rows[k].id != id);
        }
    }
}

/// Loading rows installs exactly their ids beside what was already
/// held.
proof fn lemma_load_records(m: ManagerV, rows: Seq<RecordV>)
    requires
        forall|i: int, j: int|
            0 <= i < j < m.records.len() ==> #[trigger] m.records[i].id
                != #[trigger] m.records[j].id,
    ensures
        forall|x: CredentialId|
            #[trigger] has_record(sv_load(m, rows), x) <==> (has_record(m, x) || exists|i: int|
                0 <= i < rows.len() && #[trigger] rows[i].id == x),
    decreases rows.len(),
{
    if rows.len() > 0 {
        let m2 = mv_add_credential(m, rows[0].id, rows[0].cred);
        crate::manager::lemma_upsert_record_wf(m.records, rows[0].id, rows[0].cred);
        lemma_load_records(m2, rows.drop_first());
        assert(sv_load(m, rows) == sv_load(m2, rows.drop_first()));
        assert forall|x: CredentialId| #[trigger] has_record(sv_load(m, rows), x) implies (
        has_record(m, x) || exists|i: int| 0 <= i < rows.len() && #[trigger] rows[i].id == x) by {
            assert(has_record(sv_load(m2, rows.drop_first()), x));
            if !has_record(m, x) {
                if x == rows[0].id {
                    assert(rows[0].id == x);
                } else {
                    assert(has_record(m2, x) || exists|i: int|
                        0 <= i < rows.drop_first().len() && #[trigger] rows.drop_first()[i].id
                            == x);
                    assert(!has_record(m2, x));
                    let i = choose|i: int|
                        0 <= i < rows.drop_first().len() && #[trigger] rows.drop_first()[i].id
                            == x;
                    assert(rows[i + 1].id == x);
                }
            }
        }
        assert forall|x: CredentialId|
            has_record(m, x) || exists|i: int|
                0 <= i < rows.len() && #[trigger] rows[i].id == x implies #[trigger] has_record(
            sv_load(m, rows),
            x,
        ) by {
            if has_record(m, x) || x == rows[0].id {
                assert(has_record(m2, x));
                assert(has_record(sv_load(m2, rows.drop_first()), x));
            } else {
                let i = choose|i: int| 0 <= i < rows.len() && #[trigger] rows[i].id == x;
                assert(i >= 1);
                assert(rows.drop_first()[i - 1].id == x);
                assert(has_record(sv_load(m2, rows.drop_first()), x));
            }
        }
    }
}

/// A ban is durable: a coordinator rebuilt from the store's active
/// rows, after the ban set the row inactive, does not hold the id.
pub proof fn lemma_ban_durable(
    s: StoreV,
    id: CredentialId,
    keys: Seq<Seq<char>>,
    rows: Seq<RecordV>,
)
    requires
        store_wf(s),
        rows.len() == spec_active(sv_set_status(s, id, false).rows).len(),
        forall|i: int|
            0 <= i < rows.len() ==> #[trigger] rows[i].id == spec_active(
                sv_set_status(s, id, false).rows,
            )[i].id,
    ensures
        !has_record(sv_startup(keys, rows), id),
{
    lemma_banned_not_listed(s, id);
    let m0 = crate::coordinator::mv_startup_empty(keys);
    assert(m0.records.len() == 0);
    lemma_load_records(m0, rows);
    if has_record(sv_startup(keys, rows), id) {
        assert(!has_record(m0, id));
        let i = choose|i: int| 0 <= i < rows.len() && #[trigger] rows[i].id == id;
        assert(spec_active(sv_set_status(s, id, false).rows)[i].id != id);
    }
}

/// After a successful maintenance refresh installs the new
/// credential, a credential standing at the head of a queue with no
/// cooldown there is assigned, and the assignment carries the newly
/// minted access token.
pub proof fn lemma_refresh_then_assigned(
    m: ManagerV,
    id: CredentialId,
    c: CredV,
    key: Seq<char>,
    t: int,
)
    requires
        wf(m),
        cred_usable(c, t),
        has_queue(mv_add_credential(m, id, c), key),
        queue_of(mv_add_credential(m, id, c), key).len() > 0,
        queue_of(mv_add_credential(m, id, c), key)[0] == id,
        !has_cooldown(mv_add_credential(m, id, c), id, key),
    ensures
        spec_assigned_id(mv_add_credential(m, id, c), key, t) == Some(id),
        record_of(mv_add_credential(m, id, c), id).access_token == c.access_token,
{
    let m2 = mv_add_credential(m, id, c);
    crate::manager::lemma_upsert_record_wf(m.records, id, c);
    assert(has_record(m2, id));
    let ri = crate::manager::rec_index(m2.records, id);
    assert(m2.records[ri].id == id);
    assert(m2.records[ri] == RecordV { id, cred: c });
    assert(record_of(m2, id) == c);
    let ids = queue_of(m2, key);
    assert(!cooldown_active(m2, id, key, t));
    assert(scan(m2, key, t, ids).assigned == Some(id));
}

} // verus!
