//! The credential store: durable upsert/lookup of credentials keyed
//! by project id, with a stable integer id assigned on first insert
//! and a status flag. This module holds the store's semantics — what
//! each operation does to the table — verified over an in-memory
//! image; an I/O layer executes the same operations against the
//! database engine.

use vstd::prelude::*;

use crate::CredentialId;
use crate::credentials::{CredV, GoogleCredential};
use crate::errors::NexusError;
use crate::manager::CredentialRecord;

verus! {

/// Mathematical image of one stored row.
#[verifier::ext_equal]
pub struct DbCredV {
    pub id: CredentialId,
    pub email: Option<Seq<char>>,
    pub project_id: Seq<char>,
    pub refresh_token: Seq<char>,
    pub access_token: Option<Seq<char>>,
    pub expiry: int,
    pub status: bool,
}

/// One row of the credentials table.
pub struct DbCredential {
    pub id: CredentialId,
    pub email: Option<String>,
    pub project_id: String,
    pub refresh_token: String,
    pub access_token: Option<String>,
    pub expiry: i64,
    pub status: bool,
}

impl View for DbCredential {
    type V = DbCredV;

    open spec fn view(&self) -> DbCredV {
        DbCredV {
            id: self.id,
            email: match self.email {
                Some(e) => Some(e@),
                None => None,
            },
            project_id: self.project_id@,
            refresh_token: self.refresh_token@,
            access_token: match self.access_token {
                Some(t) => Some(t@),
                None => None,
            },
            expiry: self.expiry as int,
            status: self.status,
        }
    }
}

impl Clone for DbCredential {
    fn clone(&self) -> (res: Self)
        ensures
            res == *self,
    {
        DbCredential {
            id: self.id,
            email: match &self.email {
                Some(e) => Some(e.clone()),
                None => None,
            },
            project_id: self.project_id.clone(),
            refresh_token: self.refresh_token.clone(),
            access_token: match &self.access_token {
                Some(t) => Some(t.clone()),
                None => None,
            },
            expiry: self.expiry,
            status: self.status,
        }
    }
}

/// The row image a credential takes under a given id and status.
pub open spec fn row_for(id: CredentialId, c: CredV, status: bool) -> DbCredV {
    DbCredV {
        id,
        email: c.email,
        project_id: c.project_id,
        refresh_token: c.refresh_token,
        access_token: c.access_token,
        expiry: c.expiry,
        status,
    }
}

impl DbCredential {
    /// A row for a fresh credential: id not yet assigned, active.
    pub fn from_google(g: &GoogleCredential) -> (r: DbCredential)
        ensures
            r@ == row_for(0, g@, true),
    {
        DbCredential {
            id: 0,
            email: match &g.email {
                Some(e) => Some(e.clone()),
                None => None,
            },
            project_id: g.project_id.clone(),
            refresh_token: g.refresh_token.clone(),
            access_token: match &g.access_token {
                Some(t) => Some(t.clone()),
                None => None,
            },
            expiry: g.expiry,
            status: true,
        }
    }

    /// Decode one fetched row into a `DbCredential`: the expiry
    /// column holds an RFC 3339 instant, the status column a 0/1
    /// integer. An unparseable expiry is a `DatabaseError`, as any
    /// undecodable column is.
    pub fn row_from_columns(
        id: CredentialId,
        email: Option<String>,
        project_id: String,
        refresh_token: String,
        access_token: Option<String>,
        expiry_text: &str,
        status: i64,
    ) -> (r: Result<DbCredential, NexusError>)
        ensures
            match r {
                Ok(row) => {
                    &&& crate::errors::rfc3339_secs_of(expiry_text@) == Some(row.expiry)
                    &&& row.id == id
                    &&& row.email == email
                    &&& row.project_id == project_id
                    &&& row.refresh_token == refresh_token
                    &&& row.access_token == access_token
                    &&& row.status == (status != 0)
                },
                Err(e) => crate::errors::rfc3339_secs_of(expiry_text@) is None && (e matches
                    NexusError::DatabaseError),
            },
    {
        match crate::errors::parse_rfc3339_secs(expiry_text) {
            Some(expiry) => Ok(
                DbCredential {
                    id,
                    email,
                    project_id,
                    refresh_token,
                    access_token,
                    expiry,
                    status: status != 0,
                },
            ),
            None => Err(NexusError::DatabaseError),
        }
    }

    /// The in-memory credential this row carries.
    pub fn to_google(&self) -> (r: GoogleCredential)
        ensures
            r@ == (CredV {
                email: self@.email,
                project_id: self@.project_id,
                refresh_token: self@.refresh_token,
                access_token: self@.access_token,
                expiry: self@.expiry,
            }),
    {
        GoogleCredential {
            email: match &self.email {
                Some(e) => Some(e.clone()),
                None => None,
            },
            project_id: self.project_id.clone(),
            refresh_token: self.refresh_token.clone(),
            access_token: match &self.access_token {
                Some(t) => Some(t.clone()),
                None => None,
            },
            expiry: self.expiry,
        }
    }
}

/// Mathematical image of the whole table.
#[verifier::ext_equal]
pub struct StoreV {
    pub rows: Seq<DbCredV>,
    pub next_id: CredentialId,
}

/// The credential store state. `next_id` plays the engine's
/// auto-increment counter.
pub struct CredentialsStorage {
    pub rows: Vec<DbCredential>,
    pub next_id: CredentialId,
}

impl View for CredentialsStorage {
    type V = StoreV;

    open spec fn view(&self) -> StoreV {
        StoreV { rows: self.rows@.map_values(|r: DbCredential| r@), next_id: self.next_id }
    }
}

// ---------------------------------------------------------------------------
// Spec-level lookups and transitions
// ---------------------------------------------------------------------------

pub open spec fn has_row_id(rows: Seq<DbCredV>, id: CredentialId) -> bool {
    exists|i: int| 0 <= i < rows.len() && #[trigger] rows[i].id == id
}

pub open spec fn row_id_index(rows: Seq<DbCredV>, id: CredentialId) -> int {
    choose|i: int| 0 <= i < rows.len() && #[trigger] rows[i].id == id
}

/// The row stored under `id` (meaningful only under `has_row_id`).
pub open spec fn row_of(rows: Seq<DbCredV>, id: CredentialId) -> DbCredV {
    rows[row_id_index(rows, id)]
}

pub open spec fn has_row_pid(rows: Seq<DbCredV>, pid: Seq<char>) -> bool {
    exists|i: int| 0 <= i < rows.len() && #[trigger] rows[i].project_id == pid
}

pub open spec fn row_pid_index(rows: Seq<DbCredV>, pid: Seq<char>) -> int {
    choose|i: int| 0 <= i < rows.len() && #[trigger] rows[i].project_id == pid
}

/// Table invariants: ids strictly increasing (hence unique and
/// listed in ascending order), positive, below the counter; project
/// ids unique.
pub open spec fn store_wf(s: StoreV) -> bool {
    &&& forall|i: int, j: int|
        0 <= i < j < s.rows.len() ==> #[trigger] s.rows[i].id < #[trigger] s.rows[j].id
    &&& forall|i: int| 0 <= i < s.rows.len() ==> 0 < #[trigger] s.rows[i].id < s.next_id
    &&& forall|i: int, j: int|
        0 <= i < j < s.rows.len() ==> #[trigger] s.rows[i].project_id
            != #[trigger] s.rows[j].project_id
    &&& s.next_id >= 1
}

/// `upsert`: insert-or-replace by project id; the id is the existing
/// row's, or the counter's next value.
pub open spec fn sv_upsert(s: StoreV, c: CredV, status: bool) -> (StoreV, CredentialId) {
    if has_row_pid(s.rows, c.project_id) {
        let i = row_pid_index(s.rows, c.project_id);
        let id = s.rows[i].id;
        (StoreV { rows: s.rows.update(i, row_for(id, c, status)), next_id: s.next_id }, id)
    } else {
        (
            StoreV {
                rows: s.rows.push(row_for(s.next_id, c, status)),
                next_id: (s.next_id + 1) as i64,
            },
            s.next_id,
        )
    }
}

/// `set_status`: update only the status column; absent ids change
/// nothing.
pub open spec fn sv_set_status(s: StoreV, id: CredentialId, status: bool) -> StoreV {
    if has_row_id(s.rows, id) {
        let i = row_id_index(s.rows, id);
        let r = s.rows[i];
        StoreV {
            rows: s.rows.update(
                i,
                DbCredV {
                    id: r.id,
                    email: r.email,
                    project_id: r.project_id,
                    refresh_token: r.refresh_token,
                    access_token: r.access_token,
                    expiry: r.expiry,
                    status,
                },
            ),
            next_id: s.next_id,
        }
    } else {
        s
    }
}

/// `update_by_id`: overwrite all mutable columns; refused when the
/// new project id would collide with another row.
pub open spec fn sv_update_by_id(s: StoreV, id: CredentialId, c: CredV, status: bool) -> (
    StoreV,
    bool,
) {
    if !has_row_id(s.rows, id) {
        (s, true)
    } else {
        let i = row_id_index(s.rows, id);
        if exists|j: int|
            0 <= j < s.rows.len() && j != i && #[trigger] s.rows[j].project_id == c.project_id {
            (s, false)
        } else {
            (StoreV { rows: s.rows.update(i, row_for(id, c, status)), next_id: s.next_id }, true)
        }
    }
}

/// The predicate keeping active rows.
pub open spec fn row_active() -> spec_fn(DbCredV) -> bool {
    |r: DbCredV| r.status
}

/// What `list_active` returns: the active rows, in id order.
pub open spec fn spec_active(rows: Seq<DbCredV>) -> Seq<DbCredV> {
    rows.filter(row_active())
}

// ---------------------------------------------------------------------------
// Executable operations
// ---------------------------------------------------------------------------

impl CredentialsStorage {
    /// An empty table; the counter starts at one.
    pub fn new() -> (r: Self)
        ensures
            store_wf(r@),
            r@.rows =~= Seq::<DbCredV>::empty(),
            r@.next_id == 1,
    {
        CredentialsStorage { rows: Vec::new(), next_id: 1 }
    }

    fn find_by_id(&self, id: CredentialId) -> (r: Option<usize>)
        ensures
            match r {
                Some(i) => i < self@.rows.len() && self@.rows[i as int].id == id,
                None => !has_row_id(self@.rows, id),
            },
    {
        let mut i: usize = 0;
        while i < self.rows.len()
            invariant
                i <= self@.rows.len(),
                forall|j: int| 0 <= j < i as int ==> #[trigger] self@.rows[j].id != id,
            decreases self@.rows.len() - i,
        {
            if self.rows[i].id == id {
                return Some(i);
            }
            i += 1;
        }
        None
    }

    fn find_by_pid(&self, pid: &String) -> (r: Option<usize>)
        ensures
            match r {
                Some(i) => i < self@.rows.len() && self@.rows[i as int].project_id == pid@,
                None => !has_row_pid(self@.rows, pid@),
            },
    {
        let mut i: usize = 0;
        while i < self.rows.len()
            invariant
                i <= self@.rows.len(),
                forall|j: int| 0 <= j < i as int ==> #[trigger] self@.rows[j].project_id != pid@,
            decreases self@.rows.len() - i,
        {
            if self.rows[i].project_id == *pid {
                return Some(i);
            }
            i += 1;
        }
        None
    }

    /// Insert-or-replace by unique project id; returns the row id.
    pub fn upsert(&mut self, cred: &GoogleCredential, status: bool) -> (r: CredentialId)
        requires
            store_wf(old(self)@),
            old(self)@.next_id < i64::MAX,
        ensures
            store_wf(final(self)@),
            (final(self)@, r) == sv_upsert(old(self)@, cred@, status),
    {
        let ghost s1 = self@;
        match self.find_by_pid(&cred.project_id) {
            Some(i) => {
                let id = self.rows[i].id;
                self.rows[i] = DbCredential {
                    id,
                    email: match &cred.email {
                        Some(e) => Some(e.clone()),
                        None => None,
                    },
                    project_id: cred.project_id.clone(),
                    refresh_token: cred.refresh_token.clone(),
                    access_token: match &cred.access_token {
                        Some(t) => Some(t.clone()),
                        None => None,
                    },
                    expiry: cred.expiry,
                    status,
                };
                proof {
                    let pi = row_pid_index(s1.rows, cred.project_id@);
                    assert(s1.rows[i as int].project_id == cred.project_id@);
                    if (i as int) < pi {
                        assert(s1.rows[i as int].project_id != s1.rows[pi].project_id);
                    } else if pi < i as int {
                        assert(s1.rows[pi].project_id != s1.rows[i as int].project_id);
                    }
                    assert(i as int == pi);
                    assert(self@.rows =~= s1.rows.update(
                        pi,
                        row_for(s1.rows[pi].id, cred@, status),
                    ));
                    assert(self@ =~= sv_upsert(s1, cred@, status).0);
                }
                id
            },
            None => {
                let id = self.next_id;
                self.rows.push(DbCredential {
                    id,
                    email: match &cred.email {
                        Some(e) => Some(e.clone()),
                        None => None,
                    },
                    project_id: cred.project_id.clone(),
                    refresh_token: cred.refresh_token.clone(),
                    access_token: match &cred.access_token {
                        Some(t) => Some(t.clone()),
                        None => None,
                    },
                    expiry: cred.expiry,
                    status,
                });
                self.next_id = self.next_id + 1;
                proof {
                    assert(self@.rows =~= s1.rows.push(row_for(s1.next_id, cred@, status)));
                    assert(self@ =~= sv_upsert(s1, cred@, status).0);
                }
                id
            },
        }
    }

    /// Batch upsert; returns the ids in input order, all-or-nothing.
    pub fn upsert_many(&mut self, items: &Vec<(GoogleCredential, bool)>) -> (r: Vec<CredentialId>)
        requires
            store_wf(old(self)@),
            old(self)@.next_id + items@.len() < i64::MAX,
        ensures
            store_wf(final(self)@),
            r@.len() == items@.len(),
            (final(self)@, r@) == sv_upsert_many(old(self)@, items@.map_values(
                |it: (GoogleCredential, bool)| (it.0@, it.1),
            )),
    {
        let ghost s1 = self@;
        let ghost itv = items@.map_values(|it: (GoogleCredential, bool)| (it.0@, it.1));
        proof {
            assert(itv.skip(0) =~= itv);
        }
        let mut ids: Vec<CredentialId> = Vec::new();
        let mut i: usize = 0;
        while i < items.len()
            invariant
                store_wf(self@),
                itv == items@.map_values(|it: (GoogleCredential, bool)| (it.0@, it.1)),
                i <= itv.len(),
                ids@.len() == i as int,
                self@.next_id + (itv.len() - i) < i64::MAX,
                sv_upsert_many(s1, itv) == ({
                    let rest = sv_upsert_many(self@, itv.skip(i as int));
                    (rest.0, ids@ + rest.1)
                }),
            decreases itv.len() - i,
        {
            proof {
                assert(itv.skip(i as int)[0] == itv[i as int]);
                assert(itv.skip(i as int).drop_first() =~= itv.skip(i as int + 1));
            }
            let ghost ids_pre = ids@;
            let id = self.upsert(&items[i].0, items[i].1);
            ids.push(id);
            proof {
                let rest = sv_upsert_many(self@, itv.skip(i as int + 1));
                assert(ids_pre + (seq![id] + rest.1) =~= ids@ + rest.1);
            }
            i += 1;
        }
        proof {
            assert(itv.skip(itv.len() as int) =~= Seq::<(CredV, bool)>::empty());
            assert(ids@ + Seq::<CredentialId>::empty() =~= ids@);
        }
        ids
    }

    /// Exact fetch by id; `DatabaseError` when absent.
    pub fn get_by_id(&self, id: CredentialId) -> (r: Result<DbCredential, NexusError>)
        requires
            store_wf(self@),
        ensures
            match r {
                Ok(row) => has_row_id(self@.rows, id) && row@ == row_of(self@.rows, id),
                Err(e) => !has_row_id(self@.rows, id) && (e matches NexusError::DatabaseError),
            },
    {
        match self.find_by_id(id) {
            Some(i) => {
                proof {
                    let ri = row_id_index(self@.rows, id);
                    assert(self@.rows[i as int].id == id);
                    if (i as int) < ri {
                        assert(self@.rows[i as int].id < self@.rows[ri].id);
                    } else if ri < i as int {
                        assert(self@.rows[ri].id < self@.rows[i as int].id);
                    }
                    assert(i as int == ri);
                }
                Ok(self.rows[i].clone())
            },
            None => Err(NexusError::DatabaseError),
        }
    }

    /// Exact fetch by project id; `DatabaseError` when absent.
    pub fn get_by_project_id(&self, pid: &String) -> (r: Result<DbCredential, NexusError>)
        requires
            store_wf(self@),
        ensures
            match r {
                Ok(row) => has_row_pid(self@.rows, pid@) && row@ == self@.rows[row_pid_index(
                    self@.rows,
                    pid@,
                )],
                Err(e) => !has_row_pid(self@.rows, pid@) && (e matches NexusError::DatabaseError),
            },
    {
        match self.find_by_pid(pid) {
            Some(i) => {
                proof {
                    let ri = row_pid_index(self@.rows, pid@);
                    assert(self@.rows[i as int].project_id == pid@);
                    if (i as int) < ri {
                        assert(self@.rows[i as int].project_id != self@.rows[ri].project_id);
                    } else if ri < i as int {
                        assert(self@.rows[ri].project_id != self@.rows[i as int].project_id);
                    }
                    assert(i as int == ri);
                }
                Ok(self.rows[i].clone())
            },
            None => Err(NexusError::DatabaseError),
        }
    }

    /// Every active row, in ascending id order.
    pub fn list_active(&self) -> (r: Vec<DbCredential>)
        ensures
            r@.map_values(|row: DbCredential| row@) == spec_active(self@.rows),
    {
        let ghost rows1 = self@.rows;
        let mut out: Vec<DbCredential> = Vec::new();
        let mut i: usize = 0;
        while i < self.rows.len()
            invariant
                i <= rows1.len(),
                rows1 == self@.rows,
                out@.map_values(|row: DbCredential| row@) == rows1.take(i as int).filter(
                    row_active(),
                ),
            decreases rows1.len() - i,
        {
            proof {
                crate::seqs::lemma_filter_take_step(rows1, row_active(), i as int);
            }
            if self.rows[i].status {
                out.push(self.rows[i].clone());
                proof {
                    assert(out@.map_values(|row: DbCredential| row@) =~= rows1.take(
                        i + 1,
                    ).filter(row_active()));
                }
            }
            i += 1;
        }
        proof {
            crate::seqs::lemma_filter_take_all(rows1, row_active());
        }
        out
    }

    /// The active rows as manager records, for coordinator startup.
    pub fn load_active_records(&self) -> (r: Vec<CredentialRecord>)
        ensures
            r@.len() == spec_active(self@.rows).len(),
            forall|i: int|
                0 <= i < r@.len() ==> {
                    let row = spec_active(self@.rows)[i];
                    #[trigger] r@[i]@ == (crate::manager::RecordV {
                        id: row.id,
                        cred: CredV {
                            email: row.email,
                            project_id: row.project_id,
                            refresh_token: row.refresh_token,
                            access_token: row.access_token,
                            expiry: row.expiry,
                        },
                    })
                },
    {
        let active = self.list_active();
        let mut out: Vec<CredentialRecord> = Vec::new();
        let mut i: usize = 0;
        while i < active.len()
            invariant
                i <= active@.len(),
                active@.map_values(|row: DbCredential| row@) == spec_active(self@.rows),
                out@.len() == i as int,
                forall|j: int|
                    0 <= j < i as int ==> {
                        let row = active@.map_values(|row2: DbCredential| row2@)[j];
                        #[trigger] out@[j]@ == (crate::manager::RecordV {
                            id: row.id,
                            cred: CredV {
                                email: row.email,
                                project_id: row.project_id,
                                refresh_token: row.refresh_token,
                                access_token: row.access_token,
                                expiry: row.expiry,
                            },
                        })
                    },
            decreases active@.len() - i,
        {
            let row = &active[i];
            out.push(CredentialRecord { id: row.id, cred: row.to_google() });
            i += 1;
        }
        out
    }

    /// Update only the status column; an absent id changes nothing.
    pub fn set_status(&mut self, id: CredentialId, status: bool)
        requires
            store_wf(old(self)@),
        ensures
            store_wf(final(self)@),
            final(self)@ == sv_set_status(old(self)@, id, status),
    {
        let ghost s1 = self@;
        match self.find_by_id(id) {
            Some(i) => {
                let row = self.rows[i].clone();
                self.rows[i] = DbCredential {
                    id: row.id,
                    email: row.email,
                    project_id: row.project_id,
                    refresh_token: row.refresh_token,
                    access_token: row.access_token,
                    expiry: row.expiry,
                    status,
                };
                proof {
                    let ri = row_id_index(s1.rows, id);
                    assert(s1.rows[i as int].id == id);
                    if (i as int) < ri {
                        assert(s1.rows[i as int].id < s1.rows[ri].id);
                    } else if ri < i as int {
                        assert(s1.rows[ri].id < s1.rows[i as int].id);
                    }
                    assert(i as int == ri);
                    assert(self@ =~= sv_set_status(s1, id, status));
                }
            },
            None => {},
        }
    }

    /// Overwrite all mutable columns of the row under `id`; refused
    /// with `DatabaseError` when the new project id collides with
    /// another row. An absent id changes nothing.
    pub fn update_by_id(&mut self, id: CredentialId, cred: &GoogleCredential, status: bool) -> (r:
        Result<(), NexusError>)
        requires
            store_wf(old(self)@),
        ensures
            store_wf(final(self)@),
            match r {
                Ok(_) => sv_update_by_id(old(self)@, id, cred@, status).1 && final(self)@
                    == sv_update_by_id(old(self)@, id, cred@, status).0,
                Err(e) => !sv_update_by_id(old(self)@, id, cred@, status).1 && final(self)@
                    == old(self)@ && (e matches NexusError::DatabaseError),
            },
    {
        let ghost s1 = self@;
        match self.find_by_id(id) {
            None => Ok(()),
            Some(i) => {
                proof {
                    let ri = row_id_index(s1.rows, id);
                    assert(s1.rows[i as int].id == id);
                    if (i as int) < ri {
                        assert(s1.rows[i as int].id < s1.rows[ri].id);
                    } else if ri < i as int {
                        assert(s1.rows[ri].id < s1.rows[i as int].id);
                    }
                    assert(i as int == ri);
                }
                let mut j: usize = 0;
                let n = self.rows.len();
                while j < n
                    invariant
                        self@ == s1,
                        store_wf(s1),
                        i < s1.rows.len(),
                        s1.rows[i as int].id == id,
                        has_row_id(s1.rows, id),
                        i as int == row_id_index(s1.rows, id),
                        n == s1.rows.len(),
                        j <= n,
                        forall|k: int|
                            0 <= k < j as int && k != i as int ==> #[trigger] s1.rows[k].project_id
                                != cred.project_id@,
                    decreases n - j,
                {
                    if j != i && self.rows[j].project_id == cred.project_id {
                        proof {
                            assert(s1.rows[j as int].project_id == cred@.project_id);
                            assert(exists|k: int|
                                0 <= k < s1.rows.len() && k != row_id_index(s1.rows, id)
                                    && #[trigger] s1.rows[k].project_id == cred@.project_id);
                            assert(!sv_update_by_id(s1, id, cred@, status).1);
                        }
                        return Err(NexusError::DatabaseError);
                    }
                    j += 1;
                }
                self.rows[i] = DbCredential {
                    id,
                    email: match &cred.email {
                        Some(e) => Some(e.clone()),
                        None => None,
                    },
                    project_id: cred.project_id.clone(),
                    refresh_token: cred.refresh_token.clone(),
                    access_token: match &cred.access_token {
                        Some(t) => Some(t.clone()),
                        None => None,
                    },
                    expiry: cred.expiry,
                    status,
                };
                proof {
                    assert(self@.rows =~= s1.rows.update(i as int, row_for(id, cred@, status)));
                    assert(self@ =~= sv_update_by_id(s1, id, cred@, status).0);
                }
                Ok(())
            },
        }
    }
}

/// Batch upsert, one after another.
pub open spec fn sv_upsert_many(s: StoreV, items: Seq<(CredV, bool)>) -> (
    StoreV,
    Seq<CredentialId>,
)
    decreases items.len(),
{
    if items.len() == 0 {
        (s, Seq::empty())
    } else {
        let step = sv_upsert(s, items[0].0, items[0].1);
        let rest = sv_upsert_many(step.0, items.drop_first());
        (rest.0, seq![step.1] + rest.1)
    }
}

} // verus!
