//! The single-writer coordinator: it owns the credential manager and
//! serialises every queue and state mutation. Each inbound message
//! becomes one `step`, which mutates the manager and hands back the
//! effects an I/O layer must perform: replies, refresh jobs, and
//! store writes.

use vstd::prelude::*;

use crate::CredentialId;
use crate::credentials::{AssignedCredential, GoogleCredential};
use crate::errors::NexusError;
use crate::manager::{
    cooldown_active, cred_usable, has_queue, has_record, mv_add_credential, mv_delete,
    mv_get_assigned, mv_mark_refreshing, mv_report_rate_limit, queue_of, record_of, scan, wf,
    clamp_secs, sat_add64, Assignment, CredentialManager, CredentialRecord, ManagerV, RecordV,
};

verus! {

/// Messages the coordinator processes, one at a time, FIFO.
pub enum CoordinatorEvent {
    /// A handler asks for one available credential for a model.
    GetCredential { model: String },
    /// A handler reports upstream rate limiting; cooldown follows.
    ReportRateLimit { id: CredentialId, model: String, cooldown_secs: u64 },
    /// A handler reports invalid or expired access (401/403).
    ReportInvalid { id: CredentialId },
    /// A handler reports a credential as banned; removed durably.
    ReportBanned { id: CredentialId },
    /// A batch of fresh credentials enters the pool.
    SubmitCredentials { credentials: Vec<GoogleCredential> },
    /// The refresh pipeline finished a job for `id`.
    RefreshComplete { id: CredentialId, result: Result<GoogleCredential, NexusError> },
    /// A submitted credential was refreshed and persisted under `id`.
    ActivateCredential { id: CredentialId, credential: GoogleCredential },
}

/// What the I/O layer must perform after a step.
pub enum CoordinatorEffect {
    /// Answer the pending acquisition call.
    Reply(Option<AssignedCredential>),
    /// Submit a token-maintenance job to the refresh pipeline.
    EnqueueRefresh { id: CredentialId, cred: GoogleCredential },
    /// Submit an onboarding job to the refresh pipeline.
    EnqueueOnboard { cred: GoogleCredential },
    /// Persist the credential as inactive.
    StoreSetInactive { id: CredentialId },
    /// Persist the refreshed credential as active.
    StoreUpdate { id: CredentialId, cred: GoogleCredential },
}

/// `ReportInvalid`: a no-op while a refresh is already in flight or
/// the id is unknown; otherwise the id moves into the refreshing set.
/// The second component says whether a job is submitted.
pub open spec fn sv_report_invalid(m: ManagerV, id: CredentialId) -> (ManagerV, bool) {
    if m.refreshing.contains(id) || !has_record(m, id) {
        (m, false)
    } else {
        (mv_mark_refreshing(m, id), true)
    }
}

/// The state after issuing an invalid-report for each id in order.
pub open spec fn sv_invalids(m: ManagerV, ids: Seq<CredentialId>) -> ManagerV
    decreases ids.len(),
{
    if ids.len() == 0 {
        m
    } else {
        sv_invalids(sv_report_invalid(m, ids[0]).0, ids.drop_first())
    }
}

/// The ids for which those reports actually submit a job.
pub open spec fn sv_invalid_jobs(m: ManagerV, ids: Seq<CredentialId>) -> Seq<CredentialId>
    decreases ids.len(),
{
    if ids.len() == 0 {
        Seq::empty()
    } else {
        let step = sv_report_invalid(m, ids[0]);
        let rest = sv_invalid_jobs(step.0, ids.drop_first());
        if step.1 {
            seq![ids[0]] + rest
        } else {
            rest
        }
    }
}

/// The refresh ids one acquisition dequeues.
pub open spec fn spec_refresh_ids(m: ManagerV, key: Seq<char>, t: int) -> Seq<CredentialId> {
    if has_queue(m, key) {
        scan(m, key, t, queue_of(m, key)).refresh
    } else {
        Seq::empty()
    }
}

/// The id one acquisition assigns, if any.
pub open spec fn spec_assigned_id(m: ManagerV, key: Seq<char>, t: int) -> Option<CredentialId> {
    if has_queue(m, key) {
        scan(m, key, t, queue_of(m, key)).assigned
    } else {
        None
    }
}

/// The coordinator's state: the manager it owns. The credential
/// store and the pipeline stay behind effects.
pub struct Coordinator {
    pub manager: CredentialManager,
}

impl Coordinator {
    /// Rebuild the coordinator at startup: one empty queue per model
    /// key, then every active stored row installed into all queues.
    pub fn startup(model_keys: &Vec<String>, rows: Vec<CredentialRecord>) -> (c: Coordinator)
        requires
            forall|i: int, j: int|
                0 <= i < j < model_keys@.len() ==> #[trigger] model_keys@[i]@
                    != #[trigger] model_keys@[j]@,
        ensures
            wf(c.manager@),
            c.manager@ == sv_startup(
                model_keys@.map_values(|k: String| k@),
                rows@.map_values(|r: CredentialRecord| r@),
            ),
    {
        let ghost keyvs = model_keys@.map_values(|k: String| k@);
        let ghost rowvs = rows@.map_values(|r: CredentialRecord| r@);
        let mut manager = CredentialManager::new(model_keys);
        proof {
            assert(manager@ =~= mv_startup_empty(keyvs)) by {
                assert(manager@.queues.len() == keyvs.len());
                assert forall|i: int| 0 <= i < keyvs.len() implies manager@.queues[i]
                    == mv_startup_empty(keyvs).queues[i] by {
                    assert(manager@.queues[i].key == model_keys@[i]@);
                    assert(manager@.queues[i].ids =~= Seq::<CredentialId>::empty());
                }
            }
            assert(rowvs.skip(0) =~= rowvs);
        }
        let mut i: usize = 0;
        while i < rows.len()
            invariant
                wf(manager@),
                i <= rows@.len(),
                rowvs == rows@.map_values(|r: CredentialRecord| r@),
                sv_load(manager@, rowvs.skip(i as int)) == sv_load(
                    mv_startup_empty(keyvs),
                    rowvs,
                ),
            decreases rows@.len() - i,
        {
            proof {
                assert(rowvs.skip(i as int)[0] == rowvs[i as int]);
                assert(rowvs.skip(i as int).drop_first() =~= rowvs.skip(i as int + 1));
            }
            let row = rows[i].clone();
            manager.add_credential(row.id, row.cred);
            i += 1;
        }
        proof {
            assert(rowvs.skip(rows@.len() as int) =~= Seq::<RecordV>::empty());
        }
        Coordinator { manager }
    }

    /// `ReportInvalid` for one id: mark refreshing and hand back the
    /// maintenance job, unless already refreshing or unknown.
    fn do_report_invalid(&mut self, id: CredentialId) -> (r: Option<CoordinatorEffect>)
        requires
            wf(old(self).manager@),
        ensures
            wf(final(self).manager@),
            final(self).manager@ == sv_report_invalid(old(self).manager@, id).0,
            match r {
                Some(e) => sv_report_invalid(old(self).manager@, id).1 && (e matches
                    CoordinatorEffect::EnqueueRefresh { id: i2, cred } && i2 == id && cred@
                    == record_of(old(self).manager@, id)),
                None => !sv_report_invalid(old(self).manager@, id).1,
            },
    {
        if self.manager.is_refreshing(id) {
            return None;
        }
        match self.manager.get_full_credential_copy(id) {
            None => None,
            Some(current) => {
                self.manager.mark_refreshing(id);
                Some(CoordinatorEffect::EnqueueRefresh { id, cred: current })
            },
        }
    }

    /// Process one message and return the effects to perform, in
    /// order. All mutation of the manager happens here.
    pub fn step(&mut self, event: CoordinatorEvent, now: i64) -> (effects: Vec<CoordinatorEffect>)
        requires
            wf(old(self).manager@),
        ensures
            wf(final(self).manager@),
            match event {
                CoordinatorEvent::GetCredential { model } => {
                    let m0 = old(self).manager@;
                    let t = now as int;
                    let mg = mv_get_assigned(m0, model@, t);
                    let refresh = spec_refresh_ids(m0, model@, t);
                    let jobs = sv_invalid_jobs(mg, refresh);
                    &&& final(self).manager@ == sv_invalids(mg, refresh)
                    &&& effects@.len() == jobs.len() + 1
                    &&& forall|k: int|
                        0 <= k < jobs.len() ==> (#[trigger] effects@[k] matches
                            CoordinatorEffect::EnqueueRefresh { id, cred } && id == jobs[k]
                            && cred@ == record_of(mg, jobs[k]))
                    &&& (effects@.last() matches CoordinatorEffect::Reply(a) && match a {
                        Some(a) => {
                            &&& spec_assigned_id(m0, model@, t) == Some(a.id)
                            &&& has_record(m0, a.id)
                            &&& record_of(m0, a.id).access_token == Some(a@.access_token)
                            &&& a@.project_id == record_of(m0, a.id).project_id
                            &&& a@.target_model == model@
                            &&& cred_usable(record_of(m0, a.id), t)
                            &&& !cooldown_active(m0, a.id, model@, t)
                        },
                        None => spec_assigned_id(m0, model@, t) is None,
                    })
                },
                CoordinatorEvent::ReportRateLimit { id, model, cooldown_secs } => {
                    &&& final(self).manager@ == if has_record(old(self).manager@, id) {
                        mv_report_rate_limit(
                            old(self).manager@,
                            id,
                            model@,
                            sat_add64(now as int, clamp_secs(cooldown_secs as int)),
                        )
                    } else {
                        old(self).manager@
                    }
                    &&& effects@ == Seq::<CoordinatorEffect>::empty()
                },
                CoordinatorEvent::ReportInvalid { id } => {
                    let step = sv_report_invalid(old(self).manager@, id);
                    &&& final(self).manager@ == step.0
                    &&& step.1 ==> effects@.len() == 1 && (effects@[0] matches
                        CoordinatorEffect::EnqueueRefresh { id: i2, cred } && i2 == id && cred@
                        == record_of(old(self).manager@, id))
                    &&& !step.1 ==> effects@ == Seq::<CoordinatorEffect>::empty()
                },
                CoordinatorEvent::ReportBanned { id } => {
                    &&& final(self).manager@ == mv_delete(old(self).manager@, id)
                    &&& effects@ == seq![CoordinatorEffect::StoreSetInactive { id }]
                },
                CoordinatorEvent::SubmitCredentials { credentials } => {
                    &&& final(self).manager@ == old(self).manager@
                    &&& effects@.len() == credentials@.len()
                    &&& forall|k: int|
                        0 <= k < credentials@.len() ==> (#[trigger] effects@[k] matches
                            CoordinatorEffect::EnqueueOnboard { cred } && cred == credentials@[k])
                },
                CoordinatorEvent::RefreshComplete { id, result } => {
                    let m0 = old(self).manager@;
                    if !m0.refreshing.contains(id) {
                        final(self).manager@ == m0 && effects@
                            == Seq::<CoordinatorEffect>::empty()
                    } else {
                        match result {
                            Ok(updated) => {
                                &&& final(self).manager@ == mv_add_credential(m0, id, updated@)
                                &&& effects@.len() == 1
                                &&& (effects@[0] matches CoordinatorEffect::StoreUpdate {
                                    id: i2,
                                    cred,
                                } && i2 == id && cred@ == updated@)
                            },
                            Err(e) => {
                                if e matches NexusError::Oauth2Server { .. } {
                                    &&& final(self).manager@ == mv_delete(m0, id)
                                    &&& effects@ == seq![
                                        CoordinatorEffect::StoreSetInactive { id },
                                    ]
                                } else {
                                    &&& final(self).manager@ == if has_record(m0, id) {
                                        mv_add_credential(m0, id, record_of(m0, id))
                                    } else {
                                        m0
                                    }
                                    &&& effects@ == Seq::<CoordinatorEffect>::empty()
                                }
                            },
                        }
                    }
                },
                CoordinatorEvent::ActivateCredential { id, credential } => {
                    &&& final(self).manager@ == mv_add_credential(
                        old(self).manager@,
                        id,
                        credential@,
                    )
                    &&& effects@ == Seq::<CoordinatorEffect>::empty()
                },
            },
    {
        let mut effects: Vec<CoordinatorEffect> = Vec::new();
        match event {
            CoordinatorEvent::GetCredential { model } => {
                let ghost m0 = self.manager@;
                let assignment = self.manager.get_assigned(&model, now);
                let Assignment { assigned, refresh_ids } = assignment;
                let ghost mg = self.manager@;
                let ghost rseq = refresh_ids@;
                let ghost jobs = sv_invalid_jobs(mg, rseq);
                proof {
                    assert(rseq.skip(0) =~= rseq);
                    if !has_queue(m0, model@) {
                        assert(rseq =~= Seq::<CredentialId>::empty());
                    }
                }
                let mut k: usize = 0;
                while k < refresh_ids.len()
                    invariant
                        wf(self.manager@),
                        rseq == refresh_ids@,
                        k <= rseq.len(),
                        self.manager@.records == mg.records,
                        sv_invalids(mg, rseq) == sv_invalids(
                            self.manager@,
                            rseq.skip(k as int),
                        ),
                        jobs == sv_invalid_jobs(mg, rseq),
                        jobs =~= effect_job_ids(effects@) + sv_invalid_jobs(
                            self.manager@,
                            rseq.skip(k as int),
                        ),
                        effects@.len() == effect_job_ids(effects@).len(),
                        forall|j: int|
                            0 <= j < effects@.len() ==> (#[trigger] effects@[j] matches
                                CoordinatorEffect::EnqueueRefresh { id, cred } && id
                                == effect_job_ids(effects@)[j] && cred@ == record_of(mg, id)),
                    decreases rseq.len() - k,
                {
                    let id = refresh_ids[k];
                    let ghost m_pre = self.manager@;
                    let ghost effects_pre = effects@;
                    proof {
                        assert(rseq.skip(k as int)[0] == id);
                        assert(rseq.skip(k as int).drop_first() =~= rseq.skip(k as int + 1));
                    }
                    match self.do_report_invalid(id) {
                        Some(e) => {
                            let ghost ev = e;
                            effects.push(e);
                            proof {
                                assert(effects@.drop_last() =~= effects_pre);
                                assert(effects@.last() == ev);
                                assert(effect_job_ids(effects@) =~= effect_job_ids(
                                    effects_pre,
                                ).push(id));
                                assert(record_of(m_pre, id) == record_of(mg, id));
                                assert(jobs =~= effect_job_ids(effects@) + sv_invalid_jobs(
                                    self.manager@,
                                    rseq.skip(k as int + 1),
                                ));
                            }
                        },
                        None => {},
                    }
                    k += 1;
                }
                proof {
                    assert(rseq.skip(rseq.len() as int) =~= Seq::<CredentialId>::empty());
                    assert(jobs =~= effect_job_ids(effects@));
                }
                effects.push(CoordinatorEffect::Reply(assigned));
                proof {
                    assert forall|j: int| 0 <= j < jobs.len() implies (#[trigger] effects@[j]
                        matches CoordinatorEffect::EnqueueRefresh { id, cred } && id == jobs[j]
                        && cred@ == record_of(mg, jobs[j])) by {
                        assert(effects@[j] == effects@.drop_last()[j]);
                    }
                }
            },
            CoordinatorEvent::ReportRateLimit { id, model, cooldown_secs } => {
                if self.manager.contains(id) {
                    self.manager.report_rate_limit(id, &model, cooldown_secs, now);
                }
            },
            CoordinatorEvent::ReportInvalid { id } => {
                match self.do_report_invalid(id) {
                    Some(e) => {
                        effects.push(e);
                    },
                    None => {},
                }
            },
            CoordinatorEvent::ReportBanned { id } => {
                self.manager.delete_credential(id);
                effects.push(CoordinatorEffect::StoreSetInactive { id });
                proof {
                    assert(effects@ =~= seq![CoordinatorEffect::StoreSetInactive { id }]);
                }
            },
            CoordinatorEvent::SubmitCredentials { credentials } => {
                let ghost cvs = credentials@;
                let mut k: usize = 0;
                let mut creds = credentials;
                while k < creds.len()
                    invariant
                        wf(self.manager@),
                        self.manager@ == old(self).manager@,
                        creds@ == cvs,
                        k <= cvs.len(),
                        effects@.len() == k as int,
                        forall|j: int|
                            0 <= j < k as int ==> (#[trigger] effects@[j] matches
                                CoordinatorEffect::EnqueueOnboard { cred } && cred == cvs[j]),
                    decreases cvs.len() - k,
                {
                    let c = creds[k].clone();
                    effects.push(CoordinatorEffect::EnqueueOnboard { cred: c });
                    k += 1;
                }
            },
            CoordinatorEvent::RefreshComplete { id, result } => {
                if self.manager.is_refreshing(id) {
                    match result {
                        Ok(updated) => {
                            let stored = updated.clone();
                            self.manager.add_credential(id, updated);
                            effects.push(CoordinatorEffect::StoreUpdate { id, cred: stored });
                        },
                        Err(e) => {
                            let authoritative = match &e {
                                NexusError::Oauth2Server { .. } => true,
                                _ => false,
                            };
                            if authoritative {
                                self.manager.delete_credential(id);
                                effects.push(CoordinatorEffect::StoreSetInactive { id });
                                proof {
                                    assert(effects@ =~= seq![
                                        CoordinatorEffect::StoreSetInactive { id },
                                    ]);
                                }
                            } else {
                                match self.manager.get_full_credential_copy(id) {
                                    Some(existing) => {
                                        self.manager.add_credential(id, existing);
                                    },
                                    None => {},
                                }
                            }
                        },
                    }
                }
            },
            CoordinatorEvent::ActivateCredential { id, credential } => {
                self.manager.add_credential(id, credential);
            },
        }
        effects
    }
}

/// The manager before any stored row is installed: one empty queue
/// per model key.
pub open spec fn mv_startup_empty(keys: Seq<Seq<char>>) -> ManagerV {
    ManagerV {
        records: Seq::empty(),
        queues: keys.map_values(
            |k: Seq<char>| crate::manager::QueueV { key: k, ids: Seq::empty() },
        ),
        cooldowns: Seq::empty(),
        refreshing: Seq::empty(),
    }
}

/// Install stored rows one after another.
pub open spec fn sv_load(m: ManagerV, rows: Seq<RecordV>) -> ManagerV
    decreases rows.len(),
{
    if rows.len() == 0 {
        m
    } else {
        sv_load(mv_add_credential(m, rows[0].id, rows[0].cred), rows.drop_first())
    }
}

/// The startup state: the empty queues, then every row installed.
pub open spec fn sv_startup(keys: Seq<Seq<char>>, rows: Seq<RecordV>) -> ManagerV {
    sv_load(mv_startup_empty(keys), rows)
}

/// The ids of the refresh jobs in an effect sequence.
pub open spec fn effect_job_ids(es: Seq<CoordinatorEffect>) -> Seq<CredentialId>
    decreases es.len(),
{
    if es.len() == 0 {
        Seq::empty()
    } else {
        let rest = effect_job_ids(es.drop_last());
        match es.last() {
            CoordinatorEffect::EnqueueRefresh { id, .. } => rest.push(id),
            _ => rest,
        }
    }
}

} // verus!
