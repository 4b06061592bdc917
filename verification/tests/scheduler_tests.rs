use gcli_nexus::coordinator::{Coordinator, CoordinatorEffect, CoordinatorEvent};
use gcli_nexus::credentials::GoogleCredential;
use gcli_nexus::errors::NexusError;
use gcli_nexus::manager::CredentialManager;

fn cred(pid: &str, token: Option<&str>, expiry: i64) -> GoogleCredential {
    GoogleCredential {
        email: None,
        project_id: pid.to_string(),
        refresh_token: "refresh-token".to_string(),
        access_token: token.map(|t| t.to_string()),
        expiry,
    }
}

fn keys(names: &[&str]) -> Vec<String> {
    names.iter().map(|n| n.to_string()).collect()
}

const NOW: i64 = 1_000_000;
const FRESH: i64 = NOW + 3600;

#[test]
fn empty_pool_returns_none() {
    let mut m = CredentialManager::new(&keys(&["gemini-2.5-pro"]));
    let a = m.get_assigned(&"gemini-2.5-pro".to_string(), NOW);
    assert!(a.assigned.is_none());
    assert!(a.refresh_ids.is_empty());
}

#[test]
fn unknown_model_returns_none() {
    let mut m = CredentialManager::new(&keys(&["gemini-2.5-pro"]));
    m.add_credential(1, cred("p1", Some("tok1"), FRESH));
    let a = m.get_assigned(&"other-model".to_string(), NOW);
    assert!(a.assigned.is_none());
}

#[test]
fn round_robin_rotates_two_credentials() {
    let key = "gemini-2.5-pro".to_string();
    let mut m = CredentialManager::new(&keys(&["gemini-2.5-pro"]));
    m.add_credential(1, cred("pa", Some("tok-a"), FRESH));
    m.add_credential(2, cred("pb", Some("tok-b"), FRESH));
    let mut got = Vec::new();
    for _ in 0..4 {
        let a = m.get_assigned(&key, NOW);
        got.push(a.assigned.expect("assignment expected").id);
    }
    assert_eq!(got, vec![1, 2, 1, 2]);
}

#[test]
fn assignment_carries_snapshot_fields() {
    let key = "gemini-2.5-pro".to_string();
    let mut m = CredentialManager::new(&keys(&["gemini-2.5-pro"]));
    m.add_credential(7, cred("proj-7", Some("tok-7"), FRESH));
    let a = m.get_assigned(&key, NOW).assigned.unwrap();
    assert_eq!(a.id, 7);
    assert_eq!(a.project_id, "proj-7");
    assert_eq!(a.access_token, "tok-7");
    assert_eq!(a.target_model, "gemini-2.5-pro");
}

#[test]
fn rate_limit_isolates_one_model_queue() {
    let pro = "pro".to_string();
    let flash = "flash".to_string();
    let mut m = CredentialManager::new(&keys(&["pro", "flash"]));
    m.add_credential(1, cred("pa", Some("tok-a"), FRESH));

    let first = m.get_assigned(&pro, NOW);
    assert_eq!(first.assigned.unwrap().id, 1);

    m.report_rate_limit(1, &pro, 10, NOW);

    let blocked = m.get_assigned(&pro, NOW);
    assert!(blocked.assigned.is_none());

    let other = m.get_assigned(&flash, NOW);
    assert_eq!(other.assigned.unwrap().id, 1);

    // Acquiring on the other model dropped no active cooldown: the
    // first queue still refuses the credential.
    let still_blocked = m.get_assigned(&pro, NOW + 5);
    assert!(still_blocked.assigned.is_none());
}

#[test]
fn cooldown_expires_lazily() {
    let pro = "pro".to_string();
    let mut m = CredentialManager::new(&keys(&["pro"]));
    m.add_credential(1, cred("pa", Some("tok-a"), FRESH + 60));
    m.report_rate_limit(1, &pro, 10, NOW);

    assert!(m.get_assigned(&pro, NOW + 9).assigned.is_none());
    let after = m.get_assigned(&pro, NOW + 10);
    assert_eq!(after.assigned.unwrap().id, 1);
}

#[test]
fn expired_token_is_dequeued_for_refresh() {
    let pro = "pro".to_string();
    let mut m = CredentialManager::new(&keys(&["pro"]));
    m.add_credential(1, cred("pa", Some("stale"), NOW - 1));
    let a = m.get_assigned(&pro, NOW);
    assert!(a.assigned.is_none());
    assert_eq!(a.refresh_ids, vec![1]);
}

#[test]
fn token_inside_skew_window_is_dequeued() {
    let pro = "pro".to_string();
    let mut m = CredentialManager::new(&keys(&["pro"]));
    // expiry 30 s away: within the clock-skew allowance.
    m.add_credential(1, cred("pa", Some("tok"), NOW + 30));
    let a = m.get_assigned(&pro, NOW);
    assert!(a.assigned.is_none());
    assert_eq!(a.refresh_ids, vec![1]);
}

#[test]
fn missing_token_is_dequeued_for_refresh() {
    let pro = "pro".to_string();
    let mut m = CredentialManager::new(&keys(&["pro"]));
    m.add_credential(1, cred("pa", None, FRESH));
    let a = m.get_assigned(&pro, NOW);
    assert!(a.assigned.is_none());
    assert_eq!(a.refresh_ids, vec![1]);
}

#[test]
fn scan_passes_over_unusable_to_viable_candidate() {
    let pro = "pro".to_string();
    let mut m = CredentialManager::new(&keys(&["pro"]));
    m.add_credential(1, cred("pa", None, FRESH));
    m.add_credential(2, cred("pb", Some("tok-b"), FRESH));
    let a = m.get_assigned(&pro, NOW);
    assert_eq!(a.refresh_ids, vec![1]);
    assert_eq!(a.assigned.unwrap().id, 2);
}

#[test]
fn duplicate_invalid_reports_submit_one_job() {
    let mut c = Coordinator {
        manager: CredentialManager::new(&keys(&["pro"])),
    };
    c.manager.add_credential(1, cred("pa", Some("tok"), FRESH));

    let first = c.step(CoordinatorEvent::ReportInvalid { id: 1 }, NOW);
    let second = c.step(CoordinatorEvent::ReportInvalid { id: 1 }, NOW);

    let count = |effects: &Vec<CoordinatorEffect>| {
        effects
            .iter()
            .filter(|e| matches!(e, CoordinatorEffect::EnqueueRefresh { .. }))
            .count()
    };
    assert_eq!(count(&first) + count(&second), 1);
}

#[test]
fn invalid_then_refresh_complete_requeues_with_new_token() {
    let pro = "pro".to_string();
    let mut c = Coordinator {
        manager: CredentialManager::new(&keys(&["pro"])),
    };
    c.manager.add_credential(1, cred("pa", Some("stale"), NOW - 1));

    // Acquisition finds the stale token, dequeues it, and submits a
    // maintenance job internally.
    let effects = c.step(
        CoordinatorEvent::GetCredential { model: pro.clone() },
        NOW,
    );
    let mut enqueued = None;
    for e in &effects {
        match e {
            CoordinatorEffect::EnqueueRefresh { id, cred } => {
                enqueued = Some((*id, cred.project_id.clone()))
            }
            CoordinatorEffect::Reply(a) => assert!(a.is_none()),
            _ => panic!("unexpected effect"),
        }
    }
    assert_eq!(enqueued, Some((1, "pa".to_string())));

    // The pipeline answers with a freshly minted token.
    let effects = c.step(
        CoordinatorEvent::RefreshComplete {
            id: 1,
            result: Ok(cred("pa", Some("fresh-token"), FRESH)),
        },
        NOW,
    );
    assert!(matches!(
        effects.as_slice(),
        [CoordinatorEffect::StoreUpdate { id: 1, .. }]
    ));

    let effects = c.step(CoordinatorEvent::GetCredential { model: pro }, NOW);
    match effects.last().unwrap() {
        CoordinatorEffect::Reply(Some(a)) => {
            assert_eq!(a.id, 1);
            assert_eq!(a.access_token, "fresh-token");
        }
        other => panic!("expected an assignment, got {:?}", effect_name(other)),
    }
}

fn effect_name(e: &CoordinatorEffect) -> &'static str {
    match e {
        CoordinatorEffect::Reply(_) => "Reply",
        CoordinatorEffect::EnqueueRefresh { .. } => "EnqueueRefresh",
        CoordinatorEffect::EnqueueOnboard { .. } => "EnqueueOnboard",
        CoordinatorEffect::StoreSetInactive { .. } => "StoreSetInactive",
        CoordinatorEffect::StoreUpdate { .. } => "StoreUpdate",
    }
}

#[test]
fn banned_credential_is_never_assigned_again() {
    let pro = "pro".to_string();
    let mut c = Coordinator {
        manager: CredentialManager::new(&keys(&["pro"])),
    };
    c.manager.add_credential(1, cred("pa", Some("tok"), FRESH));

    let effects = c.step(CoordinatorEvent::ReportBanned { id: 1 }, NOW);
    assert!(matches!(
        effects.as_slice(),
        [CoordinatorEffect::StoreSetInactive { id: 1 }]
    ));

    let effects = c.step(CoordinatorEvent::GetCredential { model: pro }, NOW);
    assert!(matches!(
        effects.as_slice(),
        [CoordinatorEffect::Reply(None)]
    ));
}

#[test]
fn oauth_server_failure_deletes_credential() {
    let pro = "pro".to_string();
    let mut c = Coordinator {
        manager: CredentialManager::new(&keys(&["pro"])),
    };
    c.manager.add_credential(1, cred("pa", Some("tok"), FRESH));
    c.step(CoordinatorEvent::ReportInvalid { id: 1 }, NOW);

    let effects = c.step(
        CoordinatorEvent::RefreshComplete {
            id: 1,
            result: Err(NexusError::Oauth2Server {
                error: "invalid_grant".to_string(),
            }),
        },
        NOW,
    );
    assert!(matches!(
        effects.as_slice(),
        [CoordinatorEffect::StoreSetInactive { id: 1 }]
    ));
    assert!(!c.manager.contains(1));
}

#[test]
fn transient_failure_restores_credential() {
    let pro = "pro".to_string();
    let mut c = Coordinator {
        manager: CredentialManager::new(&keys(&["pro"])),
    };
    c.manager.add_credential(1, cred("pa", Some("tok"), FRESH));
    c.step(CoordinatorEvent::ReportInvalid { id: 1 }, NOW);

    let effects = c.step(
        CoordinatorEvent::RefreshComplete {
            id: 1,
            result: Err(NexusError::Reqwest),
        },
        NOW,
    );
    assert!(effects.is_empty());
    let effects = c.step(CoordinatorEvent::GetCredential { model: pro }, NOW);
    match effects.last().unwrap() {
        CoordinatorEffect::Reply(Some(a)) => assert_eq!(a.id, 1),
        _ => panic!("expected the restored credential to serve"),
    }
}

#[test]
fn stale_refresh_complete_is_ignored() {
    let mut c = Coordinator {
        manager: CredentialManager::new(&keys(&["pro"])),
    };
    c.manager.add_credential(1, cred("pa", Some("tok"), FRESH));
    // No ReportInvalid preceded: the id is not in the refreshing set.
    let effects = c.step(
        CoordinatorEvent::RefreshComplete {
            id: 1,
            result: Ok(cred("pa", Some("other"), FRESH)),
        },
        NOW,
    );
    assert!(effects.is_empty());
}

#[test]
fn submit_credentials_emits_one_onboard_job_each() {
    let mut c = Coordinator {
        manager: CredentialManager::new(&keys(&["pro"])),
    };
    let effects = c.step(
        CoordinatorEvent::SubmitCredentials {
            credentials: vec![cred("pa", None, 0), cred("pb", None, 0)],
        },
        NOW,
    );
    assert_eq!(effects.len(), 2);
    match (&effects[0], &effects[1]) {
        (
            CoordinatorEffect::EnqueueOnboard { cred: a },
            CoordinatorEffect::EnqueueOnboard { cred: b },
        ) => {
            assert_eq!(a.project_id, "pa");
            assert_eq!(b.project_id, "pb");
        }
        _ => panic!("expected onboarding jobs"),
    }
}

#[test]
fn activate_credential_installs_into_queues() {
    let pro = "pro".to_string();
    let mut c = Coordinator {
        manager: CredentialManager::new(&keys(&["pro"])),
    };
    let effects = c.step(
        CoordinatorEvent::ActivateCredential {
            id: 9,
            credential: cred("pz", Some("tok-z"), FRESH),
        },
        NOW,
    );
    assert!(effects.is_empty());
    let effects = c.step(CoordinatorEvent::GetCredential { model: pro }, NOW);
    match effects.last().unwrap() {
        CoordinatorEffect::Reply(Some(a)) => {
            assert_eq!(a.id, 9);
            assert_eq!(a.access_token, "tok-z");
        }
        _ => panic!("expected the activated credential to serve"),
    }
}
