use gcli_nexus::coordinator::{Coordinator, CoordinatorEffect, CoordinatorEvent};
use gcli_nexus::credentials::GoogleCredential;
use gcli_nexus::store::{CredentialsStorage, DbCredential};

fn cred(pid: &str, token: Option<&str>, expiry: i64) -> GoogleCredential {
    GoogleCredential {
        email: Some(format!("{pid}@example.com")),
        project_id: pid.to_string(),
        refresh_token: format!("refresh-{pid}"),
        access_token: token.map(|t| t.to_string()),
        expiry,
    }
}

#[test]
fn upsert_then_get_by_id_round_trips() {
    let mut st = CredentialsStorage::new();
    let c = cred("proj-a", Some("tok"), 123);
    let id = st.upsert(&c, true);
    let row = st.get_by_id(id).expect("row expected");
    assert_eq!(row.id, id);
    assert_eq!(row.email, c.email);
    assert_eq!(row.project_id, c.project_id);
    assert_eq!(row.refresh_token, c.refresh_token);
    assert_eq!(row.access_token, c.access_token);
    assert_eq!(row.expiry, c.expiry);
    assert!(row.status);
}

#[test]
fn upsert_conflict_keeps_id_and_overwrites_fields() {
    let mut st = CredentialsStorage::new();
    let id1 = st.upsert(&cred("proj-a", Some("old"), 1), true);
    let id2 = st.upsert(&cred("proj-a", Some("new"), 2), true);
    assert_eq!(id1, id2);
    let row = st.get_by_id(id1).unwrap();
    assert_eq!(row.access_token.as_deref(), Some("new"));
    assert_eq!(row.expiry, 2);
}

#[test]
fn upsert_assigns_increasing_ids() {
    let mut st = CredentialsStorage::new();
    let a = st.upsert(&cred("proj-a", None, 0), true);
    let b = st.upsert(&cred("proj-b", None, 0), true);
    let c = st.upsert(&cred("proj-c", None, 0), true);
    assert!(a < b && b < c);
}

#[test]
fn upsert_many_returns_ids_in_input_order() {
    let mut st = CredentialsStorage::new();
    let items = vec![
        (cred("p1", None, 0), true),
        (cred("p2", None, 0), true),
        (cred("p1", Some("t"), 9), false),
    ];
    let ids = st.upsert_many(&items);
    assert_eq!(ids.len(), 3);
    assert_eq!(ids[0], ids[2]);
    assert_ne!(ids[0], ids[1]);
    let row = st.get_by_id(ids[0]).unwrap();
    assert_eq!(row.expiry, 9);
    assert!(!row.status);
}

#[test]
fn get_by_project_id_finds_the_row() {
    let mut st = CredentialsStorage::new();
    st.upsert(&cred("p1", None, 0), true);
    let id2 = st.upsert(&cred("p2", None, 0), true);
    let row = st.get_by_project_id(&"p2".to_string()).unwrap();
    assert_eq!(row.id, id2);
    assert!(st.get_by_project_id(&"absent".to_string()).is_err());
}

#[test]
fn get_by_id_absent_is_an_error() {
    let st = CredentialsStorage::new();
    assert!(st.get_by_id(1).is_err());
}

#[test]
fn list_active_filters_and_orders_by_id() {
    let mut st = CredentialsStorage::new();
    let a = st.upsert(&cred("p1", None, 0), true);
    let b = st.upsert(&cred("p2", None, 0), false);
    let c = st.upsert(&cred("p3", None, 0), true);
    let active: Vec<i64> = st.list_active().iter().map(|r| r.id).collect();
    assert_eq!(active, vec![a, c]);
    assert!(!active.contains(&b));
}

#[test]
fn set_status_flips_only_the_flag() {
    let mut st = CredentialsStorage::new();
    let id = st.upsert(&cred("p1", Some("tok"), 5), true);
    st.set_status(id, false);
    let row = st.get_by_id(id).unwrap();
    assert!(!row.status);
    assert_eq!(row.access_token.as_deref(), Some("tok"));
    // An absent id changes nothing.
    st.set_status(id + 100, false);
    assert_eq!(st.list_active().len(), 0);
}

#[test]
fn update_by_id_overwrites_all_columns() {
    let mut st = CredentialsStorage::new();
    let id = st.upsert(&cred("p1", Some("old"), 1), true);
    st.update_by_id(id, &cred("p1", Some("new"), 7), true)
        .expect("update should succeed");
    let row = st.get_by_id(id).unwrap();
    assert_eq!(row.access_token.as_deref(), Some("new"));
    assert_eq!(row.expiry, 7);
}

#[test]
fn update_by_id_refuses_project_collision() {
    let mut st = CredentialsStorage::new();
    let id1 = st.upsert(&cred("p1", None, 0), true);
    st.upsert(&cred("p2", None, 0), true);
    assert!(st.update_by_id(id1, &cred("p2", None, 0), true).is_err());
    // The refused update left the row unchanged.
    assert_eq!(st.get_by_id(id1).unwrap().project_id, "p1");
}

#[test]
fn row_decoding_parses_the_expiry_column() {
    // 2001-09-09T01:46:40Z is 1_000_000_000 seconds after the epoch.
    let row = DbCredential::row_from_columns(
        3,
        None,
        "p".to_string(),
        "r".to_string(),
        Some("tok".to_string()),
        "2001-09-09T01:46:40Z",
        1,
    )
    .expect("row should decode");
    assert_eq!(row.id, 3);
    assert_eq!(row.expiry, 1_000_000_000);
    assert!(row.status);

    let zero = DbCredential::row_from_columns(
        4,
        None,
        "q".to_string(),
        "r".to_string(),
        None,
        "2001-09-09T01:46:40Z",
        0,
    )
    .unwrap();
    assert!(!zero.status);

    assert!(DbCredential::row_from_columns(
        1,
        None,
        "p".to_string(),
        "r".to_string(),
        None,
        "not a timestamp",
        1,
    )
    .is_err());
}

#[test]
fn google_conversions_round_trip() {
    let g = cred("proj", Some("tok"), 77);
    let row = DbCredential::from_google(&g);
    assert_eq!(row.id, 0);
    assert!(row.status);
    let back = row.to_google();
    assert_eq!(back.email, g.email);
    assert_eq!(back.project_id, g.project_id);
    assert_eq!(back.refresh_token, g.refresh_token);
    assert_eq!(back.access_token, g.access_token);
    assert_eq!(back.expiry, g.expiry);
}

#[test]
fn ban_is_durable_across_restart() {
    let now: i64 = 1_000_000;
    let fresh = now + 3600;
    let model_keys = vec!["pro".to_string()];

    // First life: two credentials persisted and active.
    let mut st = CredentialsStorage::new();
    let id_a = st.upsert(&cred("pa", Some("tok-a"), fresh), true);
    let id_b = st.upsert(&cred("pb", Some("tok-b"), fresh), true);

    let mut c = Coordinator::startup(&model_keys, st.load_active_records());

    // A is banned; the store effect is applied.
    let effects = c.step(CoordinatorEvent::ReportBanned { id: id_a }, now);
    for e in effects {
        match e {
            CoordinatorEffect::StoreSetInactive { id } => st.set_status(id, false),
            _ => panic!("unexpected effect"),
        }
    }
    assert!(st.list_active().iter().all(|r| r.id != id_a));

    // Restart: rebuild from the store's active rows.
    let mut c2 = Coordinator::startup(&model_keys, st.load_active_records());
    assert!(!c2.manager.contains(id_a));
    let effects = c2.step(
        CoordinatorEvent::GetCredential {
            model: "pro".to_string(),
        },
        now,
    );
    match effects.last().unwrap() {
        CoordinatorEffect::Reply(Some(a)) => assert_eq!(a.id, id_b),
        _ => panic!("the surviving credential should serve"),
    }
}

#[test]
fn startup_installs_active_rows_into_queues() {
    let now: i64 = 1_000_000;
    let mut st = CredentialsStorage::new();
    let id = st.upsert(&cred("pa", Some("tok-a"), now + 3600), true);
    st.upsert(&cred("pb", Some("tok-b"), now + 3600), false);

    let mut c = Coordinator::startup(&vec!["pro".to_string()], st.load_active_records());
    let effects = c.step(
        CoordinatorEvent::GetCredential {
            model: "pro".to_string(),
        },
        now,
    );
    match effects.last().unwrap() {
        CoordinatorEffect::Reply(Some(a)) => {
            assert_eq!(a.id, id);
            assert_eq!(a.access_token, "tok-a");
        }
        _ => panic!("the active row should serve"),
    }
}
