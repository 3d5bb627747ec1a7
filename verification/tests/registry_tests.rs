use std::sync::Arc;

use pulsar_registry::data::{Email, PulsarId};
use pulsar_registry::service::PulsarService;

fn setup() -> PulsarService {
    PulsarService::new()
}

fn create_test_email(id: u32) -> Email {
    Email::new(&format!("test{}@example.com", id)).unwrap()
}

#[test]
fn test_new_service_is_empty() {
    let service = setup();
    assert_eq!(service.len(), 0);
}

#[test]
fn test_create_pulsar_success() {
    let service = setup();
    let users = vec![create_test_email(1)];
    let url = "pulsar1.example.com";

    let result = service.create_pulsar(users.clone(), url.to_string());
    assert!(result.is_ok());

    let pulsar = result.unwrap();
    assert_eq!(pulsar.pulsar_url, url);
    assert_eq!(pulsar.users, users);

    // Verify it was stored
    assert_eq!(service.len(), 1);
}

#[test]
fn test_create_multiple_pulsars() {
    let service = setup();
    let users1 = vec![create_test_email(1)];
    let users2 = vec![create_test_email(2)];

    let pulsar1 = service.create_pulsar(users1, "pulsar1.example.com".to_string()).unwrap();
    let pulsar2 = service.create_pulsar(users2, "pulsar2.example.com".to_string()).unwrap();

    assert_ne!(pulsar1.id, pulsar2.id);
    assert_eq!(service.len(), 2);
}

#[test]
fn test_get_existing_pulsar() {
    let service = setup();
    let users = vec![create_test_email(1)];
    let created_pulsar = service.create_pulsar(users, "pulsar1.example.com".to_string()).unwrap();

    let result = service.get_pulsar(created_pulsar.id.unwrap());
    assert!(result.is_ok());

    let retrieved_pulsar = result.unwrap();
    assert_eq!(retrieved_pulsar.id, created_pulsar.id);
    assert_eq!(retrieved_pulsar.pulsar_url, created_pulsar.pulsar_url);
    assert_eq!(retrieved_pulsar.users, created_pulsar.users);
}

#[test]
fn test_get_nonexistent_pulsar() {
    let service = setup();
    let result = service.get_pulsar(PulsarId::new());
    assert!(result.is_err());
}

#[test]
fn test_search_pulsar_with_results() {
    let service = setup();
    let user_email = create_test_email(1);
    let other_email = create_test_email(2);

    // Create two pulsars, one with our test user
    service.create_pulsar(vec![user_email.clone()], "pulsar1.example.com".to_string()).unwrap();
    service.create_pulsar(vec![other_email], "pulsar2.example.com".to_string()).unwrap();

    let results = service.search_pulsar(user_email).unwrap();
    assert_eq!(results.len(), 1);
    assert_eq!(results[0].pulsar_url, "pulsar1.example.com");
}

#[test]
fn test_search_pulsar_no_results() {
    let service = setup();
    let user_email = create_test_email(1);
    let other_email = create_test_email(2);

    // Create a pulsar but with different user
    service.create_pulsar(vec![other_email], "pulsar1.example.com".to_string()).unwrap();

    let results = service.search_pulsar(user_email).unwrap();
    assert_eq!(results.len(), 0);
}

#[test]
fn test_search_pulsar_multiple_results() {
    let service = setup();
    let user_email = create_test_email(1);

    // Create multiple pulsars for the same user
    service.create_pulsar(vec![user_email.clone()], "pulsar1.example.com".to_string()).unwrap();
    service.create_pulsar(vec![user_email.clone()], "pulsar2.example.com".to_string()).unwrap();

    let results = service.search_pulsar(user_email).unwrap();
    assert_eq!(results.len(), 2);
}

#[test]
fn test_delete_existing_pulsar() {
    let service = setup();
    let users = vec![create_test_email(1)];
    let created_pulsar = service.create_pulsar(users, "pulsar1.example.com".to_string()).unwrap();

    let result = service.delete_pulsar(created_pulsar.id.unwrap());
    assert!(result.is_ok());

    // Verify it's gone
    assert_eq!(service.len(), 0);
}

#[test]
fn test_delete_nonexistent_pulsar() {
    let service = setup();
    let result = service.delete_pulsar(PulsarId::new());
    assert!(result.is_err());
}

#[test]
fn test_delete_already_deleted_pulsar() {
    let service = setup();
    let users = vec![create_test_email(1)];
    let created_pulsar = service.create_pulsar(users, "pulsar1.example.com".to_string()).unwrap();
    let pulsar_id = created_pulsar.id.unwrap();

    // Delete first time
    assert!(service.delete_pulsar(pulsar_id).is_ok());

    // Try to delete again
    let result = service.delete_pulsar(pulsar_id);
    assert!(result.is_err());
}

#[test]
fn test_identifiers_distinct_and_ordered() {
    // identifiers drawn later never sort below earlier ones, and never repeat
    let mut ids: Vec<PulsarId> = Vec::new();
    let mut i = 0;
    while i < 64 {
        ids.push(PulsarId::new());
        i += 1;
    }
    let mut k = 1;
    while k < ids.len() {
        assert!(ids[k - 1].0 <= ids[k].0);
        k += 1;
    }
    for a in 0..ids.len() {
        for b in (a + 1)..ids.len() {
            assert_ne!(ids[a], ids[b]);
        }
    }
}

#[test]
fn test_create_then_get_returns_equal_record() {
    let service = setup();
    let users = vec![create_test_email(7), create_test_email(7)];
    let created = service.create_pulsar(users, "pulsar7.example.com".to_string()).unwrap();
    let fetched = service.get_pulsar(created.id.unwrap()).unwrap();
    assert_eq!(fetched, created);
}

#[test]
fn test_delete_then_get_not_found() {
    let service = setup();
    let created = service
        .create_pulsar(vec![create_test_email(1)], "pulsar1.example.com".to_string())
        .unwrap();
    let id = created.id.unwrap();
    assert!(service.delete_pulsar(id).is_ok());
    assert!(service.get_pulsar(id).is_err());
}

#[test]
fn test_search_tracks_create_and_delete() {
    let service = setup();
    let email = create_test_email(1);
    assert_eq!(service.search_pulsar(email.clone()).unwrap().len(), 0);

    let created = service
        .create_pulsar(vec![email.clone()], "pulsar1.example.com".to_string())
        .unwrap();
    let results = service.search_pulsar(email.clone()).unwrap();
    assert_eq!(results.len(), 1);
    assert_eq!(results[0], created);

    // a record without the email leaves the result untouched
    service
        .create_pulsar(vec![create_test_email(2)], "pulsar2.example.com".to_string())
        .unwrap();
    assert_eq!(service.search_pulsar(email.clone()).unwrap().len(), 1);

    service.delete_pulsar(created.id.unwrap()).unwrap();
    assert_eq!(service.search_pulsar(email).unwrap().len(), 0);
}

#[test]
fn test_create_with_empty_users() {
    let service = setup();
    let created = service.create_pulsar(vec![], "pulsar1.example.com".to_string()).unwrap();
    assert!(created.users.is_empty());
    assert_eq!(service.search_pulsar(create_test_email(1)).unwrap().len(), 0);
}

#[test]
fn test_duplicate_users_are_kept() {
    let service = setup();
    let email = create_test_email(1);
    let created = service
        .create_pulsar(vec![email.clone(), email.clone()], "pulsar1.example.com".to_string())
        .unwrap();
    assert_eq!(created.users.len(), 2);
    // the record matches once, not once per duplicate
    assert_eq!(service.search_pulsar(email).unwrap().len(), 1);
}

#[test]
fn test_concurrent_creates_yield_distinct_records() {
    let service = Arc::new(setup());
    let n = 16;
    let runtime = tokio::runtime::Builder::new_multi_thread().worker_threads(4).build().unwrap();
    let mut handles = Vec::new();
    for k in 0..n {
        let svc = Arc::clone(&service);
        handles.push(runtime.spawn(async move {
            let url = format!("pulsar{}.example.com", k);
            svc.create_pulsar(vec![], url).unwrap().id.unwrap()
        }));
    }
    let mut ids: Vec<PulsarId> = Vec::new();
    for handle in handles {
        ids.push(runtime.block_on(handle).unwrap());
    }
    assert_eq!(service.len(), n);
    for a in 0..ids.len() {
        for b in (a + 1)..ids.len() {
            assert_ne!(ids[a], ids[b]);
        }
    }
}

#[test]
fn test_end_to_end_search_flow() {
    let service = setup();
    let alice = Email::new("alice@x.com").unwrap();
    let bob = Email::new("bob@x.com").unwrap();

    let record_a = service.create_pulsar(vec![alice.clone()], "a.example.com".to_string()).unwrap();
    service.create_pulsar(vec![bob], "b.example.com".to_string()).unwrap();

    let found = service.search_pulsar(alice.clone()).unwrap();
    assert_eq!(found, vec![record_a.clone()]);

    service.delete_pulsar(record_a.id.unwrap()).unwrap();
    assert_eq!(service.search_pulsar(alice).unwrap(), vec![]);
}
