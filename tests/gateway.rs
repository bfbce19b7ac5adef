use rft::gateway::{batch_status, create_batch, health_check, rocket, Handler, Method};
use rft::model::Batch;
use rft::queue::{BatchQueue, QUEUE_NAME};

#[test]
fn health_check_is_fixed() {
    assert_eq!(health_check(), "Healthy!");
}

#[test]
fn routes_are_batch_and_health() {
    let r = rocket();
    assert_eq!(r.len(), 2);
    assert_eq!(r[0].method, Method::Post);
    assert_eq!(r[0].path, "/batch");
    assert_eq!(r[0].handler, Handler::CreateBatch);
    assert_eq!(r[1].method, Method::Get);
    assert_eq!(r[1].path, "/health");
    assert_eq!(r[1].handler, Handler::Health);
}

#[test]
fn status_bodies() {
    assert_eq!(batch_status(true), "{\"status\":\"ok\"}");
    assert_eq!(batch_status(false), "{\"status\":\"failed\"}");
}

#[test]
fn create_batch_reserializes_a_posted_batch() {
    let body = r#"{ "batch_id": "0123456789", "author": "A", "source_file": "s", "repository_url": "u", "branch": "b", "jobs": [] }"#;
    let item = create_batch(body).unwrap();
    assert_eq!(
        item,
        r#"{"batch_id":"0123456789","author":"A","source_file":"s","repository_url":"u","branch":"b","jobs":[]}"#
    );
    assert!(create_batch("{\"batch_id\": 1}").is_err());
}

#[test]
fn single_item_is_popped_once() {
    let mut q = BatchQueue::new();
    q.push("only".to_string());
    assert_eq!(q.pop(), Some("only".to_string()));
    assert_eq!(q.pop(), None);
    assert_eq!(q.len(), 0);
}

#[test]
fn queue_is_first_in_first_out() {
    let mut q = BatchQueue::new();
    let a = Batch::new("a", "s", "u", "b").to_json();
    let b = Batch::new("b", "s", "u", "b").to_json();
    q.push(a.clone());
    q.push(b.clone());
    assert_eq!(q.len(), 2);
    assert_eq!(q.pop(), Some(a));
    assert_eq!(q.pop(), Some(b));
    assert_eq!(QUEUE_NAME, "queued_batches");
}
