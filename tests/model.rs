use rft::json::{Error, Json};
use rft::model::{Batch, Job};

#[test]
fn deserialize_batch() {
    let valid_batch_json = r#"
        {
            "batch_id": "fkIopp4D_K",  
            "author": "Matt",
            "source_file": "examples/basic/main.py",
            "repository_url": "git@github.com/retwolf/rft",
            "branch": "master",
            "jobs": [
                {
                    "job_id": "EKKFKWaBJZ",
                    "params": {
                        "start_date": "1980",
                        "end_date": "2020"
                    }
                }
            ]
        }"#;

    let test_batch =
        Batch::from_json(&valid_batch_json).expect("Should successfully deserialize JSON");

    assert!(test_batch.batch_id == "fkIopp4D_K");

    let invalid_batch_json = r#"
        {
            "batch_id": 1
        }
        "#;

    Batch::from_json(&invalid_batch_json).expect_err("Should produce a deserialization error.");
}

fn sample() -> Batch {
    let mut b = Batch::new("Matt", "examples/basic/main.py", "git@github.com/retwolf/rft", "master");
    b.add_jobs(&vec![
        vec![("start_date".to_string(), "1980".to_string()), ("end_date".to_string(), "2020".to_string())],
        vec![("q".to_string(), "say \"hi\"\n".to_string())],
    ]);
    b
}

#[test]
fn round_trip_keeps_every_field_and_job_order() {
    let b = sample();
    let text = b.to_json();
    let back = Batch::from_json(&text).unwrap();
    assert_eq!(back.batch_id, b.batch_id);
    assert_eq!(back.author, b.author);
    assert_eq!(back.source_file, b.source_file);
    assert_eq!(back.repository_url, b.repository_url);
    assert_eq!(back.branch, b.branch);
    assert_eq!(back.jobs.len(), 2);
    for i in 0..2 {
        assert_eq!(back.jobs[i].job_id, b.jobs[i].job_id);
        assert_eq!(back.jobs[i].params, b.jobs[i].params);
    }
}

#[test]
fn queue_form_is_compact_json() {
    let mut b = Batch::new("A", "s.py", "u", "main");
    b.batch_id = "0123456789".to_string();
    b.jobs.push(Job { job_id: "abcdef0123".to_string(), params: vec![("k".to_string(), "v".to_string())] });
    assert_eq!(
        b.to_json(),
        r#"{"batch_id":"0123456789","author":"A","source_file":"s.py","repository_url":"u","branch":"main","jobs":[{"job_id":"abcdef0123","params":{"k":"v"}}]}"#
    );
}

#[test]
fn numeric_batch_id_is_refused_with_payload_kept() {
    let text = r#"{"batch_id":1,"author":"A","source_file":"s","repository_url":"u","branch":"b","jobs":[]}"#;
    match Batch::from_json(text) {
        Err(Error::DeserializeFailed { batch }) => assert_eq!(batch, text),
        Ok(_) => panic!("a numeric batch_id must not be accepted"),
    }
}

#[test]
fn malformed_text_is_refused() {
    assert!(Batch::from_json("{not json").is_err());
    assert!(Batch::from_json("[]").is_err());
}

#[test]
fn missing_or_mistyped_job_fields_are_refused() {
    let no_jobs = r#"{"batch_id":"x","author":"A","source_file":"s","repository_url":"u","branch":"b"}"#;
    assert!(Batch::from_json(no_jobs).is_err());
    let bad_param = r#"{"batch_id":"x","author":"A","source_file":"s","repository_url":"u","branch":"b","jobs":[{"job_id":"j","params":{"a":2}}]}"#;
    assert!(Batch::from_json(bad_param).is_err());
}

#[test]
fn unknown_members_are_ignored() {
    let text = r#"{"extra":true,"batch_id":"x","author":"A","source_file":"s","repository_url":"u","branch":"b","jobs":[]}"#;
    let b = Batch::from_json(text).unwrap();
    assert_eq!(b.batch_id, "x");
    assert!(b.jobs.is_empty());
}

#[test]
fn json_value_round_trip() {
    let b = sample();
    let j = b.to_json_value();
    let back = Batch::from_json_value(&j).unwrap();
    assert_eq!(back.jobs[1].params, b.jobs[1].params);
    assert!(Batch::from_json_value(&Json::Null).is_none());
}

#[test]
fn new_ids_are_ten_hex_characters() {
    let j = Job::new(vec![]);
    assert_eq!(j.job_id.len(), 10);
    assert!(j.job_id.chars().all(|c| c.is_ascii_digit() || ('a'..='f').contains(&c)));
    let b = Batch::new("a", "b", "c", "d");
    assert_eq!(b.batch_id.len(), 10);
    assert!(b.jobs.is_empty());
}

#[test]
fn describe_lists_fields_and_jobs() {
    let mut b = Batch::new("A", "s.py", "u", "main");
    b.batch_id = "0123456789".to_string();
    b.jobs.push(Job { job_id: "abcdef0123".to_string(), params: vec![("k".to_string(), "v".to_string())] });
    assert_eq!(
        b.describe(),
        "batch_id: 0123456789\nauthor: A\nsource_file: s.py\nrepository_url: u\nbranch: main\njobs: \njob_id: abcdef0123\nparams: \n  'k': 'v'\n"
    );
}

#[test]
fn repeated_parameter_name_is_refused() {
    let mut fields = Vec::new();
    fields.push(("job_id".to_string(), Json::Str("j".to_string())));
    fields.push((
        "params".to_string(),
        Json::Object(vec![
            ("a".to_string(), Json::Str("1".to_string())),
            ("a".to_string(), Json::Str("2".to_string())),
        ]),
    ));
    assert!(Job::from_json_value(&Json::Object(fields)).is_none());
}
