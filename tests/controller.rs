use rft::controller::{
    select_task_input, Action, ControllerConfig, Event, Phase, TranslateError, WatchEvent,
};
use rft::indexes::count_completed_indexes;
use rft::json::Json;
use rft::model::{Batch, Job};

fn batch(n: usize) -> Batch {
    let mut b = Batch::new("A", "s.py", "u", "main");
    b.batch_id = "0a1b2c3d4e".to_string();
    for i in 0..n {
        b.jobs.push(Job {
            job_id: format!("job{:07}", i),
            params: vec![("i".to_string(), i.to_string())],
        });
    }
    b
}

#[test]
fn translate_builds_indexed_job() {
    let cfg = ControllerConfig::standard();
    let b = batch(4);
    let payload = b.to_json();
    let job = cfg.translate(&b, &payload).unwrap();
    assert_eq!(job.name, "rft-indexed-job-0a1b2c3d4e");
    assert_eq!(job.completions, 4);
    assert_eq!(job.parallelism, 3);
    assert_eq!(job.completion_mode, "Indexed");
    assert_eq!(job.restart_policy, "Never");
    assert_eq!(job.init.env, vec![("BATCH_PAYLOAD".to_string(), payload.clone())]);
    assert_eq!(job.worker.command[2], "cat /input/data.json");
}

#[test]
fn translate_refuses_empty_batch_and_bad_name() {
    let cfg = ControllerConfig::standard();
    assert_eq!(cfg.translate(&batch(0), "{}").unwrap_err(), TranslateError::NoJobs);
    let mut b = batch(1);
    b.batch_id = "Has_Upper".to_string();
    assert_eq!(cfg.translate(&b, "{}").unwrap_err(), TranslateError::InvalidName);
}

#[test]
fn each_task_index_gets_its_own_job() {
    let b = batch(5);
    let doc = b.to_json_value();
    for i in 0..5 {
        let entry = select_task_input(&doc, i).unwrap();
        let job = Job::from_json_value(entry).unwrap();
        assert_eq!(job.job_id, b.jobs[i].job_id);
        assert_eq!(job.params, b.jobs[i].params);
    }
    assert!(select_task_input(&doc, 5).is_none());
    assert!(select_task_input(&Json::Null, 0).is_none());
}

#[test]
fn empty_queue_sleeps_then_checks_again() {
    let cfg = ControllerConfig::standard();
    let (p, a) = cfg.step(Phase::Polling, Event::QueueLength(0));
    assert!(matches!(p, Phase::Polling));
    assert!(matches!(a, Action::Sleep(5000)));
    let (p, a) = cfg.step(p, Event::Slept);
    assert!(matches!(p, Phase::Polling));
    assert!(matches!(a, Action::CheckQueue));
}

#[test]
fn drained_queue_sleeps() {
    let cfg = ControllerConfig::standard();
    let (p, a) = cfg.step(Phase::Draining, Event::Popped(None));
    assert!(matches!(p, Phase::Polling));
    assert!(matches!(a, Action::Sleep(5000)));
}

#[test]
fn full_batch_lifecycle() {
    let cfg = ControllerConfig::standard();
    let (p, a) = cfg.step(Phase::Polling, Event::QueueLength(1));
    assert!(matches!(p, Phase::Draining));
    assert!(matches!(a, Action::Pop));
    let payload = batch(3).to_json();
    let (p, a) = cfg.step(p, Event::Popped(Some(payload)));
    match (&p, &a) {
        (Phase::Submitting { name, completions }, Action::Submit(job)) => {
            assert_eq!(name, "rft-indexed-job-0a1b2c3d4e");
            assert_eq!(*completions, 3);
            assert_eq!(job.completions, 3);
        }
        _ => panic!("expected a submission"),
    }
    let (p, a) = cfg.step(p, Event::Created(true));
    match &a {
        Action::OpenWatch { name, timeout_secs } => {
            assert_eq!(name, "rft-indexed-job-0a1b2c3d4e");
            assert_eq!(*timeout_secs, 10);
        }
        _ => panic!("expected a watch"),
    }
    let (p, a) = cfg.step(p, Event::Watch(WatchEvent::Added));
    assert!(matches!(a, Action::NextWatchEvent));
    let (p, a) = cfg.step(p, Event::Watch(WatchEvent::Modified { completed_indexes: "0,2".to_string() }));
    assert!(matches!(p, Phase::Watching { .. }));
    assert!(matches!(a, Action::NextWatchEvent));
    let (p, a) = cfg.step(p, Event::Watch(WatchEvent::Error));
    assert!(matches!(a, Action::NextWatchEvent));
    let (p, a) = cfg.step(p, Event::WatchEnded);
    assert!(matches!(a, Action::OpenWatch { .. }));
    let (p, a) = cfg.step(p, Event::Watch(WatchEvent::Modified { completed_indexes: "0-2".to_string() }));
    assert!(matches!(p, Phase::Draining));
    assert!(matches!(a, Action::Pop));
}

#[test]
fn unreadable_payload_is_skipped() {
    let cfg = ControllerConfig::standard();
    let (p, a) = cfg.step(Phase::Draining, Event::Popped(Some("{\"batch_id\": 1}".to_string())));
    assert!(matches!(p, Phase::Draining));
    match a {
        Action::SkipAndPop { payload } => assert_eq!(payload, "{\"batch_id\": 1}"),
        _ => panic!("expected a skip"),
    }
}

#[test]
fn refused_creation_and_deletion_move_on() {
    let cfg = ControllerConfig::standard();
    let sub = Phase::Submitting { name: "n".to_string(), completions: 2 };
    let (p, a) = cfg.step(sub, Event::Created(false));
    assert!(matches!(p, Phase::Draining));
    assert!(matches!(a, Action::Pop));
    let w = Phase::Watching { name: "n".to_string(), completions: 2 };
    let (p, a) = cfg.step(w, Event::Watch(WatchEvent::Deleted));
    assert!(matches!(p, Phase::Draining));
    assert!(matches!(a, Action::Pop));
}

#[test]
fn completed_index_lists_are_counted() {
    assert_eq!(count_completed_indexes(""), Some(0));
    assert_eq!(count_completed_indexes("3"), Some(1));
    assert_eq!(count_completed_indexes("1,3-5,7"), Some(5));
    assert_eq!(count_completed_indexes("0-9"), Some(10));
    assert_eq!(count_completed_indexes("5-3"), None);
    assert_eq!(count_completed_indexes("a"), None);
    assert_eq!(count_completed_indexes("1,,2"), None);
    assert_eq!(count_completed_indexes("1-"), None);
    assert_eq!(count_completed_indexes("99999999999999999999999"), None);
}
