use vstd::prelude::*;

use crate::indexes::{completed_count, count_completed_indexes};
use crate::json::{decode_batch, decode_job, decode_jobs, member, parsed_json, Json};
use crate::model::{Batch, BatchView};

verus! {

/// Settings of the controller.
#[derive(Debug)]
pub struct ControllerConfig {
    /// Cluster jobs are named `<job_prefix>-indexed-job-<batch_id>`.
    pub job_prefix: String,
    /// How many tasks of one batch run at once.
    pub parallelism: u32,
    /// How long to wait before looking at an empty queue again.
    pub poll_interval_ms: u64,
    /// How long one watch registration on the cluster job lasts.
    pub watch_timeout_secs: u32,
}

impl ControllerConfig {
    /// Every delay and bound is positive.
    pub open spec fn wf(&self) -> bool {
        &&& self.parallelism > 0
        &&& self.poll_interval_ms > 0
        &&& self.watch_timeout_secs > 0
    }

    /// Prefix `rft`, three tasks at once, a five second poll and a ten second watch.
    pub fn standard() -> (r: ControllerConfig)
        ensures
            r.wf(),
            r.job_prefix@ == "rft"@,
            r.parallelism == 3,
            r.poll_interval_ms == 5000,
            r.watch_timeout_secs == 10,
    {
        ControllerConfig {
            job_prefix: String::from_str("rft"),
            parallelism: 3,
            poll_interval_ms: 5000,
            watch_timeout_secs: 10,
        }
    }
}

/// One container of a task: what runs, and with which environment.
#[derive(Debug)]
pub struct TaskSpec {
    pub name: String,
    pub image: String,
    pub command: Vec<String>,
    pub env: Vec<(String, String)>,
}

/// The cluster resource made for one batch: an Indexed Job of `completions`
/// tasks. Task `i` first runs `init`, which writes entry `i` of the batch's job
/// list to the shared input directory, then `worker`, which reads it.
#[derive(Debug)]
pub struct IndexedJob {
    pub name: String,
    pub completions: usize,
    pub parallelism: u32,
    /// Always `Indexed`: each task learns its own index.
    pub completion_mode: String,
    /// Always `Never`: a failed task fails its index.
    pub restart_policy: String,
    /// Directory shared by the two containers of a task.
    pub input_dir: String,
    pub init: TaskSpec,
    pub worker: TaskSpec,
}

/// Why a batch cannot be turned into a cluster job.
#[derive(Clone, Copy, Debug, PartialEq, Eq, Structural)]
pub enum TranslateError {
    /// The derived job name is not a valid cluster name.
    InvalidName,
    /// The batch holds no job.
    NoJobs,
}

/// The cluster job name for a batch.
pub open spec fn job_name(prefix: Seq<char>, batch_id: Seq<char>) -> Seq<char> {
    prefix + "-indexed-job-"@ + batch_id
}

pub open spec fn is_name_char(c: char) -> bool {
    ('a' <= c && c <= 'z') || ('0' <= c && c <= '9') || c == '-'
}

/// A name the cluster accepts: 1 to 63 lower-case letters, digits and dashes,
/// neither starting nor ending with a dash.
pub open spec fn is_valid_name(s: Seq<char>) -> bool {
    &&& 1 <= s.len() <= 63
    &&& forall|i: int| 0 <= i < s.len() ==> is_name_char(#[trigger] s[i])
    &&& s[0] != '-'
    &&& s.last() != '-'
}

/// The environment variable through which the init container gets the batch.
pub open spec fn payload_var() -> Seq<char> {
    "BATCH_PAYLOAD"@
}

/// The init container: it picks entry `$JOB_COMPLETION_INDEX` of the batch's
/// job list out of `payload` and writes it to the input directory.
pub open spec fn is_init_task(t: TaskSpec, payload: Seq<char>) -> bool {
    &&& t.name@ == "input-mapping"@
    &&& t.image@ == "public.ecr.aws/e1q1z8n5/alpine-jq"@
    &&& t.command@.len() == 3
    &&& t.command@[0]@ == "/bin/sh"@
    &&& t.command@[1]@ == "-c"@
    &&& t.command@[2]@ == "printf '%s' \"$BATCH_PAYLOAD\" | jq \".jobs[$JOB_COMPLETION_INDEX]\" > /input/data.json"@
    &&& t.env@.len() == 1
    &&& t.env@[0].0@ == payload_var()
    &&& t.env@[0].1@ == payload
}

/// The work container: it reads the one job written by the init container.
pub open spec fn is_worker_task(t: TaskSpec) -> bool {
    &&& t.name@ == "worker"@
    &&& t.image@ == "docker.io/library/bash"@
    &&& t.command@.len() == 3
    &&& t.command@[0]@ == "bash"@
    &&& t.command@[1]@ == "-c"@
    &&& t.command@[2]@ == "cat /input/data.json"@
    &&& t.env@.len() == 0
}

/// A batch can be submitted: its job name is valid and it holds jobs.
pub open spec fn translatable(cfg: ControllerConfig, b: BatchView) -> bool {
    &&& is_valid_name(job_name(cfg.job_prefix@, b.batch_id))
    &&& b.jobs.len() > 0
}

/// `job` is the cluster job for batch `b`, whose queued text is `payload`.
pub open spec fn is_translation(cfg: ControllerConfig, b: BatchView, payload: Seq<char>, job: IndexedJob) -> bool {
    &&& job.name@ == job_name(cfg.job_prefix@, b.batch_id)
    &&& job.completions == b.jobs.len()
    &&& job.parallelism == cfg.parallelism
    &&& job.completion_mode@ == "Indexed"@
    &&& job.restart_policy@ == "Never"@
    &&& job.input_dir@ == "/input"@
    &&& is_init_task(job.init, payload)
    &&& is_worker_task(job.worker)
}

/// What task `i` of the cluster job is handed out of the batch document `j`:
/// entry `i` of its job list.
pub open spec fn task_input(j: Json, i: int) -> Option<Json> {
    match member(j, "jobs"@) {
        Some(Json::Array(a)) => if 0 <= i < a@.len() {
            Some(a@[i])
        } else {
            None
        },
        _ => None,
    }
}

fn check_name(s: &String) -> (r: bool)
    ensures
        r == is_valid_name(s@),
{
    let n = s.as_str().unicode_len();
    if n == 0 || n > 63 {
        return false;
    }
    let mut i: usize = 0;
    while i < n
        invariant
            n == s@.len(),
            0 <= i <= n,
            forall|k: int| 0 <= k < i ==> is_name_char(#[trigger] s@[k]),
        decreases n - i,
    {
        let c = s.as_str().get_char(i);
        if !(('a' <= c && c <= 'z') || ('0' <= c && c <= '9') || c == '-') {
            return false;
        }
        i = i + 1;
    }
    s.as_str().get_char(0) != '-' && s.as_str().get_char(n - 1) != '-'
}

fn strings3(a: &str, b: &str, c: &str) -> (r: Vec<String>)
    ensures
        r@.len() == 3,
        r@[0]@ == a@,
        r@[1]@ == b@,
        r@[2]@ == c@,
{
    let mut r: Vec<String> = Vec::new();
    r.push(String::from_str(a));
    r.push(String::from_str(b));
    r.push(String::from_str(c));
    r
}

fn init_task(payload: &str) -> (r: TaskSpec)
    ensures
        is_init_task(r, payload@),
{
    let mut env: Vec<(String, String)> = Vec::new();
    env.push((String::from_str("BATCH_PAYLOAD"), String::from_str(payload)));
    TaskSpec {
        name: String::from_str("input-mapping"),
        image: String::from_str("public.ecr.aws/e1q1z8n5/alpine-jq"),
        command: strings3(
            "/bin/sh",
            "-c",
            "printf '%s' \"$BATCH_PAYLOAD\" | jq \".jobs[$JOB_COMPLETION_INDEX]\" > /input/data.json",
        ),
        env,
    }
}

fn worker_task() -> (r: TaskSpec)
    ensures
        is_worker_task(r),
{
    TaskSpec {
        name: String::from_str("worker"),
        image: String::from_str("docker.io/library/bash"),
        command: strings3("bash", "-c", "cat /input/data.json"),
        env: Vec::new(),
    }
}

impl ControllerConfig {
    /// Builds the Indexed Job for `batch`, whose queued text is `payload`: one
    /// task per job, task `i` handed job `i`. Fails on a batch without jobs or
    /// one whose derived name the cluster would refuse.
    pub fn translate(&self, batch: &Batch, payload: &str) -> (r: Result<IndexedJob, TranslateError>)
        ensures
            match r {
                Ok(job) => translatable(*self, batch@) && is_translation(*self, batch@, payload@, job),
                Err(e) => !translatable(*self, batch@) && (e == TranslateError::NoJobs <==> batch@.jobs.len()
                    == 0),
            },
    {
        if batch.jobs.len() == 0 {
            return Err(TranslateError::NoJobs);
        }
        let mut name = self.job_prefix.clone();
        name.append("-indexed-job-");
        name.append(batch.batch_id.as_str());
        if !check_name(&name) {
            return Err(TranslateError::InvalidName);
        }
        Ok(
            IndexedJob {
                name,
                completions: batch.jobs.len(),
                parallelism: self.parallelism,
                completion_mode: String::from_str("Indexed"),
                restart_policy: String::from_str("Never"),
                input_dir: String::from_str("/input"),
                init: init_task(payload),
                worker: worker_task(),
            },
        )
    }
}

/// What task `index` is handed out of the batch document `j`: entry `index`
/// of its job list, the way the init container picks it.
pub fn select_task_input(j: &Json, index: usize) -> (r: Option<&Json>)
    ensures
        match r {
            Some(x) => task_input(*j, index as int) == Some(*x),
            None => task_input(*j, index as int) is None,
        },
{
    let fs = match j {
        Json::Object(fs) => fs,
        _ => {
            return None;
        },
    };
    let mut i: usize = 0;
    let key = String::from_str("jobs");
    while i < fs.len()
        invariant
            *j == Json::Object(*fs),
            key@ == "jobs"@,
            0 <= i <= fs@.len(),
            member(*j, "jobs"@) == crate::json::member_from(fs@, "jobs"@, i as int),
        decreases fs@.len() - i,
    {
        if fs[i].0 == key {
            return match &fs[i].1 {
                Json::Array(a) => if index < a.len() {
                    Some(&a[index])
                } else {
                    None
                },
                _ => None,
            };
        }
        i = i + 1;
    }
    None
}

/// Index fidelity: for a batch read from the document `j`, task `i` of its
/// cluster job is handed exactly job `i` of the batch, for every `i` below the
/// job count, and the job count is the cluster job's completion count.
pub proof fn lemma_index_fidelity(cfg: ControllerConfig, j: Json, b: BatchView, payload: Seq<char>, job: IndexedJob, i: int)
    requires
        decode_batch(j) == Some(b),
        is_translation(cfg, b, payload, job),
        0 <= i < job.completions,
    ensures
        task_input(j, i) is Some,
        decode_job(task_input(j, i)->Some_0) == Some(b.jobs[i]),
{
    let js = member(j, "jobs"@)->Some_0;
    assert(decode_jobs(js) == Some(b.jobs));
    let a = js->Array_0@;
    assert(decode_job(a[i]) is Some);
}

/// Where the controller stands between two suspension points.
#[derive(Debug)]
pub enum Phase {
    /// Idle: the queue is looked at, and after an empty look, slept on.
    Polling,
    /// Taking batches off the queue one at a time.
    Draining,
    /// The cluster job `name` has been sent for creation.
    Submitting { name: String, completions: usize },
    /// Following the cluster job `name` until all its indices are done.
    Watching { name: String, completions: usize },
}

/// What the watch stream on a cluster job reports.
#[derive(Debug)]
pub enum WatchEvent {
    Added,
    /// The job changed; `completed_indexes` is its completed-index list (`1,3-5`).
    Modified { completed_indexes: String },
    Deleted,
    /// The stream reported an error.
    Error,
}

/// What the outside world answers to the last action.
#[derive(Debug)]
pub enum Event {
    /// The queue's length, after `CheckQueue`.
    QueueLength(usize),
    /// The sleep is over.
    Slept,
    /// The item taken off the queue head, `None` for an empty queue.
    Popped(Option<String>),
    /// Whether the cluster accepted the job sent by `Submit`.
    Created(bool),
    /// The next report of the watch stream.
    Watch(WatchEvent),
    /// The watch stream ended.
    WatchEnded,
}

/// What the outside world is asked to do next.
#[derive(Debug)]
pub enum Action {
    /// Read the queue's length.
    CheckQueue,
    /// Wait this many milliseconds.
    Sleep(u64),
    /// Take one item off the queue head, atomically.
    Pop,
    /// Log this unusable payload, which is dropped, then take the next item.
    SkipAndPop { payload: String },
    /// Create this job on the cluster.
    Submit(IndexedJob),
    /// Watch the cluster job of this name, for at most this many seconds.
    OpenWatch { name: String, timeout_secs: u32 },
    /// Read the next report of the open watch stream.
    NextWatchEvent,
}

/// The decision on a payload taken off the queue: the next phase and action.
pub open spec fn popped_step(cfg: ControllerConfig, payload: Seq<char>, phase: Phase, action: Action) -> bool {
    match parsed_json(payload) {
        Some(j) => match decode_batch(j) {
            Some(b) => if translatable(cfg, b) {
                &&& phase matches Phase::Submitting { name, completions }
                &&& action matches Action::Submit(job)
                &&& is_translation(cfg, b, payload, job)
                &&& name@ == job.name@
                &&& completions == job.completions
            } else {
                phase is Draining && (action matches Action::SkipAndPop { payload: p } && p@ == payload)
            },
            None => phase is Draining && (action matches Action::SkipAndPop { payload: p } && p@ == payload),
        },
        None => phase is Draining && (action matches Action::SkipAndPop { payload: p } && p@ == payload),
    }
}

/// The decision while watching job `name` of `completions` indices.
pub open spec fn watch_step(cfg: ControllerConfig, name: String, completions: usize, event: Event, phase: Phase, action: Action) -> bool {
    let same = (phase matches Phase::Watching { name: n, completions: c } && n@ == name@ && c == completions);
    match event {
        Event::Watch(WatchEvent::Modified { completed_indexes }) => {
            if completed_count(completed_indexes@) matches Some(k) && k >= completions {
                phase is Draining && action is Pop
            } else {
                same && action is NextWatchEvent
            }
        },
        Event::Watch(WatchEvent::Deleted) => phase is Draining && action is Pop,
        Event::WatchEnded => same && (action matches Action::OpenWatch { name: n, timeout_secs: t } && n@
            == name@ && t == cfg.watch_timeout_secs),
        _ => same && action is NextWatchEvent,
    }
}

impl ControllerConfig {
    /// One decision of the controller: from where it stands and what the
    /// outside world answered, where it goes and what it asks for next.
    ///
    /// An empty queue is always answered with a sleep of the poll interval,
    /// never with another look. Batches are taken one at a time; one that
    /// cannot be read or submitted is logged and dropped. A created job is
    /// watched until its completed-index count reaches its completion count
    /// or it is deleted; the watch is opened again when the stream ends.
    /// A job the cluster refuses (any answer to a submission but an
    /// acceptance) is dropped and the queue drained on.
    pub fn step(&self, phase: Phase, event: Event) -> (r: (Phase, Action))
        requires
            self.wf(),
        ensures
            match phase {
                Phase::Polling => match event {
                    Event::QueueLength(n) => if n == 0 {
                        r.0 is Polling && r.1 == Action::Sleep(self.poll_interval_ms)
                    } else {
                        r.0 is Draining && r.1 is Pop
                    },
                    _ => r.0 is Polling && r.1 is CheckQueue,
                },
                Phase::Draining => match event {
                    Event::Popped(None) => r.0 is Polling && r.1 == Action::Sleep(self.poll_interval_ms),
                    Event::Popped(Some(p)) => popped_step(*self, p@, r.0, r.1),
                    _ => r.0 is Draining && r.1 is Pop,
                },
                Phase::Submitting { name, completions } => match event {
                    Event::Created(true) => (r.0 matches Phase::Watching { name: n, completions: c }
                        && n@ == name@ && c == completions) && (r.1 matches Action::OpenWatch {
                        name: m,
                        timeout_secs: t,
                    } && m@ == name@ && t == self.watch_timeout_secs),
                    _ => r.0 is Draining && r.1 is Pop,
                },
                Phase::Watching { name, completions } => watch_step(*self, name, completions, event, r.0, r.1),
            },
    {
        match phase {
            Phase::Polling => match event {
                Event::QueueLength(n) => if n == 0 {
                    (Phase::Polling, Action::Sleep(self.poll_interval_ms))
                } else {
                    (Phase::Draining, Action::Pop)
                },
                _ => (Phase::Polling, Action::CheckQueue),
            },
            Phase::Draining => match event {
                Event::Popped(None) => (Phase::Polling, Action::Sleep(self.poll_interval_ms)),
                Event::Popped(Some(p)) => self.on_popped(p),
                _ => (Phase::Draining, Action::Pop),
            },
            Phase::Submitting { name, completions } => match event {
                Event::Created(true) => {
                    let watch = Action::OpenWatch { name: name.clone(), timeout_secs: self.watch_timeout_secs };
                    (Phase::Watching { name, completions }, watch)
                },
                _ => (Phase::Draining, Action::Pop),
            },
            Phase::Watching { name, completions } => self.on_watch(name, completions, event),
        }
    }

    fn on_popped(&self, payload: String) -> (r: (Phase, Action))
        ensures
            popped_step(*self, payload@, r.0, r.1),
    {
        let batch = match Batch::from_json(payload.as_str()) {
            Ok(b) => b,
            Err(_) => {
                return (Phase::Draining, Action::SkipAndPop { payload });
            },
        };
        match self.translate(&batch, payload.as_str()) {
            Ok(job) => {
                let name = job.name.clone();
                let completions = job.completions;
                (Phase::Submitting { name, completions }, Action::Submit(job))
            },
            Err(_) => (Phase::Draining, Action::SkipAndPop { payload }),
        }
    }

    fn on_watch(&self, name: String, completions: usize, event: Event) -> (r: (Phase, Action))
        ensures
            watch_step(*self, name, completions, event, r.0, r.1),
    {
        match event {
            Event::Watch(WatchEvent::Modified { completed_indexes }) => {
                match count_completed_indexes(completed_indexes.as_str()) {
                    Some(k) => if k >= completions {
                        return (Phase::Draining, Action::Pop);
                    },
                    None => {},
                }
                (Phase::Watching { name, completions }, Action::NextWatchEvent)
            },
            Event::Watch(WatchEvent::Deleted) => (Phase::Draining, Action::Pop),
            Event::WatchEnded => {
                let watch = Action::OpenWatch { name: name.clone(), timeout_secs: self.watch_timeout_secs };
                (Phase::Watching { name, completions }, watch)
            },
            _ => (Phase::Watching { name, completions }, Action::NextWatchEvent),
        }
    }
}

} // verus!
