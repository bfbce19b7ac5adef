use vstd::prelude::*;

use crate::expand::{keys_distinct, pairs_view, ParamsView};
use crate::model::{jobs_of, Batch, BatchView, Job, JobView};

verus! {

/// A JSON number, carried through unread.
#[verifier::external_type_specification]
#[verifier::external_body]
pub struct ExNumber(serde_json::Number);

/// A parsed JSON document, as serde_json holds it.
#[verifier::external_type_specification]
#[verifier::external_body]
pub struct ExValue(serde_json::Value);

/// A JSON document: the structured interchange form of batches on the queue.
/// Object members keep their order.
#[derive(Debug)]
pub enum Json {
    Null,
    Bool(bool),
    Number(serde_json::Number),
    Str(String),
    Array(Vec<Json>),
    Object(Vec<(String, Json)>),
}

/// The member named `k` of `fs` at or after position `i`: the first one.
pub open spec fn member_from(fs: Seq<(String, Json)>, k: Seq<char>, i: int) -> Option<Json>
    decreases fs.len() - i,
{
    if i < 0 || i >= fs.len() {
        None
    } else if fs[i].0@ == k {
        Some(fs[i].1)
    } else {
        member_from(fs, k, i + 1)
    }
}

/// The member named `k` of an object; `None` for a missing member or a non-object.
pub open spec fn member(j: Json, k: Seq<char>) -> Option<Json> {
    match j {
        Json::Object(fs) => member_from(fs@, k, 0),
        _ => None,
    }
}

/// The text of a string member.
pub open spec fn text_member(j: Json, k: Seq<char>) -> Option<Seq<char>> {
    match member(j, k) {
        Some(Json::Str(s)) => Some(s@),
        _ => None,
    }
}

/// The members of an object of strings, as (name, value) text pairs.
pub open spec fn text_pairs(fs: Seq<(String, Json)>) -> ParamsView {
    Seq::new(fs.len(), |i: int| (fs[i].0@, fs[i].1->Str_0@))
}

/// A parameter mapping: an object whose members are all strings, no two with
/// the same name.
pub open spec fn decode_params(j: Json) -> Option<ParamsView> {
    match j {
        Json::Object(fs) => if (forall|i: int| 0 <= i < fs@.len() ==> (#[trigger] fs@[i]).1 is Str)
            && keys_distinct(text_pairs(fs@)) {
            Some(text_pairs(fs@))
        } else {
            None
        },
        _ => None,
    }
}

/// A job: an object with a string `job_id` and a parameter mapping `params`.
pub open spec fn decode_job(j: Json) -> Option<JobView> {
    match (text_member(j, "job_id"@), member(j, "params"@)) {
        (Some(id), Some(p)) => match decode_params(p) {
            Some(ps) => Some(JobView { job_id: id, params: ps }),
            None => None,
        },
        _ => None,
    }
}

/// A job list: an array of jobs, in order.
pub open spec fn decode_jobs(j: Json) -> Option<Seq<JobView>> {
    match j {
        Json::Array(a) => if forall|i: int| 0 <= i < a@.len() ==> decode_job(#[trigger] a@[i]) is Some {
            Some(Seq::new(a@.len(), |i: int| decode_job(a@[i])->Some_0))
        } else {
            None
        },
        _ => None,
    }
}

/// A batch: an object with the five string fields and the job list; other
/// members are ignored, and any field of another shape is refused.
pub open spec fn decode_batch(j: Json) -> Option<BatchView> {
    match (
        text_member(j, "batch_id"@),
        text_member(j, "author"@),
        text_member(j, "source_file"@),
        text_member(j, "repository_url"@),
        text_member(j, "branch"@),
    ) {
        (Some(id), Some(author), Some(source_file), Some(repository_url), Some(branch)) => {
            match member(j, "jobs"@) {
                Some(js) => match decode_jobs(js) {
                    Some(jobs) => Some(
                        BatchView { batch_id: id, author, source_file, repository_url, branch, jobs },
                    ),
                    None => None,
                },
                None => None,
            }
        },
        _ => None,
    }
}

/// `m` is the member `k: "v"`.
pub open spec fn is_text_member(m: (String, Json), k: Seq<char>, v: Seq<char>) -> bool {
    &&& m.0@ == k
    &&& m.1 is Str
    &&& m.1->Str_0@ == v
}

/// `j` is the object `{"k1": "v1", ...}` of the parameter mapping `ps`, in order.
pub open spec fn encodes_params(j: Json, ps: ParamsView) -> bool {
    &&& j is Object
    &&& j->Object_0@.len() == ps.len()
    &&& forall|i: int| 0 <= i < ps.len() ==> is_text_member(#[trigger] j->Object_0@[i], ps[i].0, ps[i].1)
}

/// `j` is the object `{"job_id": .., "params": {..}}` of the job `v`.
pub open spec fn encodes_job(j: Json, v: JobView) -> bool {
    &&& j is Object
    &&& j->Object_0@.len() == 2
    &&& is_text_member(j->Object_0@[0], "job_id"@, v.job_id)
    &&& j->Object_0@[1].0@ == "params"@
    &&& encodes_params(j->Object_0@[1].1, v.params)
}

/// `j` is the array of the jobs `v`, in order.
pub open spec fn encodes_jobs(j: Json, v: Seq<JobView>) -> bool {
    &&& j is Array
    &&& j->Array_0@.len() == v.len()
    &&& forall|i: int| 0 <= i < v.len() ==> encodes_job(#[trigger] j->Array_0@[i], v[i])
}

/// `j` is the wire form of the batch `b`: an object with the members
/// `batch_id`, `author`, `source_file`, `repository_url`, `branch` and `jobs`,
/// in that order.
pub open spec fn encodes_batch(j: Json, b: BatchView) -> bool {
    &&& j is Object
    &&& j->Object_0@.len() == 6
    &&& is_text_member(j->Object_0@[0], "batch_id"@, b.batch_id)
    &&& is_text_member(j->Object_0@[1], "author"@, b.author)
    &&& is_text_member(j->Object_0@[2], "source_file"@, b.source_file)
    &&& is_text_member(j->Object_0@[3], "repository_url"@, b.repository_url)
    &&& is_text_member(j->Object_0@[4], "branch"@, b.branch)
    &&& j->Object_0@[5].0@ == "jobs"@
    &&& encodes_jobs(j->Object_0@[5].1, b.jobs)
}

/// Why a queued payload could not be read back as a batch.
#[derive(Debug)]
pub enum Error {
    /// The payload is not JSON, or not a batch; `batch` holds the payload.
    DeserializeFailed { batch: String },
}

fn find_member<'a>(fs: &'a Vec<(String, Json)>, k: &String) -> (r: Option<&'a Json>)
    ensures
        match r {
            Some(v) => member_from(fs@, k@, 0) == Some(*v),
            None => member_from(fs@, k@, 0) is None,
        },
{
    let mut i: usize = 0;
    while i < fs.len()
        invariant
            0 <= i <= fs@.len(),
            member_from(fs@, k@, 0) == member_from(fs@, k@, i as int),
        decreases fs@.len() - i,
    {
        if fs[i].0 == *k {
            return Some(&fs[i].1);
        }
        i = i + 1;
    }
    None
}

fn get_member<'a>(j: &'a Json, k: &String) -> (r: Option<&'a Json>)
    ensures
        match r {
            Some(v) => member(*j, k@) == Some(*v),
            None => member(*j, k@) is None,
        },
{
    match j {
        Json::Object(fs) => find_member(fs, k),
        _ => None,
    }
}

fn get_text(j: &Json, k: &str) -> (r: Option<String>)
    ensures
        match r {
            Some(s) => text_member(*j, k@) == Some(s@),
            None => text_member(*j, k@) is None,
        },
{
    match get_member(j, &String::from_str(k)) {
        Some(Json::Str(s)) => Some(s.clone()),
        _ => None,
    }
}

fn params_from_json(j: &Json) -> (r: Option<Vec<(String, String)>>)
    ensures
        match r {
            Some(p) => decode_params(*j) == Some(pairs_view(p@)),
            None => decode_params(*j) is None,
        },
{
    match j {
        Json::Object(fs) => {
            let mut ps: Vec<(String, String)> = Vec::new();
            let mut i: usize = 0;
            while i < fs.len()
                invariant
                    *j == Json::Object(*fs),
                    0 <= i <= fs@.len(),
                    ps@.len() == i,
                    forall|m: int| 0 <= m < i ==> (#[trigger] fs@[m]).1 is Str,
                    forall|m: int|
                        0 <= m < i ==> #[trigger] pairs_view(ps@)[m] == (fs@[m].0@, fs@[m].1->Str_0@),
                decreases fs@.len() - i,
            {
                match &fs[i].1 {
                    Json::Str(v) => {
                        let ghost before = ps@;
                        ps.push((fs[i].0.clone(), v.clone()));
                        proof {
                            assert(pairs_view(ps@) =~= pairs_view(before).push((fs@[i as int].0@, v@)));
                        }
                    },
                    _ => {
                        proof {
                            assert(!((fs@[i as int]).1 is Str));
                            assert(decode_params(*j) is None);
                        }
                        return None;
                    },
                }
                i = i + 1;
            }
            proof {
                assert(pairs_view(ps@) =~= text_pairs(fs@));
            }
            if !names_distinct(&ps) {
                return None;
            }
            Some(ps)
        },
        _ => None,
    }
}

fn names_distinct(ps: &Vec<(String, String)>) -> (r: bool)
    ensures
        r == keys_distinct(pairs_view(ps@)),
{
    let ghost v = pairs_view(ps@);
    let mut i: usize = 0;
    while i < ps.len()
        invariant
            v == pairs_view(ps@),
            0 <= i <= ps@.len(),
            forall|a: int, c: int| 0 <= a < c < ps@.len() && a < i ==> #[trigger] v[a].0 != #[trigger] v[c].0,
        decreases ps@.len() - i,
    {
        let mut k: usize = i + 1;
        while k < ps.len()
            invariant
                v == pairs_view(ps@),
                0 <= i < ps@.len(),
                i + 1 <= k <= ps@.len(),
                forall|a: int, c: int| 0 <= a < c < ps@.len() && a < i ==> #[trigger] v[a].0 != #[trigger] v[c].0,
                forall|c: int| i < c < k ==> v[i as int].0 != #[trigger] v[c].0,
            decreases ps@.len() - k,
        {
            if ps[i].0 == ps[k].0 {
                proof {
                    assert(v[i as int].0 == v[k as int].0);
                }
                return false;
            }
            k = k + 1;
        }
        i = i + 1;
    }
    true
}

fn text(s: &String) -> (r: Json)
    ensures
        r is Str,
        r->Str_0@ == s@,
{
    Json::Str(s.clone())
}

impl Job {
    /// The wire form `{"job_id": .., "params": {..}}`.
    pub fn to_json_value(&self) -> (r: Json)
        ensures
            encodes_job(r, self@),
    {
        let mut ps: Vec<(String, Json)> = Vec::new();
        let mut i: usize = 0;
        while i < self.params.len()
            invariant
                0 <= i <= self.params@.len(),
                ps@.len() == i,
                forall|m: int|
                    0 <= m < i ==> is_text_member(#[trigger] ps@[m], self@.params[m].0, self@.params[m].1),
            decreases self.params@.len() - i,
        {
            ps.push((self.params[i].0.clone(), text(&self.params[i].1)));
            i = i + 1;
        }
        let mut fs: Vec<(String, Json)> = Vec::new();
        fs.push((String::from_str("job_id"), text(&self.job_id)));
        fs.push((String::from_str("params"), Json::Object(ps)));
        Json::Object(fs)
    }

    /// Reads a job from its wire form; `None` when `j` is not one.
    pub fn from_json_value(j: &Json) -> (r: Option<Job>)
        ensures
            match r {
                Some(job) => decode_job(*j) == Some(job@),
                None => decode_job(*j) is None,
            },
    {
        let job_id = get_text(j, "job_id")?;
        let p = get_member(j, &String::from_str("params"))?;
        let params = params_from_json(p)?;
        Some(Job { job_id, params })
    }
}

impl Batch {
    /// The wire form: an object with `batch_id`, `author`, `source_file`,
    /// `repository_url`, `branch` and the `jobs` array, in that order.
    pub fn to_json_value(&self) -> (r: Json)
        ensures
            encodes_batch(r, self@),
    {
        let mut js: Vec<Json> = Vec::new();
        let mut i: usize = 0;
        while i < self.jobs.len()
            invariant
                0 <= i <= self.jobs@.len(),
                js@.len() == i,
                forall|m: int| 0 <= m < i ==> encodes_job(#[trigger] js@[m], self@.jobs[m]),
            decreases self.jobs@.len() - i,
        {
            js.push(self.jobs[i].to_json_value());
            i = i + 1;
        }
        let mut fs: Vec<(String, Json)> = Vec::new();
        fs.push((String::from_str("batch_id"), text(&self.batch_id)));
        fs.push((String::from_str("author"), text(&self.author)));
        fs.push((String::from_str("source_file"), text(&self.source_file)));
        fs.push((String::from_str("repository_url"), text(&self.repository_url)));
        fs.push((String::from_str("branch"), text(&self.branch)));
        fs.push((String::from_str("jobs"), Json::Array(js)));
        Json::Object(fs)
    }

    /// Reads a batch from its wire form; `None` when `j` is not one.
    pub fn from_json_value(j: &Json) -> (r: Option<Batch>)
        ensures
            match r {
                Some(b) => decode_batch(*j) == Some(b@) && b.wf(),
                None => decode_batch(*j) is None,
            },
    {
        let batch_id = get_text(j, "batch_id")?;
        let author = get_text(j, "author")?;
        let source_file = get_text(j, "source_file")?;
        let repository_url = get_text(j, "repository_url")?;
        let branch = get_text(j, "branch")?;
        let js = get_member(j, &String::from_str("jobs"))?;
        let a = match js {
            Json::Array(a) => a,
            _ => {
                return None;
            },
        };
        let mut jobs: Vec<Job> = Vec::new();
        let mut i: usize = 0;
        while i < a.len()
            invariant
                text_member(*j, "batch_id"@) == Some(batch_id@),
                text_member(*j, "author"@) == Some(author@),
                text_member(*j, "source_file"@) == Some(source_file@),
                text_member(*j, "repository_url"@) == Some(repository_url@),
                text_member(*j, "branch"@) == Some(branch@),
                member(*j, "jobs"@) == Some(*js),
                decode_jobs(*js) is Some ==> decode_jobs(*js)->Some_0.len() == a@.len(),
                *js == Json::Array(*a),
                0 <= i <= a@.len(),
                jobs@.len() == i,
                forall|m: int| 0 <= m < i ==> decode_job(#[trigger] a@[m]) == Some(jobs@[m]@),
            decreases a@.len() - i,
        {
            match Job::from_json_value(&a[i]) {
                Some(job) => jobs.push(job),
                None => {
                    proof {
                        assert(decode_job(a@[i as int]) is None);
                        assert(decode_jobs(*js) is None);
                    }
                    return None;
                },
            }
            i = i + 1;
        }
        proof {
            assert(jobs_of(jobs@) =~= decode_jobs(*js)->Some_0);
            assert forall|m: int| 0 <= m < jobs@.len() implies (#[trigger] jobs@[m]).wf() by {
                assert(decode_job(a@[m]) == Some(jobs@[m]@));
            }
        }
        Some(Batch { batch_id, author, source_file, repository_url, branch, jobs })
    }
}

/// What serde_json reads from a text: the document, or `None` for a text
/// that is not JSON. It depends on the text alone.
pub uninterp spec fn parsed_json(s: Seq<char>) -> Option<Json>;

/// The compact JSON text serde_json writes for a document. It depends on the
/// document alone.
pub uninterp spec fn json_text(j: Json) -> Seq<char>;

/// Relies on the variants of serde_json::Value and on its `Map` (an insertion
/// ordered map under the `preserve_order` feature): moves a parsed document into
/// the library's own form, one variant for one, members in their order.
#[verifier::external_body]
fn from_serde(v: serde_json::Value) -> Json {
    match v {
        serde_json::Value::Null => Json::Null,
        serde_json::Value::Bool(b) => Json::Bool(b),
        serde_json::Value::Number(n) => Json::Number(n),
        serde_json::Value::String(s) => Json::Str(s),
        serde_json::Value::Array(a) => Json::Array(a.into_iter().map(from_serde).collect()),
        serde_json::Value::Object(m) => Json::Object(m.into_iter().map(|(k, x)| (k, from_serde(x))).collect()),
    }
}

/// Relies on the variants of serde_json::Value and on its `Map` (an insertion
/// ordered map under the `preserve_order` feature): moves a document of the
/// library into serde_json's form, one variant for one, members in their order.
#[verifier::external_body]
fn to_serde(j: &Json) -> serde_json::Value {
    match j {
        Json::Null => serde_json::Value::Null,
        Json::Bool(b) => serde_json::Value::Bool(*b),
        Json::Number(n) => serde_json::Value::Number(n.clone()),
        Json::Str(s) => serde_json::Value::String(s.clone()),
        Json::Array(a) => serde_json::Value::Array(a.iter().map(to_serde).collect()),
        Json::Object(fs) => serde_json::Value::Object(fs.iter().map(|(k, x)| (k.clone(), to_serde(x))).collect()),
    }
}

/// Relies on serde_json::from_str into a `serde_json::Value`: it accepts
/// exactly the JSON texts, and what it reads depends on the text alone.
#[verifier::external_body]
fn parse_json(s: &str) -> (r: Option<Json>)
    ensures
        r == parsed_json(s@),
{
    serde_json::from_str::<serde_json::Value>(s).ok().map(from_serde)
}

/// Relies on serde_json's compact writer (`Display` of `serde_json::Value`),
/// which never fails and whose text depends on the document alone.
#[verifier::external_body]
fn render_json(j: &Json) -> (r: String)
    ensures
        r@ == json_text(*j),
{
    to_serde(j).to_string()
}

impl Batch {
    /// The queue form of the batch: the compact JSON text of its wire form.
    pub fn to_json(&self) -> (r: String)
        ensures
            exists|j: Json| encodes_batch(j, self@) && r@ == json_text(j),
    {
        let j = self.to_json_value();
        render_json(&j)
    }

    /// Reads a batch from its queue form. Fails, keeping the payload, when the
    /// text is not JSON or not a batch (a field missing or of another shape).
    pub fn from_json(json: &str) -> (r: Result<Batch, Error>)
        ensures
            match r {
                Ok(b) => parsed_json(json@) is Some && decode_batch(parsed_json(json@)->Some_0)
                    == Some(b@),
                Err(Error::DeserializeFailed { batch }) => batch@ == json@ && (parsed_json(
                    json@,
                ) is None || decode_batch(parsed_json(json@)->Some_0) is None),
            },
    {
        match parse_json(json) {
            Some(j) => Self::from_json_document(&j, json),
            None => Err(Error::DeserializeFailed { batch: String::from_str(json) }),
        }
    }

    /// Reads a batch from a parsed queue payload `j`, whose text was `json`.
    pub fn from_json_document(j: &Json, json: &str) -> (r: Result<Batch, Error>)
        ensures
            match r {
                Ok(b) => decode_batch(*j) == Some(b@),
                Err(Error::DeserializeFailed { batch }) => batch@ == json@ && decode_batch(*j) is None,
            },
    {
        match Batch::from_json_value(j) {
            Some(b) => Ok(b),
            None => Err(Error::DeserializeFailed { batch: String::from_str(json) }),
        }
    }
}

proof fn lemma_member_at(fs: Seq<(String, Json)>, k: Seq<char>, q: int, i: int)
    requires
        0 <= i <= q < fs.len(),
        fs[q].0@ == k,
        forall|p: int| 0 <= p < q ==> (#[trigger] fs[p]).0@ != k,
    ensures
        member_from(fs, k, i) == Some(fs[q].1),
    decreases q - i,
{
    if i < q {
        lemma_member_at(fs, k, q, i + 1);
    }
}

/// Reading back the wire form of a well-formed batch gives the same batch:
/// every field, and the jobs in the same order with the same parameters.
pub proof fn lemma_round_trip(j: Json, b: BatchView)
    requires
        encodes_batch(j, b),
        forall|i: int| 0 <= i < b.jobs.len() ==> keys_distinct(#[trigger] b.jobs[i].params),
    ensures
        decode_batch(j) == Some(b),
{
    reveal_strlit("batch_id");
    reveal_strlit("author");
    reveal_strlit("source_file");
    reveal_strlit("repository_url");
    reveal_strlit("branch");
    reveal_strlit("jobs");
    reveal_strlit("job_id");
    reveal_strlit("params");
    let fs = j->Object_0@;
    let keys = seq!["batch_id"@, "author"@, "source_file"@, "repository_url"@, "branch"@, "jobs"@];
    assert(keys[0][1] == 'a' && keys[1][0] == 'a' && keys[2][0] == 's' && keys[3][0] == 'r');
    assert(keys[4][1] == 'r' && keys[0][0] == 'b' && keys[4][0] == 'b' && keys[5][0] == 'j');
    assert forall|p: int, q: int| 0 <= p < q < 6 implies #[trigger] keys[p] != #[trigger] keys[q] by {
        if p == 0 && q == 4 {
            assert(keys[p][1] != keys[q][1]);
        } else {
            assert(keys[p][0] != keys[q][0]);
        }
    }
    assert("job_id"@[0] != "params"@[0]);
    assert(fs[0].0@ == keys[0] && fs[1].0@ == keys[1] && fs[2].0@ == keys[2]);
    assert(fs[3].0@ == keys[3] && fs[4].0@ == keys[4] && fs[5].0@ == keys[5]);
    assert forall|q: int| 0 <= q < 6 implies member(j, #[trigger] keys[q]) == Some(fs[q].1) by {
        assert forall|p: int| 0 <= p < q implies (#[trigger] fs[p]).0@ != keys[q] by {
            assert(fs[p].0@ == keys[p]);
        }
        lemma_member_at(fs, keys[q], q, 0);
    }
    let js = fs[5].1;
    let a = js->Array_0@;
    assert forall|i: int| 0 <= i < a.len() implies decode_job(#[trigger] a[i]) == Some(b.jobs[i]) by {
        let job = a[i];
        assert(encodes_job(job, b.jobs[i]));
        let jfs = job->Object_0@;
        assert(member(job, "job_id"@) == Some(jfs[0].1));
        lemma_member_at(jfs, "params"@, 1, 0);
        let p = jfs[1].1;
        assert(text_pairs(p->Object_0@) =~= b.jobs[i].params);
        assert(decode_params(p) is Some);
    }
    assert(decode_jobs(js)->Some_0 =~= b.jobs);
}

/// A payload whose `batch_id` is not text (a number, say) is refused: no batch
/// is made from it, whatever the other fields hold.
pub proof fn lemma_non_text_batch_id_rejected(j: Json)
    requires
        member(j, "batch_id"@) is Some,
        !(member(j, "batch_id"@)->Some_0 is Str),
    ensures
        decode_batch(j) is None,
{
}

} // verus!
