use vstd::prelude::*;

use crate::expand::{
    copy_params, expand_params, expansion, keys_distinct, pairs_view, strs, ParamError, ParamFormat,
    ParamsView,
};
use crate::ids::{is_id, new_id};

verus! {

/// One unit of work: an identifier and a mapping from parameter name to value.
#[derive(Clone, Debug)]
pub struct Job {
    pub job_id: String,
    /// (name, value) pairs; each name appears once.
    pub params: Vec<(String, String)>,
}

pub struct JobView {
    pub job_id: Seq<char>,
    pub params: ParamsView,
}

impl View for Job {
    type V = JobView;

    open spec fn view(&self) -> JobView {
        JobView { job_id: self.job_id@, params: pairs_view(self.params@) }
    }
}

/// A uniquely identified, ordered collection of jobs submitted together.
/// Position `i` of `jobs` is completion index `i` of the cluster job.
#[derive(Clone, Debug)]
pub struct Batch {
    pub batch_id: String,
    pub author: String,
    /// Path of the file to run, relative to the repository root.
    pub source_file: String,
    pub repository_url: String,
    pub branch: String,
    pub jobs: Vec<Job>,
}

pub struct BatchView {
    pub batch_id: Seq<char>,
    pub author: Seq<char>,
    pub source_file: Seq<char>,
    pub repository_url: Seq<char>,
    pub branch: Seq<char>,
    pub jobs: Seq<JobView>,
}

pub open spec fn jobs_of(v: Seq<Job>) -> Seq<JobView> {
    v.map_values(|j: Job| j@)
}

impl View for Batch {
    type V = BatchView;

    open spec fn view(&self) -> BatchView {
        BatchView {
            batch_id: self.batch_id@,
            author: self.author@,
            source_file: self.source_file@,
            repository_url: self.repository_url@,
            branch: self.branch@,
            jobs: jobs_of(self.jobs@),
        }
    }
}

impl Job {
    /// No two parameters share a name.
    pub open spec fn wf(&self) -> bool {
        keys_distinct(self@.params)
    }

    /// A job with a fresh identifier and the given parameters.
    pub fn new(params: Vec<(String, String)>) -> (r: Job)
        requires
            keys_distinct(pairs_view(params@)),
        ensures
            is_id(r.job_id@),
            r@.params == pairs_view(params@),
            r.wf(),
    {
        Job { job_id: new_id(), params }
    }
}

impl Batch {
    /// Every job is well formed.
    pub open spec fn wf(&self) -> bool {
        forall|i: int| 0 <= i < self.jobs@.len() ==> (#[trigger] self.jobs@[i]).wf()
    }

    /// An empty batch with a fresh identifier and the given provenance.
    pub fn new(author: &str, source_file: &str, repository_url: &str, branch: &str) -> (r: Batch)
        ensures
            is_id(r.batch_id@),
            r.author@ == author@,
            r.source_file@ == source_file@,
            r.repository_url@ == repository_url@,
            r.branch@ == branch@,
            r.jobs@.len() == 0,
            r.wf(),
    {
        Batch {
            batch_id: new_id(),
            author: String::from_str(author),
            source_file: String::from_str(source_file),
            repository_url: String::from_str(repository_url),
            branch: String::from_str(branch),
            jobs: Vec::new(),
        }
    }

    /// Appends one job per parameter mapping, in order, each with a fresh identifier.
    pub fn add_jobs(&mut self, param_sets: &Vec<Vec<(String, String)>>)
        requires
            forall|i: int| 0 <= i < param_sets@.len() ==> keys_distinct(pairs_view(#[trigger] param_sets@[i]@)),
        ensures
            old(self).wf() ==> final(self).wf(),
            final(self)@.batch_id == old(self)@.batch_id,
            final(self)@.author == old(self)@.author,
            final(self)@.source_file == old(self)@.source_file,
            final(self)@.repository_url == old(self)@.repository_url,
            final(self)@.branch == old(self)@.branch,
            final(self)@.jobs.len() == old(self)@.jobs.len() + param_sets@.len(),
            forall|i: int|
                0 <= i < old(self)@.jobs.len() ==> #[trigger] final(self)@.jobs[i] == old(self)@.jobs[i],
            forall|i: int|
                0 <= i < param_sets@.len() ==> {
                    let job = #[trigger] final(self)@.jobs[old(self)@.jobs.len() + i];
                    &&& is_id(job.job_id)
                    &&& job.params == pairs_view(param_sets@[i]@)
                },
    {
        let ghost start = jobs_of(self.jobs@);
        let mut i: usize = 0;
        while i < param_sets.len()
            invariant
                0 <= i <= param_sets@.len(),
                self@.batch_id == old(self)@.batch_id,
                self@.author == old(self)@.author,
                self@.source_file == old(self)@.source_file,
                self@.repository_url == old(self)@.repository_url,
                self@.branch == old(self)@.branch,
                start == old(self)@.jobs,
                forall|j: int| 0 <= j < param_sets@.len() ==> keys_distinct(pairs_view(#[trigger] param_sets@[j]@)),
                old(self).wf() ==> forall|j: int| 0 <= j < self.jobs@.len() ==> (#[trigger] self.jobs@[j]).wf(),
                self@.jobs.len() == start.len() + i,
                forall|j: int| 0 <= j < start.len() ==> #[trigger] self@.jobs[j] == start[j],
                forall|j: int|
                    0 <= j < i ==> {
                        let job = #[trigger] self@.jobs[start.len() + j];
                        &&& is_id(job.job_id)
                        &&& job.params == pairs_view(param_sets@[j]@)
                    },
            decreases param_sets@.len() - i,
        {
            let job = Job::new(copy_params(&param_sets[i]));
            let ghost before = jobs_of(self.jobs@);
            let ghost raw = self.jobs@;
            self.jobs.push(job);
            proof {
                assert(jobs_of(self.jobs@) =~= before.push(job@));
                assert(self.jobs@ =~= raw.push(job));
            }
            i = i + 1;
        }
    }
}

impl Batch {
    /// A batch with the given provenance and one job per parameter mapping that
    /// `definitions` expand to under `format`, in expansion order. On invalid
    /// definitions no batch is made.
    pub fn from_definitions(
        author: &str,
        source_file: &str,
        repository_url: &str,
        branch: &str,
        definitions: &Vec<String>,
        format: ParamFormat,
    ) -> (r: Result<Batch, ParamError>)
        ensures
            match r {
                Ok(b) => {
                    &&& expansion(strs(definitions@), format) is Some
                    &&& is_id(b.batch_id@)
                    &&& b.wf()
                    &&& b.author@ == author@
                    &&& b.source_file@ == source_file@
                    &&& b.repository_url@ == repository_url@
                    &&& b.branch@ == branch@
                    &&& b@.jobs.len() == expansion(strs(definitions@), format)->Some_0.len()
                    &&& forall|i: int|
                        0 <= i < b@.jobs.len() ==> is_id(#[trigger] b@.jobs[i].job_id) && b@.jobs[i].params
                            == expansion(strs(definitions@), format)->Some_0[i]
                },
                Err(e) => expansion(strs(definitions@), format) is None && e == ParamError::InvalidParam,
            },
    {
        let sets = expand_params(definitions, format)?;
        let mut batch = Batch::new(author, source_file, repository_url, branch);
        let ghost before = batch@;
        batch.add_jobs(&sets);
        proof {
            assert forall|i: int| 0 <= i < batch@.jobs.len() implies is_id(#[trigger] batch@.jobs[i].job_id)
                && batch@.jobs[i].params == crate::expand::jobs_view(sets@)[i] by {
                assert(before.jobs.len() == 0);
                assert(batch@.jobs[before.jobs.len() + i] == batch@.jobs[i]);
            }
        }
        Ok(batch)
    }
}

/// The listing of a parameter mapping: one `  'name': 'value'` line per entry.
pub open spec fn params_text(ps: ParamsView) -> Seq<char>
    decreases ps.len(),
{
    if ps.len() == 0 {
        Seq::empty()
    } else {
        params_text(ps.drop_last()) + "  '"@ + ps.last().0 + "': '"@ + ps.last().1 + "'\n"@
    }
}

/// The listing of a job: its identifier, then its parameters.
pub open spec fn job_text(j: JobView) -> Seq<char> {
    "job_id: "@ + j.job_id + "\nparams: \n"@ + params_text(j.params)
}

pub open spec fn jobs_text(js: Seq<JobView>) -> Seq<char>
    decreases js.len(),
{
    if js.len() == 0 {
        Seq::empty()
    } else {
        jobs_text(js.drop_last()) + job_text(js.last())
    }
}

/// The listing of a batch: one `field: value` line per field, then its jobs.
pub open spec fn batch_text(b: BatchView) -> Seq<char> {
    "batch_id: "@ + b.batch_id + "\nauthor: "@ + b.author + "\nsource_file: "@ + b.source_file
        + "\nrepository_url: "@ + b.repository_url + "\nbranch: "@ + b.branch + "\njobs: \n"@
        + jobs_text(b.jobs)
}

impl Job {
    /// A readable listing of the job.
    pub fn describe(&self) -> (r: String)
        ensures
            r@ == job_text(self@),
    {
        let mut r = String::from_str("job_id: ");
        r.append(self.job_id.as_str());
        r.append("\nparams: \n");
        let ghost head = r@;
        let mut i: usize = 0;
        proof {
            assert(pairs_view(self.params@).subrange(0, 0) =~= Seq::<(Seq<char>, Seq<char>)>::empty());
        }
        while i < self.params.len()
            invariant
                0 <= i <= self.params@.len(),
                head == "job_id: "@ + self.job_id@ + "\nparams: \n"@,
                r@ == head + params_text(pairs_view(self.params@).subrange(0, i as int)),
            decreases self.params@.len() - i,
        {
            r.append("  '");
            r.append(self.params[i].0.as_str());
            r.append("': '");
            r.append(self.params[i].1.as_str());
            r.append("'\n");
            proof {
                let ps = pairs_view(self.params@);
                assert(ps.subrange(0, i + 1).drop_last() =~= ps.subrange(0, i as int));
                assert(r@ =~= head + params_text(ps.subrange(0, i + 1)));
            }
            i = i + 1;
        }
        proof {
            assert(pairs_view(self.params@).subrange(0, i as int) =~= pairs_view(self.params@));
        }
        r
    }
}

impl Batch {
    /// A readable listing of the batch and its jobs.
    pub fn describe(&self) -> (r: String)
        ensures
            r@ == batch_text(self@),
    {
        let mut r = String::from_str("batch_id: ");
        r.append(self.batch_id.as_str());
        r.append("\nauthor: ");
        r.append(self.author.as_str());
        r.append("\nsource_file: ");
        r.append(self.source_file.as_str());
        r.append("\nrepository_url: ");
        r.append(self.repository_url.as_str());
        r.append("\nbranch: ");
        r.append(self.branch.as_str());
        r.append("\njobs: \n");
        let ghost head = r@;
        let mut i: usize = 0;
        proof {
            assert(jobs_of(self.jobs@).subrange(0, 0) =~= Seq::<JobView>::empty());
        }
        while i < self.jobs.len()
            invariant
                0 <= i <= self.jobs@.len(),
                head == "batch_id: "@ + self.batch_id@ + "\nauthor: "@ + self.author@ + "\nsource_file: "@
                    + self.source_file@ + "\nrepository_url: "@ + self.repository_url@ + "\nbranch: "@
                    + self.branch@ + "\njobs: \n"@,
                r@ == head + jobs_text(jobs_of(self.jobs@).subrange(0, i as int)),
            decreases self.jobs@.len() - i,
        {
            let t = self.jobs[i].describe();
            r.append(t.as_str());
            proof {
                let js = jobs_of(self.jobs@);
                assert(js.subrange(0, i + 1).drop_last() =~= js.subrange(0, i as int));
                assert(r@ =~= head + jobs_text(js.subrange(0, i + 1)));
            }
            i = i + 1;
        }
        proof {
            assert(jobs_of(self.jobs@).subrange(0, i as int) =~= jobs_of(self.jobs@));
        }
        r
    }
}

} // verus!
