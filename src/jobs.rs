use vstd::prelude::*;
use crate::rules::{copy_text, ResolvedRule};

verus! {

/// A queued instruction to delete one message at `fire_at`.
pub struct DeferredJob {
    pub channel_id: u64,
    pub message_id: u64,
    pub fire_at: u64,
    pub notice_text: Option<String>,
}

impl DeferredJob {
    pub fn duplicate(&self) -> (r: DeferredJob)
        ensures
            r == *self,
    {
        DeferredJob {
            channel_id: self.channel_id,
            message_id: self.message_id,
            fire_at: self.fire_at,
            notice_text: copy_text(&self.notice_text),
        }
    }
}

/// The notice stored with a job: none for this system's own messages, none
/// for a bot's messages unless bot notices are allowed, else the rule's.
pub open spec fn notice_spec(
    notice: Option<String>,
    author_is_bot: bool,
    author_is_self: bool,
    allow_notice_on_bots: bool,
) -> Option<String> {
    if author_is_self || (author_is_bot && !allow_notice_on_bots) {
        None
    } else {
        notice
    }
}

/// The job that schedules the deletion of a message under `rule`.
pub open spec fn planned_job(
    channel_id: u64,
    message_id: u64,
    created_at: u64,
    rule: ResolvedRule,
    author_is_bot: bool,
    author_is_self: bool,
    allow_notice_on_bots: bool,
) -> DeferredJob {
    DeferredJob {
        channel_id,
        message_id,
        fire_at: (created_at + rule.timeout_seconds) as u64,
        notice_text: notice_spec(rule.notice_text, author_is_bot, author_is_self, allow_notice_on_bots),
    }
}

pub fn notice_for(
    notice: &Option<String>,
    author_is_bot: bool,
    author_is_self: bool,
    allow_notice_on_bots: bool,
) -> (r: Option<String>)
    ensures
        r == notice_spec(*notice, author_is_bot, author_is_self, allow_notice_on_bots),
{
    if author_is_self || (author_is_bot && !allow_notice_on_bots) {
        None
    } else {
        copy_text(notice)
    }
}

/// Computes the deletion job of a message: due `timeout_seconds` after its
/// creation, with the notice that `notice_for` keeps.
pub fn plan_job(
    channel_id: u64,
    message_id: u64,
    created_at: u64,
    rule: &ResolvedRule,
    author_is_bot: bool,
    author_is_self: bool,
    allow_notice_on_bots: bool,
) -> (r: DeferredJob)
    requires
        created_at + rule.timeout_seconds <= u64::MAX,
    ensures
        r == planned_job(channel_id, message_id, created_at, *rule, author_is_bot, author_is_self, allow_notice_on_bots),
{
    DeferredJob {
        channel_id,
        message_id,
        fire_at: created_at + rule.timeout_seconds as u64,
        notice_text: notice_for(&rule.notice_text, author_is_bot, author_is_self, allow_notice_on_bots),
    }
}


/// The jobs, in their order, whose message is among `ids` (`among`) or is
/// not (`!among`).
pub open spec fn jobs_by_message(jobs: Seq<DeferredJob>, ids: Seq<u64>, among: bool) -> Seq<DeferredJob>
    decreases jobs.len(),
{
    if jobs.len() == 0 {
        jobs
    } else {
        let rest = jobs_by_message(jobs.drop_last(), ids, among);
        if ids.contains(jobs.last().message_id) == among {
            rest.push(jobs.last())
        } else {
            rest
        }
    }
}

/// The queue after `job` is enqueued in place of any job for its message.
pub open spec fn enqueued(jobs: Seq<DeferredJob>, job: DeferredJob) -> Seq<DeferredJob> {
    jobs_by_message(jobs, seq![job.message_id], false).push(job)
}

/// No two jobs target the same message.
pub open spec fn messages_unique(jobs: Seq<DeferredJob>) -> bool {
    forall|i: int, j: int|
        0 <= i < jobs.len() && 0 <= j < jobs.len() && i != j ==> jobs[i].message_id
            != jobs[j].message_id
}

/// Selecting jobs by message keeps exactly the jobs given whose message is
/// (or is not) among `ids`, keeps messages unique, and keeps everything
/// where no message is excluded.
pub proof fn lemma_jobs_by_message(jobs: Seq<DeferredJob>, ids: Seq<u64>, among: bool)
    ensures
        forall|x: DeferredJob| #[trigger] jobs_by_message(jobs, ids, among).contains(x) <==> (
            jobs.contains(x) && ids.contains(x.message_id) == among),
        messages_unique(jobs) ==> messages_unique(jobs_by_message(jobs, ids, among)),
        (forall|i: int| 0 <= i < jobs.len() ==> ids.contains(#[trigger] jobs[i].message_id) == among)
            ==> jobs_by_message(jobs, ids, among) == jobs,
    decreases jobs.len(),
{
    if jobs.len() > 0 {
        let init = jobs.drop_last();
        lemma_jobs_by_message(init, ids, among);
        let w0 = jobs_by_message(init, ids, among);
        let w = jobs_by_message(jobs, ids, among);
        assert forall|x: DeferredJob| #[trigger] w.contains(x) <==> (jobs.contains(x)
            && ids.contains(x.message_id) == among) by {
            if w.contains(x) {
                let i = choose|i: int| 0 <= i < w.len() && w[i] == x;
                if i < w0.len() {
                    assert(w0[i] == x);
                    assert(w0.contains(x));
                    let j = choose|j: int| 0 <= j < init.len() && init[j] == x;
                    assert(jobs[j] == x);
                } else {
                    assert(jobs[jobs.len() - 1] == x);
                }
            }
            if jobs.contains(x) && ids.contains(x.message_id) == among {
                let j = choose|j: int| 0 <= j < jobs.len() && jobs[j] == x;
                if j < jobs.len() - 1 {
                    assert(init[j] == x);
                    assert(init.contains(x));
                    assert(w0.contains(x));
                    let i = choose|i: int| 0 <= i < w0.len() && w0[i] == x;
                    assert(w[i] == w0[i]);
                } else {
                    assert(w[w.len() - 1] == x);
                }
            }
        }
        if messages_unique(jobs) {
            assert(messages_unique(init)) by {
                assert forall|i: int, j: int|
                    0 <= i < init.len() && 0 <= j < init.len() && i != j implies init[i].message_id
                    != init[j].message_id by {
                    assert(init[i] == jobs[i] && init[j] == jobs[j]);
                }
            }
            if ids.contains(jobs.last().message_id) == among {
                assert forall|i: int| 0 <= i < w0.len() implies w0[i].message_id
                    != jobs.last().message_id by {
                    assert(w0.contains(w0[i]));
                    let j = choose|j: int| 0 <= j < init.len() && init[j] == w0[i];
                    assert(jobs[j] == init[j]);
                }
                assert forall|i: int, j: int|
                    0 <= i < w.len() && 0 <= j < w.len() && i != j implies w[i].message_id
                    != w[j].message_id by {
                    if i < w0.len() && j < w0.len() {
                        assert(w[i] == w0[i] && w[j] == w0[j]);
                    } else if i < w0.len() {
                        assert(w[i] == w0[i]);
                    } else {
                        assert(w[j] == w0[j]);
                    }
                }
            }
        }
        if forall|i: int| 0 <= i < jobs.len() ==> ids.contains(#[trigger] jobs[i].message_id) == among {
            assert forall|i: int| 0 <= i < init.len() implies ids.contains(#[trigger] init[i].message_id) == among by {
                assert(init[i] == jobs[i]);
            }
            assert(ids.contains(jobs[jobs.len() - 1].message_id) == among);
            assert(init.push(jobs.last()) == jobs);
        }
    }
}

proof fn lemma_enqueued(jobs: Seq<DeferredJob>, job: DeferredJob)
    ensures
        messages_unique(jobs) ==> messages_unique(enqueued(jobs, job)),
        (forall|i: int| 0 <= i < jobs.len() ==> #[trigger] jobs[i].message_id != job.message_id)
            ==> enqueued(jobs, job) == jobs.push(job),
{
    let ids = seq![job.message_id];
    assert forall|m: u64| ids.contains(m) <==> m == job.message_id by {
        if m == job.message_id {
            assert(ids[0] == m);
        }
    }
    lemma_jobs_by_message(jobs, ids, false);
    let w = jobs_by_message(jobs, ids, false);
    let r = enqueued(jobs, job);
    if messages_unique(jobs) {
        assert forall|i: int, j: int|
            0 <= i < r.len() && 0 <= j < r.len() && i != j implies r[i].message_id
            != r[j].message_id by {
            if i < w.len() && j < w.len() {
                assert(r[i] == w[i] && r[j] == w[j]);
            } else if i < w.len() {
                assert(r[i] == w[i]);
                assert(w.contains(w[i]));
            } else {
                assert(r[j] == w[j]);
                assert(w.contains(w[j]));
            }
        }
    }
}

/// A pin update removes a queued job exactly when its message is among the
/// pinned ones; every other job stays, and the jobs removed are handed back.
pub proof fn pin_guard_removes_exactly_pinned(jobs: Seq<DeferredJob>, pinned: Seq<u64>)
    ensures
        forall|x: DeferredJob| jobs.contains(x) ==> (#[trigger] jobs_by_message(jobs, pinned, false).contains(x)
            <==> !pinned.contains(x.message_id)),
        forall|x: DeferredJob| #[trigger] jobs_by_message(jobs, pinned, false).contains(x) ==> jobs.contains(x),
        forall|x: DeferredJob| #[trigger] jobs_by_message(jobs, pinned, true).contains(x) <==> (
            jobs.contains(x) && pinned.contains(x.message_id)),
{
    lemma_jobs_by_message(jobs, pinned, false);
    lemma_jobs_by_message(jobs, pinned, true);
}

/// The deferred-deletion queue: at most one job for each message.
pub struct JobQueue {
    jobs: Vec<DeferredJob>,
}

impl JobQueue {
    pub closed spec fn view(&self) -> Seq<DeferredJob> {
        self.jobs@
    }

    pub open spec fn wf(&self) -> bool {
        messages_unique(self@)
    }

    pub fn new() -> (r: JobQueue)
        ensures
            r.wf(),
            r@ == Seq::<DeferredJob>::empty(),
    {
        JobQueue { jobs: Vec::new() }
    }

    pub fn len(&self) -> (r: usize)
        ensures
            r == self@.len(),
    {
        self.jobs.len()
    }

    pub fn get(&self, i: usize) -> (r: &DeferredJob)
        requires
            i < self@.len(),
        ensures
            *r == self@[i as int],
    {
        &self.jobs[i]
    }

    /// Queues `job`, removing any job already queued for its message; where
    /// there is none, the queue grows by `job` alone.
    pub fn enqueue(&mut self, job: DeferredJob)
        requires
            old(self).wf(),
        ensures
            final(self).wf(),
            final(self)@ == enqueued(old(self)@, job),
            (forall|i: int| 0 <= i < old(self)@.len() ==> #[trigger] old(self)@[i].message_id
                != job.message_id) ==> final(self)@ == old(self)@.push(job),
    {
        let ghost ids = seq![job.message_id];
        let mut kept: Vec<DeferredJob> = Vec::new();
        let mut i: usize = 0;
        while i < self.jobs.len()
            invariant
                0 <= i <= self.jobs@.len(),
                ids == seq![job.message_id],
                kept@ == jobs_by_message(self.jobs@.subrange(0, i as int), ids, false),
            decreases self.jobs@.len() - i,
        {
            let queued = &self.jobs[i];
            assert(self.jobs@.subrange(0, i + 1).drop_last() == self.jobs@.subrange(0, i as int));
            assert(self.jobs@.subrange(0, i + 1).last() == self.jobs@[i as int]);
            if queued.message_id == job.message_id {
                assert(ids[0] == queued.message_id);
            }
            if queued.message_id != job.message_id {
                kept.push(queued.duplicate());
            }
            i = i + 1;
        }
        assert(self.jobs@.subrange(0, i as int) == self.jobs@);
        proof {
            lemma_enqueued(self.jobs@, job);
        }
        kept.push(job);
        self.jobs = kept;
    }

    /// The Deletion Scheduler: queues the deletion of a message under `rule`,
    /// due `timeout_seconds` after `created_at`, and returns the job queued.
    pub fn schedule(
        &mut self,
        channel_id: u64,
        message_id: u64,
        created_at: u64,
        rule: &ResolvedRule,
        author_is_bot: bool,
        author_is_self: bool,
        allow_notice_on_bots: bool,
    ) -> (r: DeferredJob)
        requires
            old(self).wf(),
            created_at + rule.timeout_seconds <= u64::MAX,
        ensures
            final(self).wf(),
            r == planned_job(channel_id, message_id, created_at, *rule, author_is_bot, author_is_self, allow_notice_on_bots),
            final(self)@ == enqueued(old(self)@, r),
            (forall|i: int| 0 <= i < old(self)@.len() ==> #[trigger] old(self)@[i].message_id
                != message_id) ==> final(self)@ == old(self)@.push(r),
    {
        let job = plan_job(channel_id, message_id, created_at, rule, author_is_bot, author_is_self, allow_notice_on_bots);
        let r = job.duplicate();
        self.enqueue(job);
        r
    }

    /// The Pin Guard: removes every job whose message is pinned, and nothing
    /// else; returns the jobs removed, in their order.
    pub fn retract_pinned(&mut self, pinned: &Vec<u64>) -> (r: Vec<DeferredJob>)
        requires
            old(self).wf(),
        ensures
            final(self).wf(),
            final(self)@ == jobs_by_message(old(self)@, pinned@, false),
            r@ == jobs_by_message(old(self)@, pinned@, true),
    {
        let mut kept: Vec<DeferredJob> = Vec::new();
        let mut removed: Vec<DeferredJob> = Vec::new();
        let mut i: usize = 0;
        while i < self.jobs.len()
            invariant
                0 <= i <= self.jobs@.len(),
                kept@ == jobs_by_message(self.jobs@.subrange(0, i as int), pinned@, false),
                removed@ == jobs_by_message(self.jobs@.subrange(0, i as int), pinned@, true),
            decreases self.jobs@.len() - i,
        {
            let job = &self.jobs[i];
            assert(self.jobs@.subrange(0, i + 1).drop_last() == self.jobs@.subrange(0, i as int));
            assert(self.jobs@.subrange(0, i + 1).last() == self.jobs@[i as int]);
            if contains_id(pinned, job.message_id) {
                removed.push(job.duplicate());
            } else {
                kept.push(job.duplicate());
            }
            i = i + 1;
        }
        assert(self.jobs@.subrange(0, i as int) == self.jobs@);
        proof {
            lemma_jobs_by_message(self.jobs@, pinned@, false);
        }
        self.jobs = kept;
        removed
    }
}

/// Whether `id` is among `ids`.
pub fn contains_id(ids: &Vec<u64>, id: u64) -> (r: bool)
    ensures
        r == ids@.contains(id),
{
    let mut i: usize = 0;
    while i < ids.len()
        invariant
            0 <= i <= ids@.len(),
            forall|j: int| 0 <= j < i ==> ids@[j] != id,
        decreases ids@.len() - i,
    {
        if ids[i] == id {
            return true;
        }
        i = i + 1;
    }
    false
}

} // verus!
