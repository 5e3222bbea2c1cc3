use vstd::prelude::*;
use crate::commands::same_text;
use crate::jobs::{enqueued, planned_job, DeferredJob, JobQueue};
use crate::pattern::{compiles_within_budget, filter_passes, finds_match, passes};
use crate::permissions::{can_act, can_act_spec};
use crate::rules::{resolution, resolution_is_minimal, Rule, RuleStore};

verus! {

/// The account a message counts as written by: for a webhook message, the
/// webhook's owner.
pub struct Author {
    pub id: u64,
    pub is_bot: bool,
}

/// A message as the pipeline reads it. `author` is `None` where the
/// effective author could not be found.
pub struct MessageEvent {
    pub channel_id: u64,
    pub message_id: u64,
    pub created_at: u64,
    pub author: Option<Author>,
    pub content: String,
}

/// The job, if any, that a message leads to: this system must be able to act
/// in the channel, the author must be known, a rule must apply, and the
/// message must pass that rule's content filter.
pub open spec fn evaluation(
    rows: Seq<Rule>,
    acting_perms: u64,
    self_id: u64,
    ev: MessageEvent,
    allow_notice_on_bots: bool,
) -> Option<DeferredJob> {
    if !can_act_spec(acting_perms) {
        None
    } else {
        match ev.author {
            None => None,
            Some(a) => match resolution(rows, ev.channel_id, a.id) {
                None => None,
                Some(rule) => if filter_passes(rule.content_pattern, ev.content@) {
                    Some(
                        planned_job(
                            ev.channel_id,
                            ev.message_id,
                            ev.created_at,
                            rule,
                            a.is_bot,
                            a.id == self_id,
                            allow_notice_on_bots,
                        ),
                    )
                } else {
                    None
                },
            },
        }
    }
}

/// Evaluates an incoming message against the rules and queues its deletion
/// where `evaluation` finds a job; returns the job queued.
pub fn evaluate_message(
    store: &RuleStore,
    queue: &mut JobQueue,
    acting_perms: u64,
    self_id: u64,
    ev: &MessageEvent,
    allow_notice_on_bots: bool,
) -> (r: Option<DeferredJob>)
    requires
        old(queue).wf(),
        ev.created_at + u32::MAX <= u64::MAX,
    ensures
        final(queue).wf(),
        r == evaluation(store@, acting_perms, self_id, *ev, allow_notice_on_bots),
        match r {
            Some(job) => final(queue)@ == enqueued(old(queue)@, job),
            None => final(queue)@ == old(queue)@,
        },
        r is Some && (forall|i: int|
            0 <= i < old(queue)@.len() ==> #[trigger] old(queue)@[i].message_id != ev.message_id)
            ==> final(queue)@ == old(queue)@.push(r->0),
{
    if !can_act(acting_perms) {
        return None;
    }
    let author = match &ev.author {
        Some(a) => a,
        None => {
            return None;
        },
    };
    let rule = match store.resolve(ev.channel_id, author.id) {
        Some(rule) => rule,
        None => {
            return None;
        },
    };
    if !passes(&rule, ev.content.as_str()) {
        return None;
    }
    let job = queue.schedule(
        ev.channel_id,
        ev.message_id,
        ev.created_at,
        &rule,
        author.is_bot,
        author.id == self_id,
        allow_notice_on_bots,
    );
    Some(job)
}

/// Whether the bot-notice setting enables notices for bots: only the value
/// `1` does.
pub fn notices_on_bots(setting: &Option<String>) -> (r: bool)
    ensures
        r == (setting matches Some(s) && s@ == "1"@),
{
    match setting {
        Some(s) => same_text(s.as_str(), "1"),
        None => false,
    }
}

/// Where this system may act and the author is known, a message leads to a
/// job exactly when some rule of its channel is global or the author's and
/// the least-timeout such rule lets the text pass its filter: always with no
/// pattern, else exactly when the pattern compiles and matches somewhere in
/// the text. The job is due the least such timeout after the message.
pub proof fn message_gets_least_timeout_job(
    rows: Seq<Rule>,
    acting_perms: u64,
    self_id: u64,
    ev: MessageEvent,
    allow_notice_on_bots: bool,
)
    requires
        can_act_spec(acting_perms),
        ev.author is Some,
        ev.created_at + u32::MAX <= u64::MAX,
    ensures
        ({
            let a = ev.author->0;
            let r = evaluation(rows, acting_perms, self_id, ev, allow_notice_on_bots);
            &&& (forall|j: int| 0 <= j < rows.len() ==> !#[trigger] rows[j].applies_to(ev.channel_id, a.id))
                ==> r is None
            &&& r matches Some(job) ==> {
                &&& job.channel_id == ev.channel_id
                &&& job.message_id == ev.message_id
                &&& exists|i: int|
                    0 <= i < rows.len() && #[trigger] rows[i].applies_to(ev.channel_id, a.id)
                        && job.fire_at == ev.created_at + rows[i].timeout_seconds && forall|j: int|
                        0 <= j < rows.len() && #[trigger] rows[j].applies_to(ev.channel_id, a.id)
                            ==> rows[i].timeout_seconds <= rows[j].timeout_seconds
            }
            &&& resolution(rows, ev.channel_id, a.id) matches Some(rule) ==> (r is Some <==> match rule.content_pattern {
                None => true,
                Some(p) => compiles_within_budget(p@) && finds_match(p@, ev.content@),
            })
        }),
{
    let a = ev.author->0;
    resolution_is_minimal(rows, ev.channel_id, a.id);
    if let Some(rule) = resolution(rows, ev.channel_id, a.id) {
        let i = choose|i: int|
            0 <= i < rows.len() && #[trigger] rows[i].applies_to(ev.channel_id, a.id) && rows[i].resolved()
                == rule && forall|j: int|
                0 <= j < rows.len() && #[trigger] rows[j].applies_to(ev.channel_id, a.id)
                    ==> rule.timeout_seconds <= rows[j].timeout_seconds;
        assert(rows[i].timeout_seconds == rule.timeout_seconds);
    }
}

} // verus!
