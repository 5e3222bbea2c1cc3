use autoclear::commands::{
    is_numeric, parse_start_args, start, stop, CommandError, NamedArg, StartArgs,
    DEFAULT_TIMEOUT_SECONDS,
};
use autoclear::jobs::{notice_for, plan_job, DeferredJob, JobQueue};
use autoclear::pattern::{judge_pattern, passes, search_verdict, validate_pattern, PatternError};
use autoclear::permissions::{
    can_act, manages, may_configure, ADMINISTRATOR, MANAGE_GUILD, MANAGE_MESSAGES, MANAGE_WEBHOOKS,
};
use autoclear::pipeline::{evaluate_message, notices_on_bots, Author, MessageEvent};
use autoclear::rules::{ResolvedRule, Rule, RuleStore};

const C: u64 = 100;
const OTHER_CHANNEL: u64 = 200;
const U: u64 = 7;
const HUMAN: u64 = 8;
const SELF_ID: u64 = 1;
const ACTING: u64 = MANAGE_MESSAGES | MANAGE_WEBHOOKS;

fn args(a: &[&str]) -> Vec<String> {
    a.iter().map(|s| s.to_string()).collect()
}

fn start_args(timeout: u32, notice: Option<&str>, pattern: Option<&str>) -> StartArgs {
    StartArgs {
        timeout_seconds: timeout,
        notice_text: notice.map(|s| s.to_string()),
        content_pattern: pattern.map(|s| s.to_string()),
    }
}

fn rule(channel: u64, user: Option<u64>, timeout: u32) -> Rule {
    Rule {
        channel_id: channel,
        user_id: user,
        timeout_seconds: timeout,
        notice_text: None,
        content_pattern: None,
    }
}

fn event(message: u64, created_at: u64, author: u64, is_bot: bool, content: &str) -> MessageEvent {
    MessageEvent {
        channel_id: C,
        message_id: message,
        created_at,
        author: Some(Author { id: author, is_bot }),
        content: content.to_string(),
    }
}

fn jobs_of(q: &JobQueue) -> Vec<(u64, u64, u64, Option<String>)> {
    (0..q.len())
        .map(|i| {
            let j = q.get(i);
            (j.channel_id, j.message_id, j.fire_at, j.notice_text.clone())
        })
        .collect()
}

fn store_with(rules: Vec<Rule>) -> RuleStore {
    let mut s = RuleStore::new();
    for r in rules {
        s.replace_rule(r);
    }
    s
}

#[test]
fn global_rule_schedules_job_at_creation_plus_timeout() {
    let store = store_with(vec![rule(C, None, 10)]);
    let mut q = JobQueue::new();
    let job = evaluate_message(&store, &mut q, ACTING, SELF_ID, &event(11, 1000, HUMAN, false, "hi"), false);
    let job = job.expect("a job");
    assert_eq!((job.channel_id, job.message_id, job.fire_at), (C, 11, 1010));
    assert_eq!(job.notice_text, None);
    assert_eq!(jobs_of(&q), vec![(C, 11, 1010, None)]);
}

#[test]
fn user_rule_with_smaller_timeout_wins() {
    let store = store_with(vec![rule(C, None, 10), rule(C, Some(U), 5)]);
    let r = store.resolve(C, U).expect("a rule");
    assert_eq!(r.timeout_seconds, 5);
    let r = store.resolve(C, HUMAN).expect("a rule");
    assert_eq!(r.timeout_seconds, 10);
    let mut q = JobQueue::new();
    let job = evaluate_message(&store, &mut q, ACTING, SELF_ID, &event(12, 50, U, false, "x"), false).unwrap();
    assert_eq!(job.fire_at, 55);
}

#[test]
fn user_rule_with_larger_timeout_does_not_win() {
    let store = store_with(vec![rule(C, Some(U), 30), rule(C, None, 10)]);
    assert_eq!(store.resolve(C, U).unwrap().timeout_seconds, 10);
}

#[test]
fn resolver_finds_nothing_without_applicable_rule() {
    let empty = RuleStore::new();
    assert!(empty.resolve(C, U).is_none());
    let store = store_with(vec![rule(OTHER_CHANNEL, None, 3), rule(C, Some(U), 3)]);
    assert!(store.resolve(C, HUMAN).is_none());
    assert_eq!(store.resolve(C, U).unwrap().timeout_seconds, 3);
}

#[test]
fn pattern_rule_only_schedules_matching_messages() {
    let mut store = RuleStore::new();
    assert_eq!(start(&mut store, C, &vec![], &start_args(10, None, Some("https?://"))), Ok(()));
    let mut q = JobQueue::new();
    assert!(evaluate_message(&store, &mut q, ACTING, SELF_ID, &event(20, 0, HUMAN, false, "hello world"), false).is_none());
    assert_eq!(q.len(), 0);
    assert!(evaluate_message(&store, &mut q, ACTING, SELF_ID, &event(21, 0, HUMAN, false, "see https://x"), false).is_some());
    assert_eq!(jobs_of(&q), vec![(C, 21, 10, None)]);
}

#[test]
fn bot_notice_suppressed_unless_allowed() {
    let mut store = RuleStore::new();
    start(&mut store, C, &vec![], &start_args(10, Some("bye"), None)).unwrap();
    let mut q = JobQueue::new();
    let job = evaluate_message(&store, &mut q, ACTING, SELF_ID, &event(30, 0, 9, true, "beep"), false).unwrap();
    assert_eq!(job.notice_text, None);
    let job = evaluate_message(&store, &mut q, ACTING, SELF_ID, &event(31, 0, 9, true, "beep"), true).unwrap();
    assert_eq!(job.notice_text, Some("bye".to_string()));
    let job = evaluate_message(&store, &mut q, ACTING, SELF_ID, &event(32, 0, HUMAN, false, "hi"), false).unwrap();
    assert_eq!(job.notice_text, Some("bye".to_string()));
    let job = evaluate_message(&store, &mut q, ACTING, SELF_ID, &event(33, 0, SELF_ID, false, "me"), true).unwrap();
    assert_eq!(job.notice_text, None);
}

#[test]
fn pinned_message_job_is_retracted_others_stay() {
    let store = store_with(vec![rule(C, None, 10)]);
    let mut q = JobQueue::new();
    evaluate_message(&store, &mut q, ACTING, SELF_ID, &event(2, 0, HUMAN, false, "m2"), false).unwrap();
    evaluate_message(&store, &mut q, ACTING, SELF_ID, &event(3, 0, HUMAN, false, "m3"), false).unwrap();
    let removed = q.retract_pinned(&vec![2, 99]);
    assert_eq!(jobs_of(&q), vec![(C, 3, 10, None)]);
    assert_eq!(removed.iter().map(|j| j.message_id).collect::<Vec<u64>>(), vec![2]);
}

#[test]
fn pin_guard_removes_by_message_id() {
    let mut q = JobQueue::new();
    q.enqueue(DeferredJob { channel_id: OTHER_CHANNEL, message_id: 5, fire_at: 9, notice_text: None });
    q.enqueue(DeferredJob { channel_id: C, message_id: 6, fire_at: 9, notice_text: None });
    assert!(q.retract_pinned(&vec![]).is_empty());
    assert_eq!(q.len(), 2);
    let removed = q.retract_pinned(&vec![5]);
    assert_eq!(removed.len(), 1);
    assert_eq!((removed[0].channel_id, removed[0].message_id), (OTHER_CHANNEL, 5));
    assert_eq!(jobs_of(&q), vec![(C, 6, 9, None)]);
}

#[test]
fn enqueue_keeps_one_job_per_message() {
    let mut q = JobQueue::new();
    q.enqueue(DeferredJob { channel_id: C, message_id: 5, fire_at: 9, notice_text: None });
    q.enqueue(DeferredJob { channel_id: C, message_id: 6, fire_at: 9, notice_text: None });
    q.enqueue(DeferredJob { channel_id: C, message_id: 5, fire_at: 12, notice_text: Some("n".to_string()) });
    assert_eq!(jobs_of(&q), vec![(C, 6, 9, None), (C, 5, 12, Some("n".to_string()))]);
    q.enqueue(DeferredJob { channel_id: C, message_id: 7, fire_at: 1, notice_text: None });
    assert_eq!(jobs_of(&q), vec![(C, 6, 9, None), (C, 5, 12, Some("n".to_string())), (C, 7, 1, None)]);
}

#[test]
fn no_job_without_acting_permissions_or_author() {
    let store = store_with(vec![rule(C, None, 10)]);
    let mut q = JobQueue::new();
    assert!(evaluate_message(&store, &mut q, MANAGE_MESSAGES, SELF_ID, &event(1, 0, HUMAN, false, "x"), false).is_none());
    let mut ev = event(1, 0, HUMAN, false, "x");
    ev.author = None;
    assert!(evaluate_message(&store, &mut q, ACTING, SELF_ID, &ev, false).is_none());
    assert_eq!(q.len(), 0);
}

#[test]
fn repeated_start_leaves_one_row_per_key() {
    let mut store = RuleStore::new();
    let a = start_args(15, None, None);
    start(&mut store, C, &vec![], &a).unwrap();
    start(&mut store, C, &vec![], &a).unwrap();
    assert_eq!(store.len(), 1);
    start(&mut store, C, &vec![U, HUMAN], &a).unwrap();
    start(&mut store, C, &vec![U, HUMAN], &a).unwrap();
    assert_eq!(store.len(), 3);
    start(&mut store, C, &vec![], &start_args(20, None, None)).unwrap();
    assert_eq!(store.len(), 3);
    assert_eq!(store.resolve(C, 55).unwrap().timeout_seconds, 20);
}

#[test]
fn long_pattern_is_rejected_and_not_stored() {
    let mut store = RuleStore::new();
    let long = "a".repeat(65);
    assert_eq!(start(&mut store, C, &vec![], &start_args(10, None, Some(&long))), Err(CommandError::PatternTooLong));
    assert_eq!(store.len(), 0);
    let ok = "a".repeat(64);
    assert_eq!(start(&mut store, C, &vec![], &start_args(10, None, Some(&ok))), Ok(()));
    assert_eq!(store.len(), 1);
}

#[test]
fn oversized_compiled_pattern_is_rejected_and_not_stored() {
    let mut store = RuleStore::new();
    assert_eq!(start(&mut store, C, &vec![U], &start_args(10, None, Some(r"\w+\w+\w+"))), Err(CommandError::PatternTooLarge));
    assert_eq!(start(&mut store, C, &vec![], &start_args(10, None, Some("("))), Err(CommandError::PatternTooLarge));
    assert_eq!(store.len(), 0);
}

#[test]
fn pattern_validation_outcomes() {
    assert_eq!(validate_pattern("https?://"), Ok(()));
    assert_eq!(validate_pattern(&"é".repeat(40)), Ok(()));
    assert_eq!(validate_pattern(&"é".repeat(65)), Err(PatternError::TooLong));
    assert_eq!(validate_pattern(r"\w+"), Err(PatternError::TooLarge));
    assert_eq!(judge_pattern(65, true), Err(PatternError::TooLong));
    assert_eq!(judge_pattern(3, false), Err(PatternError::TooLarge));
    assert_eq!(judge_pattern(64, true), Ok(()));
}

#[test]
fn content_filter_is_unanchored() {
    let none = ResolvedRule { timeout_seconds: 1, notice_text: None, content_pattern: None };
    assert!(passes(&none, ""));
    let with = ResolvedRule { timeout_seconds: 1, notice_text: None, content_pattern: Some("b+c".to_string()) };
    assert!(passes(&with, "aaabbcdd"));
    assert!(!passes(&with, "acb"));
    let broken = ResolvedRule { timeout_seconds: 1, notice_text: None, content_pattern: Some("(".to_string()) };
    assert!(!passes(&broken, "("));
    assert!(search_verdict(Some(true)));
    assert!(!search_verdict(Some(false)));
    assert!(!search_verdict(None));
}

#[test]
fn stop_removes_only_named_rules() {
    let mut store = store_with(vec![rule(C, None, 10), rule(C, Some(U), 5), rule(C, Some(HUMAN), 5), rule(OTHER_CHANNEL, None, 1)]);
    stop(&mut store, C, &vec![U]);
    assert_eq!(store.len(), 3);
    assert_eq!(store.resolve(C, U).unwrap().timeout_seconds, 10);
    stop(&mut store, C, &vec![]);
    assert_eq!(store.len(), 2);
    assert!(store.resolve(C, U).is_none());
    assert_eq!(store.resolve(C, HUMAN).unwrap().timeout_seconds, 5);
    assert_eq!(store.resolve(OTHER_CHANNEL, U).unwrap().timeout_seconds, 1);
}

#[test]
fn stop_leaves_queued_jobs() {
    let mut store = store_with(vec![rule(C, None, 10)]);
    let mut q = JobQueue::new();
    evaluate_message(&store, &mut q, ACTING, SELF_ID, &event(4, 0, HUMAN, false, "x"), false).unwrap();
    stop(&mut store, C, &vec![]);
    assert_eq!(q.len(), 1);
}

#[test]
fn listing_puts_global_rule_first() {
    let store = store_with(vec![rule(C, Some(U), 5), rule(OTHER_CHANNEL, None, 1), rule(C, None, 10), rule(C, Some(HUMAN), 7)]);
    let listed: Vec<(Option<u64>, u32)> = store.rules_for_channel(C).iter().map(|r| (r.user_id, r.timeout_seconds)).collect();
    assert_eq!(listed, vec![(None, 10), (Some(U), 5), (Some(HUMAN), 7)]);
    assert!(RuleStore::new().rules_for_channel(C).is_empty());
}

#[test]
fn parse_defaults_and_values() {
    let a = parse_start_args(&args(&[])).unwrap();
    assert_eq!(a.timeout_seconds, DEFAULT_TIMEOUT_SECONDS);
    assert_eq!(a.timeout_seconds, 10);
    assert_eq!(a.notice_text, None);
    assert_eq!(a.content_pattern, None);
    let a = parse_start_args(&args(&["300", "-m", "Message deleted", "-r", "(http://)|(https://)"])).unwrap();
    assert_eq!(a.timeout_seconds, 300);
    assert_eq!(a.notice_text, Some("Message deleted".to_string()));
    assert_eq!(a.content_pattern, Some("(http://)|(https://)".to_string()));
    let a = parse_start_args(&args(&["--regex", "x", "--message", "y", "5", "junk"])).unwrap();
    assert_eq!((a.timeout_seconds, a.notice_text, a.content_pattern), (5, Some("y".to_string()), Some("x".to_string())));
}

#[test]
fn parse_takes_announced_value_verbatim() {
    let a = parse_start_args(&args(&["-m", "-r", "first", "second"])).unwrap();
    assert_eq!(a.notice_text, Some("-r".to_string()));
    assert_eq!(a.content_pattern, None);
    let a = parse_start_args(&args(&["-r", "-m", "first"])).unwrap();
    assert_eq!(a.content_pattern, Some("-m".to_string()));
    assert_eq!(a.notice_text, None);
    let a = parse_start_args(&args(&["-r", "42"])).unwrap();
    assert_eq!(a.timeout_seconds, 42);
    assert_eq!(a.content_pattern, None);
}

#[test]
fn parse_rejects_malformed_duration() {
    assert!(matches!(parse_start_args(&args(&["99999999999"])), Err(CommandError::MalformedDuration)));
    assert!(matches!(parse_start_args(&args(&[""])), Err(CommandError::MalformedDuration)));
    assert_eq!(parse_start_args(&args(&["4294967295"])).unwrap().timeout_seconds, u32::MAX);
    assert!(matches!(parse_start_args(&args(&["4294967296"])), Err(CommandError::MalformedDuration)));
}

#[test]
fn numeric_means_ascii_digits() {
    assert!(is_numeric(&"0123".to_string()));
    assert!(is_numeric(&String::new()));
    assert!(!is_numeric(&"12a".to_string()));
    assert!(!is_numeric(&"١٢".to_string()));
    assert!(!is_numeric(&"-1".to_string()));
}

#[test]
fn named_arg_value() {
    assert_eq!(NamedArg::Provided("v".to_string()).ok(), Some("v".to_string()));
    assert_eq!(NamedArg::Next.ok(), None);
    assert_eq!(NamedArg::NotProvided.ok(), None);
}

#[test]
fn permission_decisions() {
    assert!(can_act(ACTING));
    assert!(!can_act(MANAGE_MESSAGES));
    assert!(!can_act(MANAGE_WEBHOOKS | ADMINISTRATOR));
    assert!(manages(MANAGE_GUILD));
    assert!(manages(ADMINISTRATOR));
    assert!(!manages(MANAGE_WEBHOOKS));
    assert!(may_configure(Some(MANAGE_MESSAGES), &vec![]));
    assert!(may_configure(None, &vec![0, ADMINISTRATOR]));
    assert!(may_configure(Some(0), &vec![MANAGE_GUILD]));
    assert!(!may_configure(Some(MANAGE_WEBHOOKS), &vec![0]));
    assert!(!may_configure(None, &vec![]));
}

#[test]
fn notice_and_plan() {
    let bye = Some("bye".to_string());
    assert_eq!(notice_for(&bye, false, false, false), bye);
    assert_eq!(notice_for(&bye, true, false, false), None);
    assert_eq!(notice_for(&bye, true, false, true), bye);
    assert_eq!(notice_for(&bye, false, true, true), None);
    let r = ResolvedRule { timeout_seconds: 30, notice_text: bye.clone(), content_pattern: None };
    let j = plan_job(C, 9, 70, &r, false, false, false);
    assert_eq!((j.channel_id, j.message_id, j.fire_at, j.notice_text), (C, 9, 100, bye));
}

#[test]
fn bot_notice_setting() {
    assert!(notices_on_bots(&Some("1".to_string())));
    assert!(!notices_on_bots(&Some("0".to_string())));
    assert!(!notices_on_bots(&Some("11".to_string())));
    assert!(!notices_on_bots(&None));
}
