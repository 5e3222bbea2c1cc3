use vstd::prelude::*;
use crate::pattern::{pattern_check, validate_pattern, PatternError};
use crate::rules::{
    copy_text, keys_unique, lemma_replaced_unique, lemma_without_key, replace_is_idempotent, replaced,
    without_key, Rule, RuleStore,
};

verus! {

/// Delay applied when `start` names none.
pub const DEFAULT_TIMEOUT_SECONDS: u32 = 10;

/// Why a rule command is refused; the store is left as it was.
#[derive(PartialEq, Eq, Structural, Debug, Clone, Copy)]
pub enum CommandError {
    /// A duration made of digits that does not fit in seconds.
    MalformedDuration,
    /// A content pattern over the length limit.
    PatternTooLong,
    /// A content pattern that does not compile within the size budget.
    PatternTooLarge,
}

/// A named argument of `start`: absent, announced by its flag, or given.
pub enum NamedArg {
    NotProvided,
    Next,
    Provided(String),
}

impl NamedArg {
    pub open spec fn value(self) -> Option<String> {
        match self {
            NamedArg::Provided(s) => Some(s),
            _ => None,
        }
    }

    /// The value, where one was given.
    pub fn ok(&self) -> (r: Option<String>)
        ensures
            r == self.value(),
    {
        match self {
            NamedArg::Provided(s) => Some(s.clone()),
            _ => None,
        }
    }
}

/// What `start` asks for.
pub struct StartArgs {
    pub timeout_seconds: u32,
    pub notice_text: Option<String>,
    pub content_pattern: Option<String>,
}

/// Whether every character is an ASCII digit; the empty text counts.
pub open spec fn all_digits(s: Seq<char>) -> bool {
    forall|i: int| 0 <= i < s.len() ==> '0' <= #[trigger] s[i] <= '9'
}

/// The number that a text of digits writes in decimal.
pub open spec fn decimal_value(s: Seq<char>) -> nat
    decreases s.len(),
{
    if s.len() == 0 {
        0
    } else {
        decimal_value(s.drop_last()) * 10 + ((s.last() as u32) - 48) as nat
    }
}

/// The parser's state after some arguments.
pub struct ArgState {
    pub timeout_seconds: u32,
    pub regex: NamedArg,
    pub message: NamedArg,
}

pub open spec fn is_regex_flag(tok: Seq<char>) -> bool {
    tok == "-r"@ || tok == "--regex"@
}

pub open spec fn is_message_flag(tok: Seq<char>) -> bool {
    tok == "-m"@ || tok == "--message"@
}

/// One argument read in `st`: a number sets the duration; a flag's value
/// fills the pattern first, then the notice; a flag announces its value;
/// anything else is ignored.
pub open spec fn arg_step(st: ArgState, tok: String) -> Result<ArgState, CommandError> {
    if all_digits(tok@) {
        if tok@.len() > 0 && decimal_value(tok@) <= u32::MAX {
            Ok(ArgState { timeout_seconds: decimal_value(tok@) as u32, ..st })
        } else {
            Err(CommandError::MalformedDuration)
        }
    } else if st.regex is Next {
        Ok(ArgState { regex: NamedArg::Provided(tok), ..st })
    } else if st.message is Next {
        Ok(ArgState { message: NamedArg::Provided(tok), ..st })
    } else if is_regex_flag(tok@) {
        Ok(ArgState { regex: NamedArg::Next, ..st })
    } else if is_message_flag(tok@) {
        Ok(ArgState { message: NamedArg::Next, ..st })
    } else {
        Ok(st)
    }
}

/// The parser's state after all of `args`, read left to right.
pub open spec fn args_state(args: Seq<String>) -> Result<ArgState, CommandError>
    decreases args.len(),
{
    if args.len() == 0 {
        Ok(
            ArgState {
                timeout_seconds: DEFAULT_TIMEOUT_SECONDS,
                regex: NamedArg::NotProvided,
                message: NamedArg::NotProvided,
            },
        )
    } else {
        match args_state(args.drop_last()) {
            Ok(st) => arg_step(st, args.last()),
            Err(e) => Err(e),
        }
    }
}

/// What the arguments of `start` ask for.
pub open spec fn start_args_spec(args: Seq<String>) -> Result<StartArgs, CommandError> {
    match args_state(args) {
        Ok(st) => Ok(
            StartArgs {
                timeout_seconds: st.timeout_seconds,
                notice_text: st.message.value(),
                content_pattern: st.regex.value(),
            },
        ),
        Err(e) => Err(e),
    }
}

proof fn lemma_error_persists(args: Seq<String>, k: int)
    requires
        0 <= k <= args.len(),
        args_state(args.subrange(0, k)) is Err,
    ensures
        args_state(args) == args_state(args.subrange(0, k)),
    decreases args.len(),
{
    if args.len() == k {
        assert(args.subrange(0, k) == args);
    } else {
        assert(args.drop_last().subrange(0, k) == args.subrange(0, k));
        lemma_error_persists(args.drop_last(), k);
    }
}

proof fn lemma_prefix_value_bound(s: Seq<char>, k: int)
    requires
        0 <= k <= s.len(),
        all_digits(s),
    ensures
        decimal_value(s.subrange(0, k)) <= decimal_value(s),
    decreases s.len(),
{
    if s.len() > k {
        assert(s.drop_last().subrange(0, k) == s.subrange(0, k));
        assert(all_digits(s.drop_last())) by {
            assert forall|i: int| 0 <= i < s.drop_last().len() implies '0' <= #[trigger] s.drop_last()[i] <= '9' by {
                assert(s.drop_last()[i] == s[i]);
            }
        }
        lemma_prefix_value_bound(s.drop_last(), k);
        assert(s[s.len() - 1] == s.last());
    } else {
        assert(s.subrange(0, k) == s);
    }
}

/// Whether every character of `s` is an ASCII digit.
pub fn is_numeric(s: &String) -> (r: bool)
    ensures
        r == all_digits(s@),
{
    let t = s.as_str();
    let n = t.unicode_len();
    let mut i: usize = 0;
    while i < n
        invariant
            n == t@.len(),
            t@ == s@,
            0 <= i <= n,
            forall|j: int| 0 <= j < i ==> '0' <= #[trigger] t@[j] <= '9',
        decreases n - i,
    {
        let c = t.get_char(i);
        if !('0' <= c && c <= '9') {
            return false;
        }
        i = i + 1;
    }
    true
}

/// The duration that a non-empty text of digits writes, if it fits in `u32`.
pub fn parse_seconds(s: &str) -> (r: Option<u32>)
    requires
        all_digits(s@),
    ensures
        r == if s@.len() > 0 && decimal_value(s@) <= u32::MAX {
            Some(decimal_value(s@) as u32)
        } else {
            None::<u32>
        },
{
    let n = s.unicode_len();
    if n == 0 {
        return None;
    }
    let mut value: u64 = 0;
    let mut i: usize = 0;
    while i < n
        invariant
            n == s@.len(),
            all_digits(s@),
            0 <= i <= n,
            value == decimal_value(s@.subrange(0, i as int)),
            value <= u32::MAX,
        decreases n - i,
    {
        let c = s.get_char(i);
        assert(s@.subrange(0, i + 1).drop_last() == s@.subrange(0, i as int));
        assert(s@.subrange(0, i + 1).last() == c);
        assert('0' <= c <= '9');
        value = value * 10 + ((c as u32) - 48) as u64;
        i = i + 1;
        if value > u32::MAX as u64 {
            proof {
                lemma_prefix_value_bound(s@, i as int);
            }
            return None;
        }
    }
    assert(s@.subrange(0, n as int) == s@);
    Some(value as u32)
}

/// Whether `s` reads exactly `t`.
pub fn same_text(s: &str, t: &str) -> (r: bool)
    ensures
        r == (s@ == t@),
{
    let n = s.unicode_len();
    if n != t.unicode_len() {
        return false;
    }
    let mut i: usize = 0;
    while i < n
        invariant
            n == s@.len(),
            n == t@.len(),
            0 <= i <= n,
            forall|j: int| 0 <= j < i ==> s@[j] == t@[j],
        decreases n - i,
    {
        if s.get_char(i) != t.get_char(i) {
            return false;
        }
        i = i + 1;
    }
    assert(s@ == t@);
    true
}

/// Reads the arguments of `start`: a number sets the delay in seconds
/// (`DEFAULT_TIMEOUT_SECONDS` where none is given), `-r`/`--regex` and
/// `-m`/`--message` announce the content pattern and the notice text.
pub fn parse_start_args(args: &Vec<String>) -> (r: Result<StartArgs, CommandError>)
    ensures
        r == start_args_spec(args@),
{
    let mut timeout_seconds: u32 = DEFAULT_TIMEOUT_SECONDS;
    let mut regex = NamedArg::NotProvided;
    let mut message = NamedArg::NotProvided;
    let mut i: usize = 0;
    assert(args@.subrange(0, 0) == Seq::<String>::empty());
    while i < args.len()
        invariant
            0 <= i <= args@.len(),
            args_state(args@.subrange(0, i as int)) == Ok::<ArgState, CommandError>(
                ArgState { timeout_seconds, regex, message },
            ),
        decreases args@.len() - i,
    {
        let arg = &args[i];
        assert(args@.subrange(0, i + 1).drop_last() == args@.subrange(0, i as int));
        assert(args@.subrange(0, i + 1).last() == *arg);
        if is_numeric(arg) {
            match parse_seconds(arg.as_str()) {
                Some(v) => {
                    timeout_seconds = v;
                },
                None => {
                    proof {
                        lemma_error_persists(args@, i + 1);
                    }
                    return Err(CommandError::MalformedDuration);
                },
            }
        } else if matches!(regex, NamedArg::Next) {
            regex = NamedArg::Provided(arg.clone());
        } else if matches!(message, NamedArg::Next) {
            message = NamedArg::Provided(arg.clone());
        } else if same_text(arg.as_str(), "-r") || same_text(arg.as_str(), "--regex") {
            regex = NamedArg::Next;
        } else if same_text(arg.as_str(), "-m") || same_text(arg.as_str(), "--message") {
            message = NamedArg::Next;
        }
        i = i + 1;
    }
    assert(args@.subrange(0, i as int) == args@);
    Ok(StartArgs { timeout_seconds, notice_text: message.ok(), content_pattern: regex.ok() })
}

/// The rule that `start` writes for `user` (`None`: the whole channel).
pub open spec fn rule_for(channel: u64, user: Option<u64>, a: StartArgs) -> Rule {
    Rule {
        channel_id: channel,
        user_id: user,
        timeout_seconds: a.timeout_seconds,
        notice_text: a.notice_text,
        content_pattern: a.content_pattern,
    }
}

/// The rows after a rule is written for each of `users`, in turn.
pub open spec fn replace_each(rows: Seq<Rule>, channel: u64, users: Seq<u64>, a: StartArgs) -> Seq<Rule>
    decreases users.len(),
{
    if users.len() == 0 {
        rows
    } else {
        replaced(replace_each(rows, channel, users.drop_last(), a), rule_for(channel, Some(users.last()), a))
    }
}

/// The rows after a successful `start`: the channel's global rule where no
/// user is mentioned, else one rule per mentioned user.
pub open spec fn started(rows: Seq<Rule>, channel: u64, mentions: Seq<u64>, a: StartArgs) -> Seq<Rule> {
    if mentions.len() == 0 {
        replaced(rows, rule_for(channel, None, a))
    } else {
        replace_each(rows, channel, mentions, a)
    }
}

/// The rows after the rule of each of `users` is removed, in turn.
pub open spec fn delete_each(rows: Seq<Rule>, channel: u64, users: Seq<u64>) -> Seq<Rule>
    decreases users.len(),
{
    if users.len() == 0 {
        rows
    } else {
        without_key(delete_each(rows, channel, users.drop_last()), (channel, Some(users.last())))
    }
}

/// The rows after `stop`: the channel's global rule goes where no user is
/// mentioned, else the rule of each mentioned user.
pub open spec fn stopped(rows: Seq<Rule>, channel: u64, mentions: Seq<u64>) -> Seq<Rule> {
    if mentions.len() == 0 {
        without_key(rows, (channel, None))
    } else {
        delete_each(rows, channel, mentions)
    }
}

pub open spec fn command_error_of(e: PatternError) -> CommandError {
    match e {
        PatternError::TooLong => CommandError::PatternTooLong,
        PatternError::TooLarge => CommandError::PatternTooLarge,
    }
}

/// What `start` answers for a pattern: refused where the pattern is.
pub open spec fn start_verdict(pattern: Option<String>) -> Result<(), CommandError> {
    match pattern {
        Some(p) => match pattern_check(p@) {
            Ok(_) => Ok(()),
            Err(e) => Err(command_error_of(e)),
        },
        None => Ok(()),
    }
}

fn rule_of(channel: u64, user: Option<u64>, a: &StartArgs) -> (r: Rule)
    ensures
        r == rule_for(channel, user, *a),
{
    Rule {
        channel_id: channel,
        user_id: user,
        timeout_seconds: a.timeout_seconds,
        notice_text: copy_text(&a.notice_text),
        content_pattern: copy_text(&a.content_pattern),
    }
}

/// The `start` command: checks the pattern, then writes the channel's global
/// rule, or one rule per mentioned user, each replacing the rule under its
/// key. A refused pattern writes nothing.
pub fn start(store: &mut RuleStore, channel: u64, mentions: &Vec<u64>, a: &StartArgs) -> (r: Result<(), CommandError>)
    requires
        old(store).wf(),
    ensures
        final(store).wf(),
        r == start_verdict(a.content_pattern),
        r is Err ==> final(store)@ == old(store)@,
        r is Ok ==> final(store)@ == started(old(store)@, channel, mentions@, *a),
{
    if let Some(p) = &a.content_pattern {
        match validate_pattern(p.as_str()) {
            Ok(_) => {},
            Err(PatternError::TooLong) => {
                return Err(CommandError::PatternTooLong);
            },
            Err(PatternError::TooLarge) => {
                return Err(CommandError::PatternTooLarge);
            },
        }
    }
    if mentions.len() == 0 {
        store.replace_rule(rule_of(channel, None, a));
        return Ok(());
    }
    let ghost rows0 = store@;
    let mut i: usize = 0;
    assert(mentions@.subrange(0, 0) == Seq::<u64>::empty());
    while i < mentions.len()
        invariant
            0 <= i <= mentions@.len(),
            store.wf(),
            store@ == replace_each(rows0, channel, mentions@.subrange(0, i as int), *a),
        decreases mentions@.len() - i,
    {
        assert(mentions@.subrange(0, i + 1).drop_last() == mentions@.subrange(0, i as int));
        assert(mentions@.subrange(0, i + 1).last() == mentions@[i as int]);
        store.replace_rule(rule_of(channel, Some(mentions[i]), a));
        i = i + 1;
    }
    assert(mentions@.subrange(0, i as int) == mentions@);
    Ok(())
}

/// The `stop` command: removes the channel's global rule, or the rule of
/// each mentioned user. Jobs already queued are left alone.
pub fn stop(store: &mut RuleStore, channel: u64, mentions: &Vec<u64>)
    requires
        old(store).wf(),
    ensures
        final(store).wf(),
        final(store)@ == stopped(old(store)@, channel, mentions@),
{
    if mentions.len() == 0 {
        store.delete_rule(channel, None);
        return;
    }
    let ghost rows0 = store@;
    let mut i: usize = 0;
    assert(mentions@.subrange(0, 0) == Seq::<u64>::empty());
    while i < mentions.len()
        invariant
            0 <= i <= mentions@.len(),
            store.wf(),
            store@ == delete_each(rows0, channel, mentions@.subrange(0, i as int)),
        decreases mentions@.len() - i,
    {
        assert(mentions@.subrange(0, i + 1).drop_last() == mentions@.subrange(0, i as int));
        assert(mentions@.subrange(0, i + 1).last() == mentions@[i as int]);
        store.delete_rule(channel, Some(mentions[i]));
        i = i + 1;
    }
    assert(mentions@.subrange(0, i as int) == mentions@);
}

/// Whether `x` is the rule that `start` writes for one of `users`.
pub open spec fn written_for(x: Rule, channel: u64, users: Seq<u64>, a: StartArgs) -> bool {
    exists|i: int| 0 <= i < users.len() && x == rule_for(channel, Some(users[i]), a)
}

/// Whether `x` sits under the key of one of `users`.
pub open spec fn keyed_by(x: Rule, channel: u64, users: Seq<u64>) -> bool {
    x.channel_id == channel && exists|i: int| 0 <= i < users.len() && x.user_id == Some(users[i])
}

proof fn lemma_replace_each(rows: Seq<Rule>, channel: u64, users: Seq<u64>, a: StartArgs)
    ensures
        forall|x: Rule| #[trigger] replace_each(rows, channel, users, a).contains(x) <==> (
            (rows.contains(x) && !keyed_by(x, channel, users)) || written_for(x, channel, users, a)),
        keys_unique(rows) ==> keys_unique(replace_each(rows, channel, users, a)),
    decreases users.len(),
{
    if users.len() > 0 {
        let init = users.drop_last();
        let prev = replace_each(rows, channel, init, a);
        let rule = rule_for(channel, Some(users.last()), a);
        let k = rule.key();
        lemma_replace_each(rows, channel, init, a);
        lemma_without_key(prev, k);
        let w = without_key(prev, k);
        let cur = replace_each(rows, channel, users, a);
        assert(cur == w.push(rule));
        assert forall|x: Rule| #[trigger] cur.contains(x) <==> ((rows.contains(x) && !keyed_by(x, channel, users))
            || written_for(x, channel, users, a)) by {
            if cur.contains(x) && x != rule {
                let i = choose|i: int| 0 <= i < cur.len() && cur[i] == x;
                assert(i < w.len());
                assert(w[i] == x);
            }
            if w.contains(x) {
                let i = choose|i: int| 0 <= i < w.len() && w[i] == x;
                assert(cur[i] == x);
            }
            assert(cur[cur.len() - 1] == rule);
            if w.contains(x) {
                let i = choose|i: int| 0 <= i < w.len() && w[i] == x;
                assert(x.key() != k);
            }
            assert(w.contains(x) <==> (prev.contains(x) && x.key() != k));
            if written_for(x, channel, init, a) {
                let i = choose|i: int| 0 <= i < init.len() && x == rule_for(channel, Some(init[i]), a);
                assert(users[i] == init[i]);
            }
            if keyed_by(x, channel, init) {
                let i = choose|i: int| 0 <= i < init.len() && x.user_id == Some(init[i]);
                assert(users[i] == init[i]);
            }
            if written_for(x, channel, users, a) && x != rule {
                let i = choose|i: int| 0 <= i < users.len() && x == rule_for(channel, Some(users[i]), a);
                assert(i < init.len());
                assert(users[i] == init[i]);
            }
            if keyed_by(x, channel, users) && x.key() != k {
                let i = choose|i: int| 0 <= i < users.len() && x.user_id == Some(users[i]);
                assert(i < init.len());
                assert(users[i] == init[i]);
            }
            if x == rule {
                assert(users[users.len() - 1] == users.last());
            }
            if x.key() == k {
                assert(users[users.len() - 1] == users.last());
            }
        }
        if keys_unique(rows) {
            lemma_replaced_unique(prev, rule);
        }
    }
}

/// Issuing the same `start` twice leaves the same rules as issuing it once,
/// and either way each key that it names holds exactly one row: the rule it
/// writes.
pub proof fn start_is_idempotent(rows: Seq<Rule>, channel: u64, mentions: Seq<u64>, a: StartArgs)
    requires
        keys_unique(rows),
    ensures
        keys_unique(started(rows, channel, mentions, a)),
        forall|x: Rule| #[trigger] started(started(rows, channel, mentions, a), channel, mentions, a).contains(x)
            <==> started(rows, channel, mentions, a).contains(x),
        mentions.len() == 0 ==> started(rows, channel, mentions, a).contains(rule_for(channel, None, a)),
        forall|i: int| 0 <= i < mentions.len() ==> started(rows, channel, mentions, a).contains(
            #[trigger] rule_for(channel, Some(mentions[i]), a)),
{
    let once = started(rows, channel, mentions, a);
    if mentions.len() == 0 {
        let rule = rule_for(channel, None, a);
        replace_is_idempotent(rows, rule);
        lemma_replaced_unique(rows, rule);
        assert(once[once.len() - 1] == rule);
    } else {
        lemma_replace_each(rows, channel, mentions, a);
        lemma_replace_each(once, channel, mentions, a);
        assert forall|i: int| 0 <= i < mentions.len() implies once.contains(
            #[trigger] rule_for(channel, Some(mentions[i]), a)) by {
            assert(written_for(rule_for(channel, Some(mentions[i]), a), channel, mentions, a));
        }
        assert forall|x: Rule| written_for(x, channel, mentions, a) implies keyed_by(x, channel, mentions) by {
            let i = choose|i: int| 0 <= i < mentions.len() && x == rule_for(channel, Some(mentions[i]), a);
        }
    }
}

} // verus!
