use vstd::prelude::*;

verus! {

/// One autoclear policy of a channel, global when `user_id` is `None`.
pub struct Rule {
    pub channel_id: u64,
    pub user_id: Option<u64>,
    pub timeout_seconds: u32,
    pub notice_text: Option<String>,
    pub content_pattern: Option<String>,
}

/// The part of the winning rule that the rest of the pipeline reads.
pub struct ResolvedRule {
    pub timeout_seconds: u32,
    pub notice_text: Option<String>,
    pub content_pattern: Option<String>,
}

/// Copies an optional text, keeping it equal to the original.
pub fn copy_text(t: &Option<String>) -> (r: Option<String>)
    ensures
        r == *t,
{
    match t {
        Some(s) => Some(s.clone()),
        None => None,
    }
}

impl Rule {
    /// The key under which the store keeps at most one rule.
    pub open spec fn key(self) -> (u64, Option<u64>) {
        (self.channel_id, self.user_id)
    }

    /// Whether this rule governs a message of `author` in `channel`.
    pub open spec fn applies_to(self, channel: u64, author: u64) -> bool {
        self.channel_id == channel && (self.user_id is None || self.user_id == Some(author))
    }

    pub open spec fn resolved(self) -> ResolvedRule {
        ResolvedRule {
            timeout_seconds: self.timeout_seconds,
            notice_text: self.notice_text,
            content_pattern: self.content_pattern,
        }
    }

    pub fn duplicate(&self) -> (r: Rule)
        ensures
            r == *self,
    {
        Rule {
            channel_id: self.channel_id,
            user_id: self.user_id,
            timeout_seconds: self.timeout_seconds,
            notice_text: copy_text(&self.notice_text),
            content_pattern: copy_text(&self.content_pattern),
        }
    }

    pub fn to_resolved(&self) -> (r: ResolvedRule)
        ensures
            r == self.resolved(),
    {
        ResolvedRule {
            timeout_seconds: self.timeout_seconds,
            notice_text: copy_text(&self.notice_text),
            content_pattern: copy_text(&self.content_pattern),
        }
    }
}

/// No two rows share a key.
pub open spec fn keys_unique(rows: Seq<Rule>) -> bool {
    forall|i: int, j: int|
        0 <= i < rows.len() && 0 <= j < rows.len() && i != j ==> rows[i].key() != rows[j].key()
}

/// The rows whose key differs from `k`, in their order.
pub open spec fn without_key(rows: Seq<Rule>, k: (u64, Option<u64>)) -> Seq<Rule>
    decreases rows.len(),
{
    if rows.len() == 0 {
        rows
    } else {
        let rest = without_key(rows.drop_last(), k);
        if rows.last().key() == k {
            rest
        } else {
            rest.push(rows.last())
        }
    }
}

/// The rows after the rule for `rule.key()` is replaced by `rule`.
pub open spec fn replaced(rows: Seq<Rule>, rule: Rule) -> Seq<Rule> {
    without_key(rows, rule.key()).push(rule)
}

/// Index of the first applicable row of least timeout, if any row applies.
pub open spec fn winner(rows: Seq<Rule>, channel: u64, author: u64) -> Option<int>
    decreases rows.len(),
{
    if rows.len() == 0 {
        None
    } else {
        let prev = winner(rows.drop_last(), channel, author);
        let last = rows.last();
        if last.applies_to(channel, author) && (prev is None || last.timeout_seconds
            < rows[prev->0].timeout_seconds) {
            Some(rows.len() - 1)
        } else {
            prev
        }
    }
}

/// The rule that governs a message of `author` in `channel`.
pub open spec fn resolution(rows: Seq<Rule>, channel: u64, author: u64) -> Option<ResolvedRule> {
    match winner(rows, channel, author) {
        Some(i) => Some(rows[i].resolved()),
        None => None,
    }
}

proof fn lemma_winner_bounds(rows: Seq<Rule>, channel: u64, author: u64)
    ensures
        winner(rows, channel, author) matches Some(i) ==> 0 <= i < rows.len(),
    decreases rows.len(),
{
    if rows.len() > 0 {
        lemma_winner_bounds(rows.drop_last(), channel, author);
    }
}

/// The winning row applies and has the least timeout of all applicable rows;
/// there is no winner exactly when no row applies.
pub proof fn lemma_winner_is_minimal(rows: Seq<Rule>, channel: u64, author: u64)
    ensures
        winner(rows, channel, author) is None <==> (forall|j: int|
            0 <= j < rows.len() ==> !#[trigger] rows[j].applies_to(channel, author)),
        winner(rows, channel, author) matches Some(i) ==> {
            &&& 0 <= i < rows.len()
            &&& rows[i].applies_to(channel, author)
            &&& forall|j: int|
                0 <= j < rows.len() && #[trigger] rows[j].applies_to(channel, author)
                    ==> rows[i].timeout_seconds <= rows[j].timeout_seconds
        },
    decreases rows.len(),
{
    if rows.len() > 0 {
        let init = rows.drop_last();
        lemma_winner_is_minimal(init, channel, author);
        lemma_winner_bounds(init, channel, author);
        assert forall|j: int| 0 <= j < init.len() implies init[j] == rows[j] by {}
    }
}

/// What removing a key leaves: no row of that key, only rows that were
/// there, every other row kept, and keys still unique.
pub proof fn lemma_without_key(rows: Seq<Rule>, k: (u64, Option<u64>))
    ensures
        forall|i: int| 0 <= i < without_key(rows, k).len() ==> #[trigger] without_key(rows, k)[i].key() != k,
        forall|i: int| 0 <= i < without_key(rows, k).len() ==> rows.contains(#[trigger] without_key(rows, k)[i]),
        forall|x: Rule| rows.contains(x) && x.key() != k ==> #[trigger] without_key(rows, k).contains(x),
        keys_unique(rows) ==> keys_unique(without_key(rows, k)),
    decreases rows.len(),
{
    if rows.len() > 0 {
        let init = rows.drop_last();
        lemma_without_key(init, k);
        let w0 = without_key(init, k);
        let w = without_key(rows, k);
        assert forall|i: int| 0 <= i < w.len() implies rows.contains(#[trigger] w[i]) by {
            if i < w0.len() {
                let j = choose|j: int| 0 <= j < init.len() && init[j] == w0[i];
                assert(rows[j] == w0[i]);
            } else {
                assert(rows[rows.len() - 1] == w[i]);
            }
        }
        assert forall|x: Rule| rows.contains(x) && x.key() != k implies #[trigger] w.contains(x) by {
            let j = choose|j: int| 0 <= j < rows.len() && rows[j] == x;
            if j < rows.len() - 1 {
                assert(init[j] == x);
                assert(init.contains(x));
                assert(w0.contains(x));
                let i = choose|i: int| 0 <= i < w0.len() && w0[i] == x;
                assert(w[i] == w0[i]);
            } else {
                assert(w[w.len() - 1] == x);
            }
        }
        if keys_unique(rows) {
            assert(keys_unique(init)) by {
                assert forall|i: int, j: int|
                    0 <= i < init.len() && 0 <= j < init.len() && i != j implies init[i].key()
                    != init[j].key() by {
                    assert(init[i] == rows[i] && init[j] == rows[j]);
                }
            }
            if rows.last().key() != k {
                assert forall|i: int| 0 <= i < w0.len() implies w0[i].key() != rows.last().key() by {
                    assert(init.contains(w0[i]));
                    let j = choose|j: int| 0 <= j < init.len() && init[j] == w0[i];
                    assert(rows[j] == init[j]);
                }
                assert forall|i: int, j: int|
                    0 <= i < w.len() && 0 <= j < w.len() && i != j implies w[i].key()
                    != w[j].key() by {
                    if i < w0.len() && j < w0.len() {
                        assert(w[i] == w0[i] && w[j] == w0[j]);
                    } else if i < w0.len() {
                        assert(w[i] == w0[i]);
                    } else {
                        assert(w[j] == w0[j]);
                    }
                }
            }
        }
    }
}

/// Equality of optional user ids.
pub fn same_user(a: Option<u64>, b: Option<u64>) -> (r: bool)
    ensures
        r == (a == b),
{
    match (a, b) {
        (Some(x), Some(y)) => x == y,
        (None, None) => true,
        _ => false,
    }
}

pub proof fn lemma_replaced_unique(rows: Seq<Rule>, rule: Rule)
    requires
        keys_unique(rows),
    ensures
        keys_unique(replaced(rows, rule)),
{
    lemma_without_key(rows, rule.key());
    let w = without_key(rows, rule.key());
    let r = replaced(rows, rule);
    assert forall|i: int, j: int|
        0 <= i < r.len() && 0 <= j < r.len() && i != j implies r[i].key() != r[j].key() by {
        if i < w.len() && j < w.len() {
            assert(r[i] == w[i] && r[j] == w[j]);
        } else if i < w.len() {
            assert(r[i] == w[i]);
        } else {
            assert(r[j] == w[j]);
        }
    }
}

/// The rows of `channel` that are global (`global`) or user-scoped (`!global`),
/// in their order.
pub open spec fn channel_rows(rows: Seq<Rule>, channel: u64, global: bool) -> Seq<Rule>
    decreases rows.len(),
{
    if rows.len() == 0 {
        rows
    } else {
        let rest = channel_rows(rows.drop_last(), channel, global);
        if rows.last().channel_id == channel && (rows.last().user_id is None) == global {
            rest.push(rows.last())
        } else {
            rest
        }
    }
}

/// The rules of a channel as listed: the global rule first, then the
/// user-scoped rules.
pub open spec fn listing(rows: Seq<Rule>, channel: u64) -> Seq<Rule> {
    channel_rows(rows, channel, true) + channel_rows(rows, channel, false)
}

/// The resolver picks an applicable rule of least timeout among the rules of
/// the channel that are global or belong to the author, and picks nothing
/// exactly when no such rule exists.
pub proof fn resolution_is_minimal(rows: Seq<Rule>, channel: u64, author: u64)
    ensures
        resolution(rows, channel, author) is None <==> (forall|j: int|
            0 <= j < rows.len() ==> !#[trigger] rows[j].applies_to(channel, author)),
        resolution(rows, channel, author) matches Some(r) ==> exists|i: int|
            0 <= i < rows.len() && #[trigger] rows[i].applies_to(channel, author) && rows[i].resolved() == r
                && forall|j: int|
                0 <= j < rows.len() && #[trigger] rows[j].applies_to(channel, author)
                    ==> r.timeout_seconds <= rows[j].timeout_seconds,
{
    lemma_winner_is_minimal(rows, channel, author);
    if let Some(i) = winner(rows, channel, author) {
        assert(rows[i].applies_to(channel, author));
    }
}

proof fn lemma_without_absent_key(rows: Seq<Rule>, k: (u64, Option<u64>))
    requires
        forall|i: int| 0 <= i < rows.len() ==> #[trigger] rows[i].key() != k,
    ensures
        without_key(rows, k) == rows,
    decreases rows.len(),
{
    if rows.len() > 0 {
        lemma_without_absent_key(rows.drop_last(), k);
        assert(rows.drop_last().push(rows.last()) == rows);
    }
}

/// Writing the same rule twice leaves the rows as writing it once, and after
/// either there is exactly one row under its key, the rule itself.
pub proof fn replace_is_idempotent(rows: Seq<Rule>, rule: Rule)
    ensures
        replaced(replaced(rows, rule), rule) == replaced(rows, rule),
        replaced(rows, rule).last() == rule,
        forall|i: int|
            0 <= i < replaced(rows, rule).len() && #[trigger] replaced(rows, rule)[i].key() == rule.key()
                ==> i == replaced(rows, rule).len() - 1,
{
    let k = rule.key();
    let w = without_key(rows, k);
    lemma_without_key(rows, k);
    assert(replaced(rows, rule).drop_last() == w);
    lemma_without_absent_key(w, k);
    let once = replaced(rows, rule);
    assert forall|i: int| 0 <= i < once.len() && #[trigger] once[i].key() == k implies i == once.len() - 1 by {
        if i < w.len() {
            assert(once[i] == w[i]);
        }
    }
}

/// The rule table: at most one rule for each channel and user-or-global key.
pub struct RuleStore {
    rows: Vec<Rule>,
}

impl RuleStore {
    pub closed spec fn view(&self) -> Seq<Rule> {
        self.rows@
    }

    pub open spec fn wf(&self) -> bool {
        keys_unique(self@)
    }

    pub fn new() -> (r: RuleStore)
        ensures
            r.wf(),
            r@ == Seq::<Rule>::empty(),
    {
        RuleStore { rows: Vec::new() }
    }

    /// Removes the rule stored under `(channel, user)`, if any.
    pub fn delete_rule(&mut self, channel: u64, user: Option<u64>)
        requires
            old(self).wf(),
        ensures
            final(self).wf(),
            final(self)@ == without_key(old(self)@, (channel, user)),
    {
        let ghost k = (channel, user);
        let mut kept: Vec<Rule> = Vec::new();
        let mut i: usize = 0;
        while i < self.rows.len()
            invariant
                0 <= i <= self.rows@.len(),
                k == (channel, user),
                kept@ == without_key(self.rows@.subrange(0, i as int), k),
            decreases self.rows@.len() - i,
        {
            let row = &self.rows[i];
            let ghost pre = self.rows@.subrange(0, i as int);
            assert(self.rows@.subrange(0, i + 1).drop_last() == pre);
            assert(self.rows@.subrange(0, i + 1).last() == self.rows@[i as int]);
            let same = row.channel_id == channel && same_user(row.user_id, user);
            if !same {
                kept.push(row.duplicate());
            }
            i = i + 1;
        }
        assert(self.rows@.subrange(0, i as int) == self.rows@);
        proof {
            lemma_without_key(self.rows@, k);
        }
        self.rows = kept;
    }

    /// Stores `rule`, replacing the rule under the same key, if any.
    pub fn replace_rule(&mut self, rule: Rule)
        requires
            old(self).wf(),
        ensures
            final(self).wf(),
            final(self)@ == replaced(old(self)@, rule),
    {
        self.delete_rule(rule.channel_id, rule.user_id);
        proof {
            lemma_replaced_unique(old(self)@, rule);
        }
        self.rows.push(rule);
    }

    /// The rule that governs a message of `author` in `channel`: the first
    /// stored among the applicable rules of least timeout.
    pub fn resolve(&self, channel: u64, author: u64) -> (r: Option<ResolvedRule>)
        ensures
            r == resolution(self@, channel, author),
            r is None <==> (forall|j: int|
                0 <= j < self@.len() ==> !#[trigger] self@[j].applies_to(channel, author)),
            r matches Some(x) ==> exists|i: int|
                0 <= i < self@.len() && #[trigger] self@[i].applies_to(channel, author)
                    && self@[i].resolved() == x && forall|j: int|
                    0 <= j < self@.len() && #[trigger] self@[j].applies_to(channel, author)
                        ==> x.timeout_seconds <= self@[j].timeout_seconds,
    {
        let mut best: Option<usize> = None;
        let mut i: usize = 0;
        while i < self.rows.len()
            invariant
                0 <= i <= self.rows@.len(),
                winner(self.rows@.subrange(0, i as int), channel, author) == match best {
                    Some(b) => Some(b as int),
                    None => None::<int>,
                },
                best matches Some(b) ==> b < i,
            decreases self.rows@.len() - i,
        {
            let ghost pre = self.rows@.subrange(0, i as int);
            let ghost cur = self.rows@.subrange(0, i + 1);
            assert(cur.drop_last() == pre);
            let row = &self.rows[i];
            let applies = row.channel_id == channel && match row.user_id {
                Some(u) => u == author,
                None => true,
            };
            if applies {
                match best {
                    Some(b) => {
                        assert(cur[b as int] == self.rows@[b as int]);
                        if row.timeout_seconds < self.rows[b].timeout_seconds {
                            best = Some(i);
                        }
                    },
                    None => {
                        best = Some(i);
                    },
                }
            }
            i = i + 1;
        }
        assert(self.rows@.subrange(0, i as int) == self.rows@);
        proof {
            resolution_is_minimal(self.rows@, channel, author);
        }
        match best {
            Some(b) => Some(self.rows[b].to_resolved()),
            None => None,
        }
    }

    fn collect_channel(&self, channel: u64, global: bool, out: &mut Vec<Rule>)
        ensures
            final(out)@ == old(out)@ + channel_rows(self@, channel, global),
    {
        let ghost start = out@;
        let mut i: usize = 0;
        assert(start + channel_rows(self.rows@.subrange(0, 0), channel, global) == start);
        while i < self.rows.len()
            invariant
                0 <= i <= self.rows@.len(),
                out@ == start + channel_rows(self.rows@.subrange(0, i as int), channel, global),
            decreases self.rows@.len() - i,
        {
            let row = &self.rows[i];
            assert(self.rows@.subrange(0, i + 1).drop_last() == self.rows@.subrange(0, i as int));
            assert(self.rows@.subrange(0, i + 1).last() == self.rows@[i as int]);
            let is_global = match row.user_id {
                Some(_) => false,
                None => true,
            };
            if row.channel_id == channel && is_global == global {
                out.push(row.duplicate());
            }
            i = i + 1;
        }
        assert(self.rows@.subrange(0, i as int) == self.rows@);
    }

    /// The rules of `channel` for display: the global rule first, then the
    /// user-scoped rules in the order stored.
    pub fn rules_for_channel(&self, channel: u64) -> (r: Vec<Rule>)
        ensures
            r@ == listing(self@, channel),
    {
        let mut out: Vec<Rule> = Vec::new();
        self.collect_channel(channel, true, &mut out);
        self.collect_channel(channel, false, &mut out);
        assert(out@ == listing(self@, channel));
        out
    }

    pub fn len(&self) -> (r: usize)
        ensures
            r == self@.len(),
    {
        self.rows.len()
    }

    pub fn get(&self, i: usize) -> (r: &Rule)
        requires
            i < self@.len(),
        ensures
            *r == self@[i as int],
    {
        &self.rows[i]
    }
}

} // verus!
