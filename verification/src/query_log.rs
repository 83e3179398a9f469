//! The log of recent queries: a bounded queue of entries, and counters over all
//! that was ever logged.
use std::collections::VecDeque;

use chrono::NaiveDateTime;
use vstd::prelude::*;

use crate::rule;
use crate::text;
use crate::text_laws;
use crate::text::{contains, to_chars};

verus! {

broadcast use vstd::string::group_string_axioms;

/// `chrono::NaiveDateTime`, a date and a time of day. It is only carried along.
#[verifier::external_type_specification]
#[verifier::external_body]
pub struct ExNaiveDateTime(chrono::NaiveDateTime);

/// What became of a query.
#[derive(Clone, Copy, Debug, PartialEq, Eq, Structural)]
pub enum QueryAction {
    Allow,
    Block,
    Rewrite,
    Cache,
}

#[derive(Debug)]
pub struct QueryLogEntry {
    /// When the query came, in UTC.
    pub ts: NaiveDateTime,
    pub client: String,
    pub domain: String,
    pub qtype: String,
    pub action: QueryAction,
    pub upstream: Option<String>,
    pub latency_ms: u64,
    pub cached: bool,
}

#[verifier::ext_equal]
pub struct EntryView {
    pub ts: NaiveDateTime,
    pub client: Seq<char>,
    pub domain: Seq<char>,
    pub qtype: Seq<char>,
    pub action: QueryAction,
    pub upstream: Option<Seq<char>>,
    pub latency_ms: u64,
    pub cached: bool,
}

impl View for QueryLogEntry {
    type V = EntryView;

    open spec fn view(&self) -> EntryView {
        EntryView {
            ts: self.ts,
            client: self.client@,
            domain: self.domain@,
            qtype: self.qtype@,
            action: self.action,
            upstream: rule::optional_text(self.upstream),
            latency_ms: self.latency_ms,
            cached: self.cached,
        }
    }
}

impl Clone for QueryLogEntry {
    fn clone(&self) -> (r: Self)
        ensures
            r@ == self@,
    {
        QueryLogEntry {
            ts: self.ts,
            client: self.client.clone(),
            domain: self.domain.clone(),
            qtype: self.qtype.clone(),
            action: self.action,
            upstream: match &self.upstream {
                Some(u) => Some(u.clone()),
                None => None,
            },
            latency_ms: self.latency_ms,
            cached: self.cached,
        }
    }
}

/// What a run of entries says.
pub open spec fn entries_view(entries: Seq<QueryLogEntry>) -> Seq<EntryView> {
    Seq::new(entries.len(), |i: int| entries[i]@)
}

/// The counters of a log.
#[derive(Clone, Copy, Debug, PartialEq, Eq, Structural)]
pub struct LogStats {
    pub total: u64,
    pub blocked: u64,
    pub cached: u64,
    pub allowed: u64,
}

pub struct QueryLog {
    entries: VecDeque<QueryLogEntry>,
    max_size: usize,
    pub total: u64,
    pub blocked: u64,
    pub cached: u64,
    pub allowed: u64,
}

#[verifier::ext_equal]
pub struct LogView {
    /// The entries that are kept, oldest first.
    pub entries: Seq<EntryView>,
    pub max_size: nat,
    pub stats: LogStats,
}

impl View for QueryLog {
    type V = LogView;

    closed spec fn view(&self) -> LogView {
        LogView {
            entries: entries_view(self.entries@),
            max_size: self.max_size as nat,
            stats: LogStats {
                total: self.total,
                blocked: self.blocked,
                cached: self.cached,
                allowed: self.allowed,
            },
        }
    }
}

/// The next value of a counter, which starts again at zero behind the largest one.
pub open spec fn bumped(n: u64) -> u64 {
    if n == u64::MAX {
        0
    } else {
        (n + 1) as u64
    }
}

/// The counters after one more query.
pub open spec fn counted(s: LogStats, action: QueryAction) -> LogStats {
    LogStats {
        total: bumped(s.total),
        blocked: if action == QueryAction::Block {
            bumped(s.blocked)
        } else {
            s.blocked
        },
        cached: if action == QueryAction::Cache {
            bumped(s.cached)
        } else {
            s.cached
        },
        allowed: if action == QueryAction::Allow {
            bumped(s.allowed)
        } else {
            s.allowed
        },
    }
}

impl LogView {
    /// A log without entries, for `max_size` of them.
    pub open spec fn empty(max_size: nat) -> LogView {
        LogView {
            entries: seq![],
            max_size,
            stats: LogStats { total: 0, blocked: 0, cached: 0, allowed: 0 },
        }
    }

    /// How many entries the log keeps: `max_size`, but one at least.
    pub open spec fn capacity(self) -> nat {
        if self.max_size == 0 {
            1
        } else {
            self.max_size
        }
    }

    /// The log keeps no more entries than it has room for.
    pub open spec fn wf(self) -> bool {
        self.entries.len() <= self.capacity()
    }

    /// The log after one more query. Where there is no room, the oldest entry goes.
    pub open spec fn pushed(self, e: EntryView) -> LogView {
        LogView {
            entries: if self.entries.len() > 0 && self.entries.len() >= self.max_size {
                self.entries.drop_first().push(e)
            } else {
                self.entries.push(e)
            },
            max_size: self.max_size,
            stats: counted(self.stats, e.action),
        }
    }
}

/// The domain of the entry holds the text in `filter`, where there is one.
pub open spec fn passes(e: EntryView, filter: Option<Seq<char>>) -> bool {
    match filter {
        Some(f) => text::occurs(f, e.domain),
        None => true,
    }
}

/// The test for entries that pass the filter.
pub open spec fn passing(filter: Option<Seq<char>>) -> spec_fn(EntryView) -> bool {
    |e: EntryView| passes(e, filter)
}

/// The entries that pass the filter, newest first.
pub open spec fn newest_passing(
    entries: Seq<EntryView>,
    filter: Option<Seq<char>>,
) -> Seq<EntryView> {
    entries.reverse().filter(passing(filter))
}

/// The `n` newest entries that pass the filter, or all where there are fewer, newest
/// first.
pub open spec fn recent_of(
    entries: Seq<EntryView>,
    n: nat,
    filter: Option<Seq<char>>,
) -> Seq<EntryView> {
    let all = newest_passing(entries, filter);
    if n <= all.len() {
        all.take(n as int)
    } else {
        all
    }
}

/// What a filter asks for.
pub open spec fn filter_text(filter: Option<&str>) -> Option<Seq<char>> {
    match filter {
        Some(f) => Some(f@),
        None => None,
    }
}

fn passes_filter(e: &QueryLogEntry, filter: Option<&str>) -> (r: bool)
    ensures
        r == passes(e@, filter_text(filter)),
{
    match filter {
        None => true,
        Some(f) => contains(to_chars(e.domain.as_str()).as_slice(), to_chars(f).as_slice()),
    }
}

impl QueryLog {
    /// A log without entries.
    pub fn new(max_size: usize) -> (r: Self)
        ensures
            r@ == LogView::empty(max_size as nat),
            r@.wf(),
    {
        let r = QueryLog {
            entries: VecDeque::new(),
            max_size,
            total: 0,
            blocked: 0,
            cached: 0,
            allowed: 0,
        };
        assert(entries_view(r.entries@) =~= seq![]);
        r
    }

    /// Counts a query and keeps its entry.
    pub fn push(&mut self, e: QueryLogEntry)
        ensures
            final(self)@ == old(self)@.pushed(e@),
            old(self)@.wf() ==> final(self)@.wf(),
    {
        self.total = self.total.wrapping_add(1);
        match e.action {
            QueryAction::Block => {
                self.blocked = self.blocked.wrapping_add(1);
            },
            QueryAction::Cache => {
                self.cached = self.cached.wrapping_add(1);
            },
            QueryAction::Allow => {
                self.allowed = self.allowed.wrapping_add(1);
            },
            QueryAction::Rewrite => {},
        }
        if self.entries.len() >= self.max_size {
            self.entries.pop_front();
        }
        self.entries.push_back(e);
        assert(self@ =~= old(self)@.pushed(e@));
    }

    /// The `n` newest entries whose domain holds the text in `filter`, newest first.
    pub fn recent(&self, n: usize, filter: Option<&str>) -> (r: Vec<QueryLogEntry>)
        ensures
            entries_view(r@) == recent_of(self@.entries, n as nat, filter_text(filter)),
    {
        let ghost newest = self@.entries.reverse();
        let ghost p = passing(filter_text(filter));
        let mut out: Vec<QueryLogEntry> = Vec::new();
        let mut left: usize = self.entries.len();
        let ghost mut k: int = 0;
        proof {
            reveal(Seq::filter);
            assert(newest.take(0).filter(p) =~= entries_view(out@));
        }
        while left > 0 && out.len() < n
            invariant
                left + k == newest.len() == self.entries@.len(),
                0 <= k,
                newest == self@.entries.reverse(),
                p == passing(filter_text(filter)),
                out@.len() <= n,
                entries_view(out@) == newest.take(k).filter(p),
            decreases left,
        {
            left -= 1;
            let ghost e = self.entries@[left as int]@;
            proof {
                reveal(Seq::filter);
                assert(newest.take(k + 1).drop_last() =~= newest.take(k));
                assert(newest[k] == e);
                k = k + 1;
            }
            let e: &QueryLogEntry = &self.entries[left];
            if passes_filter(e, filter) {
                let c: QueryLogEntry = e.clone();
                assert(entries_view(out@.push(c)) =~= entries_view(out@).push(c@));
                out.push(c);
            }
        }
        proof {
            assert(newest =~= newest.take(k) + newest.skip(k));
            Seq::filter_distributes_over_add(newest.take(k), newest.skip(k), p);
            if out@.len() < n {
                assert(newest.take(k) =~= newest);
            } else {
                assert(newest.filter(p).take(n as int) =~= newest.take(k).filter(p));
            }
        }
        out
    }

    /// The counters.
    pub fn stats(&self) -> (r: LogStats)
        ensures
            r == self@.stats,
    {
        LogStats {
            total: self.total,
            blocked: self.blocked,
            cached: self.cached,
            allowed: self.allowed,
        }
    }
}

// ── What holds of the log as a whole ────────────────────────────────────────

/// The log after the queries in `history`, oldest first.
pub open spec fn logged(log: LogView, history: Seq<EntryView>) -> LogView
    decreases history.len(),
{
    if history.len() == 0 {
        log
    } else {
        logged(log, history.drop_last()).pushed(history.last())
    }
}

/// The test for queries of which `action` became.
pub open spec fn became(action: QueryAction) -> spec_fn(EntryView) -> bool {
    |e: EntryView| e.action == action
}

/// The number of queries in `history` of which `action` became.
pub open spec fn count_of(history: Seq<EntryView>, action: QueryAction) -> nat {
    history.filter(became(action)).len()
}

/// The counters count modulo this.
pub open spec fn counter_range() -> nat {
    0x1_0000_0000_0000_0000
}

/// A log that began empty holds the newest of the queries, as many as it has room
/// for, in the order in which they came.
pub proof fn law_newest_kept(max_size: nat, history: Seq<EntryView>)
    ensures
        logged(LogView::empty(max_size), history).wf(),
        logged(LogView::empty(max_size), history).max_size == max_size,
        logged(LogView::empty(max_size), history).entries == ({
            let room = LogView::empty(max_size).capacity();
            if history.len() <= room {
                history
            } else {
                history.skip(history.len() - room)
            }
        }),
    decreases history.len(),
{
    let log = logged(LogView::empty(max_size), history);
    if history.len() == 0 {
        assert(log.entries =~= history);
    } else {
        let front = history.drop_last();
        law_newest_kept(max_size, front);
        let room = LogView::empty(max_size).capacity();
        if history.len() <= room {
            assert(log.entries =~= history);
        } else {
            assert(log.entries =~= history.skip(history.len() - room));
        }
    }
}

/// The counters of a log that began empty count all its queries, those that were
/// blocked, those that the cache answered and those that were allowed.
pub proof fn law_counters(max_size: nat, history: Seq<EntryView>)
    ensures
        ({
            let stats = logged(LogView::empty(max_size), history).stats;
            &&& stats.total == history.len() % counter_range()
            &&& stats.blocked == count_of(history, QueryAction::Block) % counter_range()
            &&& stats.cached == count_of(history, QueryAction::Cache) % counter_range()
            &&& stats.allowed == count_of(history, QueryAction::Allow) % counter_range()
        }),
    decreases history.len(),
{
    reveal(Seq::filter);
    if history.len() > 0 {
        law_counters(max_size, history.drop_last());
    }
}

/// Every query is blocked, answered by the cache, allowed or rewritten: the counts of
/// these add up.
pub proof fn law_counts_add_up(history: Seq<EntryView>)
    ensures
        history.len() == count_of(history, QueryAction::Block) + count_of(
            history,
            QueryAction::Cache,
        ) + count_of(history, QueryAction::Allow) + count_of(history, QueryAction::Rewrite),
    decreases history.len(),
{
    reveal(Seq::filter);
    if history.len() > 0 {
        law_counts_add_up(history.drop_last());
    }
}

/// The query that was logged last is the first of the recent ones.
pub proof fn law_latest_first(log: LogView, e: EntryView, n: nat)
    requires
        n > 0,
    ensures
        recent_of(log.pushed(e).entries, n, None).len() > 0,
        recent_of(log.pushed(e).entries, n, None)[0] == e,
{
    let entries = log.pushed(e).entries;
    lemma_no_filter(entries.reverse());
}

proof fn lemma_no_filter(entries: Seq<EntryView>)
    ensures
        entries.filter(passing(None)) == entries,
    decreases entries.len(),
{
    reveal(Seq::filter);
    if entries.len() > 0 {
        lemma_no_filter(entries.drop_last());
        assert(entries.drop_last().push(entries.last()) =~= entries);
    }
}

/// Without a filter, and with room for all, the recent queries are all that are kept,
/// newest first.
pub proof fn law_recent_all(log: LogView, n: nat)
    requires
        n >= log.entries.len(),
    ensures
        recent_of(log.entries, n, None) == log.entries.reverse(),
{
    lemma_no_filter(log.entries.reverse());
    assert(log.entries.reverse().take(log.entries.len() as int) =~= log.entries.reverse());
}

/// The recent queries are `n` at most; each is in the log and passes the filter; and
/// where there are fewer than `n`, every entry that passes is among them.
pub proof fn law_recent_selects(entries: Seq<EntryView>, n: nat, filter: Option<Seq<char>>)
    ensures
        recent_of(entries, n, filter).len() <= n,
        forall|i: int|
            0 <= i < recent_of(entries, n, filter).len() ==> passes(
                #[trigger] recent_of(entries, n, filter)[i],
                filter,
            ) && entries.contains(recent_of(entries, n, filter)[i]),
        recent_of(entries, n, filter).len() < n ==> forall|i: int|
            0 <= i < entries.len() && passes(#[trigger] entries[i], filter) ==> recent_of(
                entries,
                n,
                filter,
            ).contains(entries[i]),
{
    let newest = entries.reverse();
    let p = passing(filter);
    let all = newest.filter(p);
    let r = recent_of(entries, n, filter);
    assert forall|i: int| 0 <= i < r.len() implies passes(#[trigger] r[i], filter)
        && entries.contains(r[i]) by {
        assert(r[i] == all[i]);
        newest.lemma_filter_pred(p, i);
        assert(p(all[i]));
        assert(all.contains(all[i]));
        newest.lemma_filter_contains_rev(p, all[i]);
        let k = choose|k: int| 0 <= k < newest.len() && newest[k] == all[i];
        assert(entries[entries.len() - 1 - k] == r[i]);
    }
    if r.len() < n {
        assert forall|i: int|
            0 <= i < entries.len() && passes(#[trigger] entries[i], filter) implies r.contains(
            entries[i],
        ) by {
            let k = entries.len() - 1 - i;
            assert(newest[k] == entries[i]);
            assert(p(newest[k]));
            newest.lemma_filter_contains(p, k);
        }
    }
}

/// The recent queries, by the newest entry: where it passes the filter it comes first,
/// and the others are those of the older entries.
pub proof fn law_recent_newest(
    entries: Seq<EntryView>,
    e: EntryView,
    n: nat,
    filter: Option<Seq<char>>,
)
    ensures
        recent_of(entries, 0, filter).len() == 0,
        recent_of(Seq::<EntryView>::empty(), n, filter).len() == 0,
        recent_of(entries + seq![e], n + 1, filter) == (if passes(e, filter) {
            seq![e] + recent_of(entries, n, filter)
        } else {
            recent_of(entries, n + 1, filter)
        }),
{
    reveal_with_fuel(Seq::filter, 2);
    let p = passing(filter);
    let none = Seq::<EntryView>::empty();
    assert(none.reverse() =~= none);
    let old_ones = entries.reverse();
    assert((entries + seq![e]).reverse() =~= seq![e] + old_ones);
    Seq::filter_distributes_over_add(seq![e], old_ones, p);
    assert(seq![e].drop_last() =~= none);
    assert(seq![e].last() == e);
    let kept = old_ones.filter(p);
    assert(none.filter(p) =~= none);
    if p(e) {
        assert(seq![e].filter(p) =~= seq![e]);
        let all = seq![e] + kept;
        if n <= kept.len() {
            assert(all.take((n + 1) as int) =~= seq![e] + kept.take(n as int));
        }
    } else {
        assert(seq![e].filter(p) =~= none);
        assert(none + kept =~= kept);
    }
}

/// An entry passes a filter if and only if its domain is the text of the filter with
/// something, or nothing, on either side. Without a filter every entry passes.
pub proof fn law_passes(e: EntryView, f: Seq<char>)
    ensures
        passes(e, None),
        passes(e, Some(f)) <==> exists|a: Seq<char>, b: Seq<char>|
            e.domain == #[trigger] (a + f + b),
{
    if passes(e, Some(f)) {
        let (a, b) = text_laws::law_occurs_parts(f, e.domain);
        assert(e.domain == a + f + b);
    }
    if exists|a: Seq<char>, b: Seq<char>| e.domain == #[trigger] (a + f + b) {
        let (a, b) = choose|a: Seq<char>, b: Seq<char>| e.domain == #[trigger] (a + f + b);
        text_laws::law_occurs(a, f, b);
    }
}

/// One more query: its entry is the newest, and the oldest one goes where there is no
/// room; it is counted, and under its action if that is to block, to allow or the cache.
pub proof fn law_push(log: LogView, e: EntryView)
    ensures
        log.pushed(e).max_size == log.max_size,
        log.entries.len() < log.max_size ==> log.pushed(e).entries == log.entries + seq![e],
        log.entries.len() >= log.max_size && log.entries.len() > 0 ==> log.pushed(e).entries
            == log.entries.skip(1) + seq![e],
        log.entries.len() == 0 ==> log.pushed(e).entries == seq![e],
        log.pushed(e).stats.total as nat == (log.stats.total as nat + 1) % 0x1_0000_0000_0000_0000,
        log.pushed(e).stats.blocked as nat == (log.stats.blocked as nat + (if e.action
            == QueryAction::Block {
            1nat
        } else {
            0nat
        })) % 0x1_0000_0000_0000_0000,
        log.pushed(e).stats.cached as nat == (log.stats.cached as nat + (if e.action
            == QueryAction::Cache {
            1nat
        } else {
            0nat
        })) % 0x1_0000_0000_0000_0000,
        log.pushed(e).stats.allowed as nat == (log.stats.allowed as nat + (if e.action
            == QueryAction::Allow {
            1nat
        } else {
            0nat
        })) % 0x1_0000_0000_0000_0000,
        log.capacity() == (if log.max_size == 0 {
            1
        } else {
            log.max_size
        }),
        log.wf() <==> log.entries.len() <= log.capacity(),
        LogView::empty(log.max_size).entries.len() == 0,
        LogView::empty(log.max_size).max_size == log.max_size,
        LogView::empty(log.max_size).stats.total == 0,
        LogView::empty(log.max_size).stats.blocked == 0,
        LogView::empty(log.max_size).stats.cached == 0,
        LogView::empty(log.max_size).stats.allowed == 0,
{
    let now = log.pushed(e).entries;
    assert(log.entries.push(e) =~= log.entries + seq![e]);
    if log.entries.len() > 0 {
        assert(log.entries.drop_first().push(e) =~= log.entries.skip(1) + seq![e]);
    } else {
        assert(now =~= seq![e]);
    }
}

} // verus!
