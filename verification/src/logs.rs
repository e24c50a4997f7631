//! The log of what a player's avatar went through, as the client keeps it.

use vstd::prelude::*;
use crate::events::{GEvent, GameEventView};
use crate::sense::SenseType;
use crate::types::Turn;

verus! {

/// Logs generated client-side
#[derive(Debug, Clone, Copy, PartialEq, Eq, Structural)]
pub enum ClientLog {
    Help,
}

pub enum LogEvent {
    Client(ClientLog),
    Server(GEvent),
}

/// A log event as plain values.
pub ghost enum LogEventView {
    Client(ClientLog),
    Server(Seq<SenseType>, GameEventView),
}

impl View for LogEvent {
    type V = LogEventView;

    open spec fn view(&self) -> LogEventView {
        match self {
            LogEvent::Client(c) => LogEventView::Client(*c),
            LogEvent::Server(e) => LogEventView::Server(e.spec_sources(), e.spec_event()),
        }
    }
}

pub struct GameLog {
    pub turn: Turn,
    pub log: LogEvent,
}

impl View for GameLog {
    type V = (Turn, LogEventView);

    open spec fn view(&self) -> (Turn, LogEventView) {
        (self.turn, self.log@)
    }
}

impl GameLog {
    fn same(&self, other: &GameLog) -> (r: bool)
        ensures
            r == (self@ == other@),
    {
        if self.turn != other.turn {
            return false;
        }
        match (&self.log, &other.log) {
            (LogEvent::Client(a), LogEvent::Client(b)) => *a == *b,
            (LogEvent::Server(a), LogEvent::Server(b)) => a.same(b),
            _ => false,
        }
    }
}

/// The views of a list of logs.
pub open spec fn log_views(s: Seq<GameLog>) -> Seq<(Turn, LogEventView)> {
    s.map_values(|l: GameLog| l@)
}

/// Where a stable sort places an entry of turn `t` among `s`: right after the
/// last entry, from the end, of a turn no later than `t`.
pub open spec fn upper_index(s: Seq<(Turn, LogEventView)>, t: Turn) -> int
    decreases s.len(),
{
    if s.len() == 0 {
        0
    } else if s.last().0 <= t {
        s.len() as int
    } else {
        upper_index(s.drop_last(), t)
    }
}

/// The entries stably sorted by turn: entries of the same turn keep their order.
pub open spec fn sort_by_turn(s: Seq<(Turn, LogEventView)>) -> Seq<(Turn, LogEventView)>
    decreases s.len(),
{
    if s.len() == 0 {
        s
    } else {
        let r = sort_by_turn(s.drop_last());
        r.insert(upper_index(r, s.last().0), s.last())
    }
}

/// The entries without the repetitions of an entry right after itself.
pub open spec fn dedup(s: Seq<(Turn, LogEventView)>) -> Seq<(Turn, LogEventView)>
    decreases s.len(),
{
    if s.len() == 0 {
        s
    } else {
        let r = dedup(s.drop_last());
        if r.len() > 0 && r.last() == s.last() {
            r
        } else {
            r.push(s.last())
        }
    }
}

proof fn lemma_upper_index_bounds(s: Seq<(Turn, LogEventView)>, t: Turn)
    ensures
        0 <= upper_index(s, t) <= s.len(),
    decreases s.len(),
{
    if s.len() > 0 {
        lemma_upper_index_bounds(s.drop_last(), t);
    }
}

proof fn lemma_sort_len(s: Seq<(Turn, LogEventView)>)
    ensures
        sort_by_turn(s).len() == s.len(),
    decreases s.len(),
{
    if s.len() > 0 {
        lemma_sort_len(s.drop_last());
        lemma_upper_index_bounds(sort_by_turn(s.drop_last()), s.last().0);
    }
}

/// The logs of a game, by turn.
pub struct GameLogs {
    inner: Vec<GameLog>,
}

impl View for GameLogs {
    type V = Seq<(Turn, LogEventView)>;

    closed spec fn view(&self) -> Seq<(Turn, LogEventView)> {
        log_views(self.inner@)
    }
}

impl Default for GameLogs {
    fn default() -> (r: GameLogs)
        ensures
            r@ == Seq::<(Turn, LogEventView)>::empty(),
    {
        GameLogs { inner: Vec::new() }
    }
}

/// The position, in `sorted`, where a stable sort puts an entry of turn `t`.
fn find_upper_index(sorted: &Vec<GameLog>, t: Turn) -> (r: usize)
    ensures
        r == upper_index(log_views(sorted@), t),
{
    let mut k = sorted.len();
    proof {
        assert(log_views(sorted@).take(k as int) =~= log_views(sorted@));
    }
    while k > 0
        invariant
            k <= sorted@.len(),
            upper_index(log_views(sorted@), t) == upper_index(log_views(sorted@).take(k as int), t),
        decreases k,
    {
        if sorted[k - 1].turn <= t {
            proof {
                assert(log_views(sorted@).take(k as int).last().0 <= t);
            }
            return k;
        }
        proof {
            assert(log_views(sorted@).take(k as int).drop_last() =~= log_views(sorted@).take(k - 1));
        }
        k = k - 1;
    }
    proof {
        assert(log_views(sorted@).take(0).len() == 0);
    }
    0
}

impl GameLogs {
    pub fn logs(&self) -> (r: &[GameLog])
        ensures
            log_views(r@) == self@,
    {
        self.inner.as_slice()
    }

    /// Adds a client log at `turn`; the logs are then sorted by turn, those
    /// of a turn keeping their order, and an entry right after an equal one
    /// is dropped.
    pub fn add(&mut self, turn: Turn, log: ClientLog)
        ensures
            final(self)@ == dedup(sort_by_turn(old(self)@.push((turn, LogEventView::Client(log))))),
    {
        let mut items: Vec<GameLog> = Vec::new();
        std::mem::swap(&mut items, &mut self.inner);
        items.push(GameLog { turn, log: LogEvent::Client(log) });
        let ghost all = log_views(items@);
        proof {
            assert(all =~= old(self)@.push((turn, LogEventView::Client(log))));
        }
        let n = items.len();
        let mut sorted: Vec<GameLog> = Vec::new();
        let mut i: usize = 0;
        while i < n
            invariant
                n == all.len(),
                i <= n,
                log_views(items@) == all.subrange(i as int, n as int),
                log_views(sorted@) == sort_by_turn(all.take(i as int)),
            decreases n - i,
        {
            proof {
                assert(log_views(items@).len() == items@.len());
                assert(log_views(items@)[0] == items@[0]@);
            }
            let ghost before_items = items@;
            let x = items.remove(0);
            proof {
                assert forall|k: int| 0 <= k < items@.len() implies #[trigger] log_views(items@)[k] == log_views(before_items)[k + 1] by {
                    assert(items@[k] == before_items[k + 1]);
                }
            }
            proof {
                assert(x@ == all[i as int]);
                lemma_sort_len(all.take(i as int));
            }
            let k = find_upper_index(&sorted, x.turn);
            proof {
                lemma_upper_index_bounds(log_views(sorted@), x.turn);
            }
            sorted.insert(k, x);
            proof {
                assert(all.take(i + 1).drop_last() =~= all.take(i as int));
                assert(log_views(sorted@) =~= sort_by_turn(all.take(i + 1)));
                assert(log_views(items@) =~= all.subrange(i + 1, n as int));
            }
            i = i + 1;
        }
        proof {
            assert(all.take(n as int) =~= all);
            lemma_sort_len(all);
        }
        let ghost srt = log_views(sorted@);
        let m = sorted.len();
        let mut result: Vec<GameLog> = Vec::new();
        let mut j: usize = 0;
        while j < m
            invariant
                m == srt.len(),
                j <= m,
                log_views(sorted@) == srt.subrange(j as int, m as int),
                log_views(result@) == dedup(srt.take(j as int)),
            decreases m - j,
        {
            proof {
                assert(log_views(sorted@).len() == sorted@.len());
                assert(log_views(sorted@)[0] == sorted@[0]@);
            }
            let ghost before_sorted = sorted@;
            let x = sorted.remove(0);
            proof {
                assert forall|k: int| 0 <= k < sorted@.len() implies #[trigger] log_views(sorted@)[k] == log_views(before_sorted)[k + 1] by {
                    assert(sorted@[k] == before_sorted[k + 1]);
                }
            }
            proof {
                assert(x@ == srt[j as int]);
                assert(srt.take(j + 1).drop_last() =~= srt.take(j as int));
            }
            let keep = if result.len() == 0 {
                true
            } else {
                !result[result.len() - 1].same(&x)
            };
            if keep {
                result.push(x);
            }
            proof {
                assert(log_views(result@) =~= dedup(srt.take(j + 1)));
                assert(log_views(sorted@) =~= srt.subrange(j + 1, m as int));
            }
            j = j + 1;
        }
        proof {
            assert(srt.take(m as int) =~= srt);
        }
        self.inner = result;
    }

    /// Adds the events the server sent for `turn`, in their order, after the
    /// logs already there.
    pub fn add_server_events(&mut self, turn: Turn, events: Vec<GEvent>)
        ensures
            final(self)@ == old(self)@ + events@.map_values(|e: GEvent| (turn, LogEventView::Server(e.spec_sources(), e.spec_event()))),
    {
        let ghost evs = events@;
        let mut events = events;
        let n = events.len();
        let mut i: usize = 0;
        while i < n
            invariant
                n == evs.len(),
                i <= n,
                events@ == evs.subrange(i as int, n as int),
                log_views(self.inner@) == log_views(old(self).inner@)
                    + evs.take(i as int).map_values(|e: GEvent| (turn, LogEventView::Server(e.spec_sources(), e.spec_event()))),
            decreases n - i,
        {
            let event = events.remove(0);
            proof {
                assert(event == evs[i as int]);
            }
            let ghost before = self.inner@;
            self.inner.push(GameLog { turn, log: LogEvent::Server(event) });
            proof {
                assert(evs.take(i + 1) =~= evs.take(i as int).push(evs[i as int]));
                assert(log_views(self.inner@) =~= log_views(before).push((turn, LogEventView::Server(event.spec_sources(), event.spec_event()))));
                assert(evs.take(i + 1).map_values(|e: GEvent| (turn, LogEventView::Server(e.spec_sources(), e.spec_event())))
                    =~= evs.take(i as int).map_values(|e: GEvent| (turn, LogEventView::Server(e.spec_sources(), e.spec_event())))
                    .push((turn, LogEventView::Server(event.spec_sources(), event.spec_event()))));
                assert(log_views(self.inner@) =~= log_views(old(self).inner@)
                    + evs.take(i + 1).map_values(|e: GEvent| (turn, LogEventView::Server(e.spec_sources(), e.spec_event()))));
                assert(events@ =~= evs.subrange(i + 1, n as int));
            }
            i = i + 1;
        }
        proof {
            assert(evs.take(n as int) =~= evs);
        }
    }
}

/// Entries ordered by turn.
pub open spec fn sorted_by_turn(s: Seq<(Turn, LogEventView)>) -> bool {
    forall|i: int, j: int| 0 <= i < j < s.len() ==> #[trigger] s[i].0 <= #[trigger] s[j].0
}

proof fn lemma_upper_index_sorted(r: Seq<(Turn, LogEventView)>, t: Turn)
    requires
        sorted_by_turn(r),
    ensures
        0 <= upper_index(r, t) <= r.len(),
        forall|j: int| 0 <= j < upper_index(r, t) ==> #[trigger] r[j].0 <= t,
        forall|j: int| upper_index(r, t) <= j < r.len() ==> #[trigger] r[j].0 > t,
    decreases r.len(),
{
    if r.len() > 0 {
        let d = r.drop_last();
        assert(sorted_by_turn(d)) by {
            assert forall|i: int, j: int| 0 <= i < j < d.len() implies #[trigger] d[i].0 <= #[trigger] d[j].0 by {
                assert(r[i].0 <= r[j].0);
            }
        }
        lemma_upper_index_sorted(d, t);
        if r.last().0 <= t {
            assert forall|j: int| 0 <= j < upper_index(r, t) implies #[trigger] r[j].0 <= t by {
                if j < r.len() - 1 {
                    assert(r[j].0 <= r[r.len() - 1].0);
                }
            }
        } else {
            assert forall|j: int| 0 <= j < upper_index(r, t) implies #[trigger] r[j].0 <= t by {
                assert(r[j] == d[j]);
            }
            assert forall|j: int| upper_index(r, t) <= j < r.len() implies #[trigger] r[j].0 > t by {
                if j < r.len() - 1 {
                    assert(r[j] == d[j]);
                }
            }
        }
    }
}

proof fn lemma_sort_sorted(s: Seq<(Turn, LogEventView)>)
    ensures
        sorted_by_turn(sort_by_turn(s)),
        sort_by_turn(s).len() == s.len(),
    decreases s.len(),
{
    if s.len() > 0 {
        lemma_sort_sorted(s.drop_last());
        let r = sort_by_turn(s.drop_last());
        let x = s.last();
        lemma_upper_index_sorted(r, x.0);
        let k = upper_index(r, x.0);
        let q = r.insert(k, x);
        assert forall|i: int, j: int| 0 <= i < j < q.len() implies #[trigger] q[i].0 <= #[trigger] q[j].0 by {
            if i < k && j < k {
                assert(q[i] == r[i] && q[j] == r[j]);
            } else if i < k && j == k {
                assert(q[i] == r[i]);
            } else if i < k {
                assert(q[i] == r[i] && q[j] == r[j - 1]);
            } else if i == k {
                assert(q[j] == r[j - 1]);
            } else {
                assert(q[i] == r[i - 1] && q[j] == r[j - 1]);
            }
        }
    }
}

proof fn lemma_dedup_sorted(s: Seq<(Turn, LogEventView)>)
    requires
        sorted_by_turn(s),
    ensures
        sorted_by_turn(dedup(s)),
        s.len() > 0 ==> dedup(s).len() > 0 && dedup(s).last() == s.last(),
        forall|k: int| 0 <= k < dedup(s).len() ==> s.len() > 0 && #[trigger] dedup(s)[k].0 <= s.last().0,
    decreases s.len(),
{
    if s.len() > 0 {
        let d = s.drop_last();
        assert(sorted_by_turn(d)) by {
            assert forall|i: int, j: int| 0 <= i < j < d.len() implies #[trigger] d[i].0 <= #[trigger] d[j].0 by {
                assert(s[i].0 <= s[j].0);
            }
        }
        lemma_dedup_sorted(d);
        let r = dedup(d);
        if d.len() > 0 {
            assert(d.last().0 <= s.last().0);
        }
        if r.len() > 0 && r.last() == s.last() {
        } else {
            let q = r.push(s.last());
            assert forall|i: int, j: int| 0 <= i < j < q.len() implies #[trigger] q[i].0 <= #[trigger] q[j].0 by {
                if j < r.len() {
                    assert(q[i] == r[i] && q[j] == r[j]);
                } else {
                    assert(q[i] == r[i]);
                }
            }
        }
    }
}

/// Whatever the logs held, once a client log is added they are ordered by
/// turn, and no entry follows an equal one.
pub proof fn lemma_add_orders_logs(logs: Seq<(Turn, LogEventView)>, turn: Turn, log: ClientLog)
    ensures
        sorted_by_turn(dedup(sort_by_turn(logs.push((turn, LogEventView::Client(log)))))),
        forall|i: int| 0 <= i < dedup(sort_by_turn(logs.push((turn, LogEventView::Client(log))))).len() - 1
            ==> #[trigger] dedup(sort_by_turn(logs.push((turn, LogEventView::Client(log)))))[i]
            != dedup(sort_by_turn(logs.push((turn, LogEventView::Client(log)))))[i + 1],
{
    let s = sort_by_turn(logs.push((turn, LogEventView::Client(log))));
    lemma_sort_sorted(logs.push((turn, LogEventView::Client(log))));
    lemma_dedup_sorted(s);
    lemma_dedup_no_repeat(s);
}

proof fn lemma_dedup_no_repeat(s: Seq<(Turn, LogEventView)>)
    ensures
        forall|i: int| 0 <= i < dedup(s).len() - 1 ==> #[trigger] dedup(s)[i] != dedup(s)[i + 1],
        s.len() > 0 ==> dedup(s).len() > 0 && dedup(s).last() == s.last(),
    decreases s.len(),
{
    if s.len() > 0 {
        lemma_dedup_no_repeat(s.drop_last());
        let r = dedup(s.drop_last());
        if r.len() > 0 && r.last() == s.last() {
        } else {
            let q = r.push(s.last());
            assert forall|i: int| 0 <= i < q.len() - 1 implies #[trigger] q[i] != q[i + 1] by {
                if i + 1 < r.len() {
                    assert(q[i] == r[i] && q[i + 1] == r[i + 1]);
                } else {
                    assert(q[i] == r.last());
                }
            }
        }
    }
}

} // verus!
