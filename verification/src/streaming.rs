//! A run over streamed ticks is the run over the same ticks scheduled beforehand.
use vstd::multiset::Multiset;
use vstd::prelude::*;
use vstd::seq_lib::{to_multiset_contains, to_multiset_insert, to_multiset_len, to_multiset_remove};

use crate::backtest::with_events;
use crate::callbacks::{
    breaks, breaks_on_event, event_call, hears, hears_event, may_take, takes_time,
};
use crate::engine::{
    depth_clash_text, fails_to_feed, has_intake, is_break, is_intake, is_last_move, is_move,
    is_taken, is_trace, lemma_handled_keeps, meets_wrong_depth, moves, stops_at, EngineError,
    Stage,
};
use crate::event::{Event, EventKind};
use crate::event_queue::is_next;
use crate::feeds::{
    law_next_item_is_determined, lemma_nothing_gives_nothing, takes_all, FeedItem, FeedsView, Place,
};
use crate::latency_model::LatencyModel;
use crate::queue_model::QueueModel;
use crate::reproducibility::{
    are_in_step, decides, decides_event, decides_on, ends_at, is_same_error, lemma_event_answer,
    lemma_event_does_not_fail, lemma_fed_config, lemma_known_stays, lemma_only_flush_fails,
    lemma_same_delay,
};
use crate::rng::SeededRng;
use crate::schedule::{
    feed_events, has_room, is_new, item_events, lasts, lemma_fed_on_line, lemma_feed_events_join,
    lemma_handled_on_line, lemma_new_events_len, lemma_push_all_contains, lemma_push_all_joins,
    lemma_push_all_numbered, lemma_push_all_without, lemma_push_numbered, lemma_without_numbered,
    line_of, most_new_events, new_event, new_events, on_line, Line,
};
use crate::sim_view::{delivery_ts, next_ts, EngineConfig, Outcome, SimView};
use crate::strategy::{may_hear, Command, ContextView, Strategy};

verus! {

/// What events are about: their times and kinds, in order.
pub open spec fn course(list: Seq<Event>) -> Seq<(i64, EventKind)> {
    Seq::new(list.len(), |i: int| (list[i].id.ts_sim, list[i].kind))
}

/// Whether one event comes before another.
pub open spec fn is_earlier(a: Event, b: Event) -> bool {
    a.id.precedes(b.id) && a.id != b.id
}

/// Whether a list holds the events of a queue, first to last.
pub open spec fn lists(list: Seq<Event>, queue: Multiset<Event>) -> bool {
    &&& list.to_multiset() == queue
    &&& forall|i: int, j: int|
        0 <= i < j < list.len() ==> is_earlier(#[trigger] list[i], #[trigger] list[j])
}

/// Whether the events of a queue leave in this course.
pub open spec fn leaves_as(queue: Multiset<Event>, c: Seq<(i64, EventKind)>) -> bool {
    exists|list: Seq<Event>| #[trigger] lists(list, queue) && course(list) == c
}

/// Whether the events of two queues leave in the same course.
pub open spec fn alike(a: Line, b: Line) -> bool {
    exists|c: Seq<(i64, EventKind)>| #[trigger]
        leaves_as(a.queue, c) && leaves_as(b.queue, c)
}

/// How many entries of a course come no later than a time.
pub open spec fn cut(c: Seq<(i64, EventKind)>, ts: i64) -> int
    decreases c.len(),
{
    if c.len() == 0 {
        0
    } else if c.last().0 <= ts {
        c.len() as int
    } else {
        cut(c.drop_last(), ts)
    }
}

/// A course with one more entry, behind all that come no later.
pub open spec fn joined(c: Seq<(i64, EventKind)>, new: (i64, EventKind)) -> Seq<(i64, EventKind)> {
    c.insert(cut(c, new.0), new)
}

/// Whether a course is in the order of time.
pub open spec fn in_time(c: Seq<(i64, EventKind)>) -> bool {
    forall|i: int, j: int| 0 <= i < j < c.len() ==> (#[trigger] c[i]).0 <= (#[trigger] c[j]).0
}

proof fn lemma_cut(c: Seq<(i64, EventKind)>, ts: i64)
    requires
        in_time(c),
    ensures
        0 <= cut(c, ts) <= c.len(),
        forall|i: int| 0 <= i < cut(c, ts) ==> (#[trigger] c[i]).0 <= ts,
        forall|i: int| cut(c, ts) <= i < c.len() ==> (#[trigger] c[i]).0 > ts,
    decreases c.len(),
{
    if c.len() > 0 {
        let front = c.drop_last();
        assert(in_time(front)) by {
            assert forall|i: int, j: int| 0 <= i < j < front.len() implies (#[trigger] front[i]).0
                <= (#[trigger] front[j]).0 by {
                assert(c[i].0 <= c[j].0);
            }
        }
        lemma_cut(front, ts);
        if c.last().0 <= ts {
            assert forall|i: int| 0 <= i < c.len() implies (#[trigger] c[i]).0 <= ts by {
                if i < c.len() - 1 {
                    assert(c[i].0 <= c[c.len() - 1].0);
                }
            }
        } else {
            assert forall|i: int| 0 <= i < cut(c, ts) implies (#[trigger] c[i]).0 <= ts by {
                assert(front[i].0 <= ts);
            }
            assert forall|i: int| cut(c, ts) <= i < c.len() implies (#[trigger] c[i]).0 > ts by {
                if i < front.len() {
                    assert(front[i].0 > ts);
                }
            }
        }
    }
}

/// There is one place to cut a course.
proof fn lemma_cut_unique(c: Seq<(i64, EventKind)>, ts: i64, p: int)
    requires
        in_time(c),
        0 <= p <= c.len(),
        forall|i: int| 0 <= i < p ==> (#[trigger] c[i]).0 <= ts,
        forall|i: int| p <= i < c.len() ==> (#[trigger] c[i]).0 > ts,
    ensures
        cut(c, ts) == p,
{
    lemma_cut(c, ts);
    let q = cut(c, ts);
    if p < q {
        assert(c[p].0 <= ts);
    } else if q < p {
        assert(c[q].0 <= ts);
    }
}

proof fn lemma_joined_in_time(c: Seq<(i64, EventKind)>, new: (i64, EventKind))
    requires
        in_time(c),
    ensures
        in_time(joined(c, new)),
        joined(c, new).len() == c.len() + 1,
{
    lemma_cut(c, new.0);
    let d = joined(c, new);
    let p = cut(c, new.0);
    assert forall|i: int, j: int| 0 <= i < j < d.len() implies (#[trigger] d[i]).0 <= (
    #[trigger] d[j]).0 by {
        let i0 = if i < p {
            i
        } else {
            i - 1
        };
        let j0 = if j < p {
            j
        } else {
            j - 1
        };
        if i != p {
            assert(d[i] == c[i0]);
        }
        if j != p {
            assert(d[j] == c[j0]);
        }
        if i != p && j != p {
            assert(c[i0].0 <= c[j0].0);
        }
    }
}

/// Entries of different times may join in any order.
proof fn lemma_joins_commute(
    c: Seq<(i64, EventKind)>,
    a: (i64, EventKind),
    b: (i64, EventKind),
)
    requires
        in_time(c),
        a.0 < b.0,
    ensures
        joined(joined(c, a), b) == joined(joined(c, b), a),
{
    lemma_cut(c, a.0);
    lemma_cut(c, b.0);
    let (p, q) = (cut(c, a.0), cut(c, b.0));
    assert(p <= q) by {
        if q < p {
            assert(c[q].0 <= a.0);
        }
    }
    let (ca, cb) = (joined(c, a), joined(c, b));
    lemma_joined_in_time(c, a);
    lemma_joined_in_time(c, b);
    assert(cut(ca, b.0) == q + 1) by {
        assert forall|i: int| 0 <= i < q + 1 implies (#[trigger] ca[i]).0 <= b.0 by {
            if i < p {
                assert(ca[i] == c[i]);
            } else if i > p {
                assert(ca[i] == c[i - 1]);
            }
        }
        assert forall|i: int| q + 1 <= i < ca.len() implies (#[trigger] ca[i]).0 > b.0 by {
            assert(ca[i] == c[i - 1]);
        }
        lemma_cut_unique(ca, b.0, q + 1);
    }
    assert(cut(cb, a.0) == p) by {
        assert forall|i: int| 0 <= i < p implies (#[trigger] cb[i]).0 <= a.0 by {
            assert(cb[i] == c[i]);
        }
        assert forall|i: int| p <= i < cb.len() implies (#[trigger] cb[i]).0 > a.0 by {
            if i < q {
                assert(cb[i] == c[i]);
            } else if i > q {
                assert(cb[i] == c[i - 1]);
            }
        }
        lemma_cut_unique(cb, a.0, p);
    }
    assert(joined(ca, b) =~= joined(cb, a));
}

proof fn lemma_list_in_time(list: Seq<Event>, queue: Multiset<Event>)
    requires
        lists(list, queue),
    ensures
        in_time(course(list)),
{
    let c = course(list);
    assert forall|i: int, j: int| 0 <= i < j < c.len() implies (#[trigger] c[i]).0 <= (
    #[trigger] c[j]).0 by {
        assert(is_earlier(list[i], list[j]));
    }
}

/// Scheduling an event makes it join the course.
proof fn lemma_push_joins(line: Line, c: Seq<(i64, EventKind)>, new: (i64, EventKind))
    requires
        line.is_numbered(),
        leaves_as(line.queue, c),
    ensures
        in_time(c),
        leaves_as(line.push(new).queue, joined(c, new)),
{
    let list = choose|list: Seq<Event>| #[trigger] lists(list, line.queue) && course(list) == c;
    lemma_list_in_time(list, line.queue);
    let e = line.next_event(new);
    let p = cut(c, new.0);
    lemma_cut(c, new.0);
    let longer = list.insert(p, e);
    to_multiset_insert(list, p, e);
    assert forall|i: int, j: int| 0 <= i < j < longer.len() implies is_earlier(
        #[trigger] longer[i],
        #[trigger] longer[j],
    ) by {
        let i0 = if i < p {
            i
        } else {
            i - 1
        };
        let j0 = if j < p {
            j
        } else {
            j - 1
        };
        if i != p {
            assert(longer[i] == list[i0] && c[i0].0 == list[i0].id.ts_sim);
            to_multiset_contains(list, list[i0]);
            assert(list.contains(list[i0]));
            assert(line.queue.contains(list[i0]));
        }
        if j != p {
            assert(longer[j] == list[j0] && c[j0].0 == list[j0].id.ts_sim);
        }
        if i != p && j != p {
            assert(is_earlier(list[i0], list[j0]));
        }
    }
    assert(lists(longer, line.push(new).queue));
    assert(course(longer) =~= joined(c, new));
}

/// A queue leaves in one course only.
proof fn lemma_one_list(a: Seq<Event>, b: Seq<Event>, queue: Multiset<Event>)
    requires
        lists(a, queue),
        lists(b, queue),
    ensures
        a == b,
    decreases a.len(),
{
    to_multiset_len(a);
    to_multiset_len(b);
    if a.len() > 0 {
        lemma_first_of_list(a, queue);
        lemma_first_of_list(b, queue);
        assert(a[0].id.precedes(b[0].id) && b[0].id.precedes(a[0].id));
        to_multiset_contains(a, b[0]);
        assert(a.contains(b[0]));
        let k = choose|k: int| 0 <= k < a.len() && a[k] == b[0];
        if k > 0 {
            assert(is_earlier(a[0], a[k]));
        }
        lemma_rest_of_list(a, queue);
        lemma_rest_of_list(b, queue);
        lemma_one_list(a.drop_first(), b.drop_first(), queue.remove(a[0]));
        assert(a =~= seq![a[0]] + a.drop_first());
        assert(b =~= seq![b[0]] + b.drop_first());
    } else {
        assert(a =~= b);
    }
}

proof fn lemma_first_of_list(list: Seq<Event>, queue: Multiset<Event>)
    requires
        lists(list, queue),
        list.len() > 0,
    ensures
        is_next(queue, list[0]),
{
    to_multiset_contains(list, list[0]);
    assert(list.contains(list[0]));
    assert forall|e: Event| #[trigger] queue.contains(e) implies list[0].id.precedes(e.id) by {
        to_multiset_contains(list, e);
        let k = choose|k: int| 0 <= k < list.len() && list[k] == e;
        if k > 0 {
            assert(is_earlier(list[0], list[k]));
        }
    }
}

proof fn lemma_rest_of_list(list: Seq<Event>, queue: Multiset<Event>)
    requires
        lists(list, queue),
        list.len() > 0,
    ensures
        lists(list.drop_first(), queue.remove(list[0])),
{
    to_multiset_remove(list, 0);
    assert(list.remove(0) =~= list.drop_first());
    let rest = list.drop_first();
    assert forall|i: int, j: int| 0 <= i < j < rest.len() implies is_earlier(
        #[trigger] rest[i],
        #[trigger] rest[j],
    ) by {
        assert(is_earlier(list[i + 1], list[j + 1]));
    }
}

/// The event that leaves next is the first of the list.
proof fn lemma_next_is_first(list: Seq<Event>, queue: Multiset<Event>, event: Event)
    requires
        lists(list, queue),
        is_next(queue, event),
    ensures
        list.len() > 0,
        list[0] == event,
{
    to_multiset_contains(list, event);
    let k = choose|k: int| 0 <= k < list.len() && list[k] == event;
    lemma_first_of_list(list, queue);
    if k > 0 {
        assert(is_earlier(list[0], list[k]));
        assert(event.id.precedes(list[0].id));
    }
}

pub proof fn lemma_alike_joins(a: Line, b: Line, c: Line)
    requires
        alike(a, b),
        alike(b, c),
    ensures
        alike(a, c),
{
    let x = choose|x: Seq<(i64, EventKind)>| #[trigger]
        leaves_as(a.queue, x) && leaves_as(b.queue, x);
    let y = choose|y: Seq<(i64, EventKind)>| #[trigger]
        leaves_as(b.queue, y) && leaves_as(c.queue, y);
    let p = choose|list: Seq<Event>| #[trigger] lists(list, b.queue) && course(list) == x;
    let q = choose|list: Seq<Event>| #[trigger] lists(list, b.queue) && course(list) == y;
    lemma_one_list(p, q, b.queue);
    assert(leaves_as(a.queue, x) && leaves_as(c.queue, x));
}

/// Of two queues that are alike, the same event leaves next, and they stay alike.
pub proof fn lemma_alike_pop(a: Line, b: Line, event: Event, other: Event)
    requires
        alike(a, b),
        is_next(a.queue, event),
        is_next(b.queue, other),
    ensures
        event.id.ts_sim == other.id.ts_sim,
        event.kind == other.kind,
        alike(a.without(event), b.without(other)),
{
    let c = choose|c: Seq<(i64, EventKind)>| #[trigger]
        leaves_as(a.queue, c) && leaves_as(b.queue, c);
    let p = choose|list: Seq<Event>| #[trigger] lists(list, a.queue) && course(list) == c;
    let q = choose|list: Seq<Event>| #[trigger] lists(list, b.queue) && course(list) == c;
    lemma_next_is_first(p, a.queue, event);
    lemma_next_is_first(q, b.queue, other);
    assert(course(p)[0] == course(q)[0]);
    lemma_rest_of_list(p, a.queue);
    lemma_rest_of_list(q, b.queue);
    let d = c.drop_first();
    assert(course(p.drop_first()) =~= d);
    assert(course(q.drop_first()) =~= d);
    assert(leaves_as(a.without(event).queue, d) && leaves_as(b.without(other).queue, d));
}

/// Queues that are alike have as many events.
pub proof fn lemma_alike_len(a: Line, b: Line)
    requires
        alike(a, b),
    ensures
        a.queue.len() == b.queue.len(),
{
    let c = choose|c: Seq<(i64, EventKind)>| #[trigger]
        leaves_as(a.queue, c) && leaves_as(b.queue, c);
    let p = choose|list: Seq<Event>| #[trigger] lists(list, a.queue) && course(list) == c;
    let q = choose|list: Seq<Event>| #[trigger] lists(list, b.queue) && course(list) == c;
    to_multiset_len(p);
    to_multiset_len(q);
    assert(course(p).len() == course(q).len());
}

pub proof fn lemma_alike_push(a: Line, b: Line, new: (i64, EventKind))
    requires
        alike(a, b),
        a.is_numbered(),
        b.is_numbered(),
    ensures
        alike(a.push(new), b.push(new)),
{
    let c = choose|c: Seq<(i64, EventKind)>| #[trigger]
        leaves_as(a.queue, c) && leaves_as(b.queue, c);
    lemma_push_joins(a, c, new);
    lemma_push_joins(b, c, new);
    assert(leaves_as(a.push(new).queue, joined(c, new)));
}

pub proof fn lemma_alike_push_all(a: Line, b: Line, new: Seq<(i64, EventKind)>)
    requires
        alike(a, b),
        a.is_numbered(),
        b.is_numbered(),
        a.next + new.len() <= u64::MAX,
        b.next + new.len() <= u64::MAX,
    ensures
        alike(a.push_all(new), b.push_all(new)),
    decreases new.len(),
{
    if new.len() > 0 {
        let front = new.drop_last();
        lemma_alike_push_all(a, b, front);
        lemma_push_all_numbered(a, front);
        lemma_push_all_numbered(b, front);
        lemma_alike_push(a.push_all(front), b.push_all(front), new.last());
    }
}

/// A queue with a course is alike itself.
pub proof fn lemma_alike_itself(a: Line, c: Seq<(i64, EventKind)>)
    requires
        leaves_as(a.queue, c),
    ensures
        alike(a, a),
{
}

/// Events of different times may be scheduled in any order.
proof fn lemma_swap(line: Line, c: Seq<(i64, EventKind)>, a: (i64, EventKind), b: (i64, EventKind))
    requires
        line.is_numbered(),
        line.next + 2 <= u64::MAX,
        leaves_as(line.queue, c),
        a.0 != b.0,
    ensures
        alike(line.push(a).push(b), line.push(b).push(a)),
{
    lemma_push_numbered(line, a);
    lemma_push_numbered(line, b);
    lemma_push_joins(line, c, a);
    lemma_push_joins(line, c, b);
    lemma_push_joins(line.push(a), joined(c, a), b);
    lemma_push_joins(line.push(b), joined(c, b), a);
    if a.0 < b.0 {
        lemma_joins_commute(c, a, b);
    } else {
        lemma_joins_commute(c, b, a);
    }
    let d = joined(joined(c, a), b);
    assert(leaves_as(line.push(a).push(b).queue, d) && leaves_as(line.push(b).push(a).queue, d));
}

/// Whether no event of one list has the time of one of another.
pub open spec fn is_apart(a: Seq<(i64, EventKind)>, b: Seq<(i64, EventKind)>) -> bool {
    forall|i: int, j: int|
        0 <= i < a.len() && 0 <= j < b.len() ==> (#[trigger] a[i]).0 != (#[trigger] b[j]).0
}

proof fn lemma_push_all_leaves(line: Line, c: Seq<(i64, EventKind)>, new: Seq<(i64, EventKind)>)
    requires
        line.is_numbered(),
        line.next + new.len() <= u64::MAX,
        leaves_as(line.queue, c),
    ensures
        exists|d: Seq<(i64, EventKind)>| leaves_as(line.push_all(new).queue, d),
    decreases new.len(),
{
    if new.len() > 0 {
        let front = new.drop_last();
        lemma_push_all_leaves(line, c, front);
        lemma_push_all_numbered(line, front);
        let d = choose|d: Seq<(i64, EventKind)>| leaves_as(line.push_all(front).queue, d);
        lemma_push_joins(line.push_all(front), d, new.last());
        assert(leaves_as(line.push_all(new).queue, joined(d, new.last())));
    } else {
        assert(leaves_as(line.push_all(new).queue, c));
    }
}

/// One event may be scheduled before several of other times, or behind them.
proof fn lemma_swap_one(
    line: Line,
    c: Seq<(i64, EventKind)>,
    many: Seq<(i64, EventKind)>,
    one: (i64, EventKind),
)
    requires
        line.is_numbered(),
        line.next + many.len() + 1 <= u64::MAX,
        leaves_as(line.queue, c),
        forall|j: int| 0 <= j < many.len() ==> (#[trigger] many[j]).0 != one.0,
    ensures
        alike(line.push_all(many).push(one), line.push(one).push_all(many)),
    decreases many.len(),
{
    lemma_push_numbered(line, one);
    lemma_push_joins(line, c, one);
    if many.len() == 0 {
        lemma_alike_itself(line.push(one), joined(c, one));
    } else {
        let front = many.drop_last();
        let last = many.last();
        lemma_push_all_numbered(line, front);
        lemma_push_all_numbered(line.push(one), front);
        assert forall|j: int| 0 <= j < front.len() implies (#[trigger] front[j]).0 != one.0 by {
            assert(front[j] == many[j]);
        }
        lemma_swap_one(line, c, front, one);
        lemma_push_all_leaves(line, c, front);
        let d = choose|d: Seq<(i64, EventKind)>| leaves_as(line.push_all(front).queue, d);
        assert(last.0 != one.0) by {
            assert(many[many.len() - 1].0 != one.0);
        }
        lemma_swap(line.push_all(front), d, last, one);
        lemma_push_numbered(line.push_all(front), one);
        lemma_alike_push(line.push_all(front).push(one), line.push(one).push_all(front), last);
        lemma_alike_joins(
            line.push_all(many).push(one),
            line.push_all(front).push(one).push(last),
            line.push(one).push_all(many),
        );
    }
}

/// Several events may be scheduled before several of other times, or behind them.
pub proof fn lemma_swap_all(
    line: Line,
    c: Seq<(i64, EventKind)>,
    a: Seq<(i64, EventKind)>,
    b: Seq<(i64, EventKind)>,
)
    requires
        line.is_numbered(),
        line.next + a.len() + b.len() <= u64::MAX,
        leaves_as(line.queue, c),
        is_apart(b, a),
    ensures
        alike(line.push_all(a).push_all(b), line.push_all(b).push_all(a)),
    decreases b.len(),
{
    lemma_push_all_numbered(line, a);
    lemma_push_all_numbered(line, b);
    if b.len() == 0 {
        lemma_push_all_leaves(line, c, a);
        let d = choose|d: Seq<(i64, EventKind)>| leaves_as(line.push_all(a).queue, d);
        lemma_alike_itself(line.push_all(a), d);
    } else {
        let front = b.drop_last();
        let last = b.last();
        assert(is_apart(front, a)) by {
            assert forall|i: int, j: int| 0 <= i < front.len() && 0 <= j < a.len() implies (
            #[trigger] front[i]).0 != (#[trigger] a[j]).0 by {
                assert(b[i].0 != a[j].0);
            }
        }
        lemma_swap_all(line, c, a, front);
        lemma_push_all_numbered(line, front);
        lemma_push_all_numbered(line.push_all(a), front);
        lemma_push_all_numbered(line.push_all(front), a);
        lemma_alike_push(
            line.push_all(a).push_all(front),
            line.push_all(front).push_all(a),
            last,
        );
        lemma_push_all_leaves(line, c, front);
        let d = choose|d: Seq<(i64, EventKind)>| leaves_as(line.push_all(front).queue, d);
        assert forall|j: int| 0 <= j < a.len() implies (#[trigger] a[j]).0 != last.0 by {
            assert(b[b.len() - 1].0 != a[j].0);
        }
        lemma_swap_one(line.push_all(front), d, a, last);
        lemma_alike_joins(
            line.push_all(a).push_all(b),
            line.push_all(front).push_all(a).push(last),
            line.push_all(b).push_all(a),
        );
    }
}

proof fn lemma_leaves_without(line: Line, c: Seq<(i64, EventKind)>, event: Event)
    requires
        line.is_numbered(),
        leaves_as(line.queue, c),
        is_next(line.queue, event),
    ensures
        line.without(event).is_numbered(),
        exists|d: Seq<(i64, EventKind)>| leaves_as(line.without(event).queue, d),
{
    let list = choose|list: Seq<Event>| #[trigger] lists(list, line.queue) && course(list) == c;
    lemma_next_is_first(list, line.queue, event);
    lemma_rest_of_list(list, line.queue);
    assert(leaves_as(line.without(event).queue, course(list.drop_first())));
    lemma_without_numbered(line, event);
}

/// Later events do not change which one is next.
proof fn lemma_next_stays(line: Line, later: Seq<(i64, EventKind)>, event: Event)
    requires
        line.next + later.len() <= u64::MAX,
        is_next(line.queue, event),
        forall|i: int| 0 <= i < later.len() ==> (#[trigger] later[i]).0 > event.id.ts_sim,
    ensures
        is_next(line.push_all(later).queue, event),
{
    lemma_push_all_contains(line, later, event);
    assert forall|e: Event| #[trigger] line.push_all(later).queue.contains(e) implies
        event.id.precedes(e.id) by {
        lemma_push_all_contains(line, later, e);
        if is_new(line, later, e) {
            let i = choose|i: int|
                0 <= i < later.len() && #[trigger] new_event(line, later, i) == e;
            assert(later[i].0 > event.id.ts_sim);
        }
    }
}

/// One source of ticks, of which all that is to come is known.
pub open spec fn is_single(feeds: FeedsView) -> bool {
    feeds.is_known() && feeds.ticks.len() == 1 && feeds.books.len() == 0
}

/// The items that are still to come from a single source.
pub open spec fn to_come(feeds: FeedsView) -> Seq<FeedItem> {
    feeds.ticks[0].rest.unwrap()
}

proof fn lemma_single_gives(states: Seq<FeedsView>, items: Seq<FeedItem>, i: int)
    requires
        takes_all(states, items),
        is_single(states.first()),
        0 <= i < states.len(),
    ensures
        is_single(states[i]),
        i <= to_come(states.first()).len(),
        to_come(states[i]) == to_come(states.first()).skip(i),
        items.take(i) == to_come(states.first()).take(i),
    decreases i,
{
    let all = to_come(states.first());
    let place = Place { is_tick: true, idx: 0 };
    if i == 0 {
        assert(all.skip(0) =~= all);
        assert(items.take(0) =~= all.take(0));
    } else {
        lemma_single_gives(states, items, i - 1);
        let before = states[i - 1];
        assert(before.takes(items[i - 1], states[i]));
        law_next_item_is_determined(before, items[i - 1], states[i], items[i - 1], states[i]);
        let taken = choose|p: Place| #[trigger]
            before.takes_at(p, states[i]) && before.item(p) == items[i - 1];
        assert(taken == place);
        assert(before.is_place(place));
        assert(states[i].is_place(place));
        let rest = to_come(before);
        assert(rest.len() > 0 && items[i - 1] == rest[0]);
        assert(rest[0] == all[i - 1]);
        assert(to_come(states[i]) =~= all.skip(i));
        assert(items.take(i) =~= all.take(i)) by {
            assert forall|k: int| 0 <= k < i implies items[k] == all[k] by {
                if k < i - 1 {
                    assert(items.take(i - 1)[k] == all.take(i - 1)[k]);
                }
            }
        }
    }
}

/// Whether market data is a stream of ticks in the order of time, none of which reaches
/// the strategy before it happens.
pub open spec fn is_stream(config: EngineConfig, items: Seq<FeedItem>) -> bool {
    &&& forall|i: int|
        0 <= i < items.len() ==> ((#[trigger] items[i]) matches FeedItem::Tick(tick)
            && delivery_ts(config, tick) >= tick.ts_exchange)
    &&& forall|i: int, j: int|
        0 <= i < j < items.len() ==> (#[trigger] items[i]).ts() <= (#[trigger] items[j]).ts()
}

/// All events of a stream that begins after a time come after it.
proof fn lemma_stream_is_later(config: EngineConfig, items: Seq<FeedItem>, ts: i64)
    requires
        is_stream(config, items),
        items.len() > 0 ==> items[0].ts() > ts,
    ensures
        forall|i: int|
            0 <= i < feed_events(config, items).len() ==> (#[trigger] feed_events(
                config,
                items,
            )[i]).0 > ts,
    decreases items.len(),
{
    if items.len() > 0 {
        let front = items.drop_last();
        assert(is_stream(config, front)) by {
            assert forall|i: int| 0 <= i < front.len() implies ((
            #[trigger] front[i]) matches FeedItem::Tick(tick) && delivery_ts(config, tick)
                >= tick.ts_exchange) by {
                assert(front[i] == items[i]);
            }
            assert forall|i: int, j: int| 0 <= i < j < front.len() implies (
            #[trigger] front[i]).ts() <= (#[trigger] front[j]).ts() by {
                assert(items[i].ts() <= items[j].ts());
            }
        }
        lemma_stream_is_later(config, front, ts);
        let last = items.last();
        assert(last == items[items.len() - 1]);
        assert(last.ts() >= items[0].ts());
        let (x, y) = (feed_events(config, front), item_events(config, last));
        assert forall|i: int| 0 <= i < feed_events(config, items).len() implies (
        #[trigger] feed_events(config, items)[i]).0 > ts by {
            if i < x.len() {
                assert(feed_events(config, items)[i] == x[i]);
            } else {
                assert(feed_events(config, items)[i] == y[i - x.len()]);
            }
        }
    }
}

proof fn lemma_rest_is_stream(config: EngineConfig, items: Seq<FeedItem>, n: int)
    requires
        is_stream(config, items),
        0 <= n <= items.len(),
    ensures
        is_stream(config, items.skip(n)),
{
    let rest = items.skip(n);
    assert forall|i: int| 0 <= i < rest.len() implies ((
    #[trigger] rest[i]) matches FeedItem::Tick(tick) && delivery_ts(config, tick)
        >= tick.ts_exchange) by {
        assert(rest[i] == items[i + n]);
    }
    assert forall|i: int, j: int| 0 <= i < j < rest.len() implies (#[trigger] rest[i]).ts() <= (
    #[trigger] rest[j]).ts() by {
        assert(items[i + n].ts() <= items[j + n].ts());
    }
}

/// The events that are still to come from the source of a stage.
pub open spec fn pending<Q: QueueModel, S: Strategy, L: LatencyModel>(
    a: Stage<Q, S, L>,
) -> Seq<(i64, EventKind)> {
    feed_events(a.sim.config, to_come(a.feeds))
}

/// Whether the run in `b` is where the run in `a` is, but for the ticks that `a` has still
/// to stream: they are scheduled in `b` already.
pub open spec fn is_ahead<Q: QueueModel, S: Strategy, L: LatencyModel>(
    a: Stage<Q, S, L>,
    b: Stage<Q, S, L>,
) -> bool {
    &&& a.sim.config.mode is Tick
    &&& is_single(a.feeds)
    &&& is_stream(a.sim.config, to_come(a.feeds))
    &&& b.feeds == FeedsView::nothing()
    &&& b.trader == a.trader
    &&& b.latency == a.latency
    &&& are_in_step(a.latency, a.rng, b.rng)
    &&& b.sim == on_line(a.sim, line_of(b.sim))
    &&& line_of(a.sim).is_numbered()
    &&& line_of(b.sim).is_numbered()
    &&& b.sim.next_event_seq == a.sim.next_event_seq + pending(a).len()
    &&& exists|c: Seq<(i64, EventKind)>| leaves_as(a.sim.queue, c)
    &&& alike(line_of(a.sim).push_all(pending(a)), line_of(b.sim))
}

/// Whether nothing that a move schedules has the time of an event of a tick that is still
/// to come.
pub open spec fn is_spaced<Q: QueueModel, S: Strategy, L: LatencyModel>(
    a: Stage<Q, S, L>,
    after: Stage<Q, S, L>,
) -> bool {
    forall|e: Event, i: int|
        #![trigger after.sim.queue.contains(e), pending(after)[i]]
        after.sim.queue.contains(e) && e.id.seq >= a.sim.next_event_seq + pending(a).len()
            - pending(after).len() && 0 <= i < pending(after).len() ==> e.id.ts_sim
            != pending(after)[i].0
}

/// What comes in for a step is the next part of the stream, and what is left comes after
/// the event that is processed.
proof fn lemma_streamed_intake<Q: QueueModel, S: Strategy, L: LatencyModel>(
    a: Stage<Q, S, L>,
    items: Seq<FeedItem>,
    left: FeedsView,
    event: Event,
)
    requires
        is_single(a.feeds),
        is_stream(a.sim.config, to_come(a.feeds)),
        is_intake(a.sim, a.feeds, items, left),
        is_next(a.sim.fed_all(items).queue, event),
    ensures
        is_single(left),
        is_stream(a.sim.config, to_come(left)),
        to_come(a.feeds) == items + to_come(left),
        forall|i: int|
            0 <= i < feed_events(a.sim.config, to_come(left)).len() ==> (#[trigger] feed_events(
                a.sim.config,
                to_come(left),
            )[i]).0 > event.id.ts_sim,
{
    let states = choose|states: Seq<FeedsView>| #[trigger]
        takes_all(states, items) && states.first() == a.feeds && states.last() == left;
    let n = items.len() as int;
    lemma_single_gives(states, items, n);
    let all = to_come(a.feeds);
    assert(items.take(n) =~= items);
    assert(all =~= items + to_come(left));
    lemma_rest_is_stream(a.sim.config, all, n);
    let rest = to_come(left);
    if rest.len() > 0 {
        let place = Place { is_tick: true, idx: 0 };
        assert(left.is_place(place));
        assert(left.waits(place));
        assert(left.item(place) == rest[0]);
        lemma_next_time(a.sim.fed_all(items).queue, event);
    }
    lemma_stream_is_later(a.sim.config, rest, event.id.ts_sim);
}

proof fn lemma_next_time(queue: Multiset<Event>, event: Event)
    requires
        is_next(queue, event),
    ensures
        next_ts(queue) == Some(event.id.ts_sim),
{
    let other = choose|other: Event| is_next(queue, other);
    assert(other.id.precedes(event.id) && event.id.precedes(other.id));
    vstd::multiset::axiom_count_le_len(queue, event);
}

/// The state in which a move takes up an event, on its queue.
proof fn lemma_at_on_line<Q: QueueModel, S: Strategy, L: LatencyModel>(
    a: Stage<Q, S, L>,
    items: Seq<FeedItem>,
    event: Event,
)
    ensures
        a.at(items, event) == on_line(
            SimView { now: event.id.ts_sim, ..a.sim },
            line_of(a.sim).push_all(feed_events(a.sim.config, items)).without(event),
        ),
{
    lemma_fed_on_line(a.sim, items);
}

/// In tick mode an event is handled, and there is no wake-up.
proof fn lemma_tick_mode<Q: QueueModel, S: Strategy>(
    trader: S,
    at: SimView<Q>,
    kind: EventKind,
    x: Outcome,
    then: S,
)
    requires
        at.config.mode is Tick,
        hears(trader, at, kind, x, then),
    ensures
        at.taken_up(kind, x) == if at.is_unknown_cancel(kind) {
            at
        } else {
            at.handled(kind, x.commands, x.delay)
        },
        at.is_unknown_cancel(kind) ==> then == trader,
        !at.is_unknown_cancel(kind) ==> hears_event(trader, at, kind, x.commands, then),
{
    reveal(SimView::taken_up);
    reveal(hears);
    lemma_handled_keeps(at, kind, x.commands, x.delay);
}

/// Handling does not ask for a delay where none is needed.
proof fn lemma_delay_does_not_matter<Q: QueueModel>(
    at: SimView<Q>,
    kind: EventKind,
    commands: Seq<Command>,
    delay: i64,
    other: i64,
)
    requires
        takes_time(at, kind) ==> delay == other,
    ensures
        at.handled(kind, commands, delay) == at.handled(kind, commands, other),
{
}

/// Both runs do the same with the next event, and schedule the same.
proof fn lemma_same_handling<Q: QueueModel, S: Strategy, L: LatencyModel>(
    trader: S,
    latency: L,
    at: SimView<Q>,
    line: Line,
    kind: EventKind,
    rng: SeededRng,
    x: Outcome,
    then: S,
    drawn: SeededRng,
    other_rng: SeededRng,
    y: Outcome,
    other_then: S,
    other_drawn: SeededRng,
) -> (new: Seq<(i64, EventKind)>)
    requires
        decides_on(trader, latency, rng, at, kind),
        are_in_step(latency, rng, other_rng),
        at.config.mode is Tick,
        hears(trader, at, kind, x, then),
        hears(trader, on_line(at, line), kind, y, other_then),
        may_take(latency, at, kind, rng, x.delay, drawn),
        may_take(latency, on_line(at, line), kind, other_rng, y.delay, other_drawn),
    ensures
        then == other_then,
        are_in_step(latency, drawn, other_drawn),
        at.taken_up(kind, x).config == at.config,
        line_of(at.taken_up(kind, x)) == line_of(at).push_all(new),
        on_line(at, line).taken_up(kind, y) == on_line(at.taken_up(kind, x), line.push_all(new)),
        new.len() <= most_new_events(on_line(at, line), kind, y.commands),
{
    reveal(decides_on);
    let bt = on_line(at, line);
    assert(takes_time(at, kind) == takes_time(bt, kind)) by {
        if let EventKind::OrderCancel { order_id } = kind {
            assert(bt.exchange(bt.routes[order_id]) == at.exchange(at.routes[order_id]));
        }
    }
    lemma_same_delay(
        latency,
        at,
        kind,
        x.commands,
        rng,
        x.delay,
        drawn,
        other_rng,
        y.delay,
        other_drawn,
    );
    lemma_tick_mode(trader, at, kind, x, then);
    lemma_tick_mode(trader, bt, kind, y, other_then);
    if at.is_unknown_cancel(kind) {
        assert(line_of(at).push_all(Seq::empty()) == line_of(at));
        assert(line.push_all(Seq::empty()) == line);
        Seq::empty()
    } else {
        assert(event_call(bt, kind) == event_call(at, kind));
        assert(hears_event(trader, at, kind, y.commands, other_then));
        lemma_event_answer(trader, at, kind, x.commands, then, y.commands, other_then);
        if takes_time(at, kind) {
            assert(latency.may_delay_order(at.now, rng.state(), x.delay, drawn.state()));
            assert(latency.may_delay_order(
                at.now,
                other_rng.state(),
                y.delay,
                other_drawn.state(),
            ));
        }
        lemma_delay_does_not_matter(bt, kind, x.commands, y.delay, x.delay);
        let new = new_events(at, kind, x.commands, x.delay);
        lemma_handled_on_line(at, line_of(at), kind, x.commands, x.delay);
        assert(on_line(at, line_of(at)) =~= at);
        lemma_handled_on_line(at, line, kind, x.commands, x.delay);
        lemma_handled_keeps(at, kind, x.commands, x.delay);
        lemma_new_events_len(at, kind, x.commands, x.delay);
        assert(most_new_events(at, kind, x.commands) == most_new_events(bt, kind, y.commands)) by {
            if let EventKind::Tick(tick) = kind {
                assert(bt.exchange(tick.symbol_id) == at.exchange(tick.symbol_id));
            }
        }
        new
    }
}

/// Both runs take up the same event next, in the same state but for the queue, and what
/// is left of the queues stays alike.
proof fn lemma_same_next<Q: QueueModel, S: Strategy, L: LatencyModel>(
    a: Stage<Q, S, L>,
    b: Stage<Q, S, L>,
    items: Seq<FeedItem>,
    left: FeedsView,
    e: Event,
    f: Event,
)
    requires
        is_ahead(a, b),
        is_intake(a.sim, a.feeds, items, left),
        is_next(a.sim.fed_all(items).queue, e),
        is_next(b.sim.queue, f),
    ensures
        e.kind == f.kind,
        b.at(Seq::empty(), f) == on_line(a.at(items, e), line_of(b.sim).without(f)),
        line_of(a.at(items, e)) == line_of(a.sim).push_all(
            feed_events(a.sim.config, items),
        ).without(e),
        line_of(a.at(items, e)).is_numbered(),
        a.at(items, e).next_event_seq + feed_events(a.sim.config, to_come(left)).len()
            == b.sim.next_event_seq,
        exists|c: Seq<(i64, EventKind)>| leaves_as(a.at(items, e).queue, c),
        alike(
            line_of(a.at(items, e)).push_all(feed_events(a.sim.config, to_come(left))),
            line_of(b.sim).without(f),
        ),
{
    let config = a.sim.config;
    lemma_streamed_intake(a, items, left, e);
    let (first, later) = (feed_events(config, items), feed_events(config, to_come(left)));
    lemma_feed_events_join(config, items, to_come(left));
    assert(pending(a) == first + later);
    let la = line_of(a.sim).push_all(first);
    let lb = line_of(b.sim);
    lemma_push_all_joins(line_of(a.sim), first, later);
    lemma_push_all_numbered(line_of(a.sim), first);
    let c0 = choose|c: Seq<(i64, EventKind)>| leaves_as(a.sim.queue, c);
    lemma_push_all_leaves(line_of(a.sim), c0, first);
    let c1 = choose|c: Seq<(i64, EventKind)>| leaves_as(la.queue, c);
    lemma_fed_on_line(a.sim, items);
    assert(is_next(la.queue, e) && is_next(lb.queue, f));
    lemma_next_stays(la, later, e);
    lemma_alike_pop(la.push_all(later), lb, e, f);
    lemma_push_all_without(la, later, e);
    lemma_leaves_without(la, c1, e);
    lemma_without_numbered(la, e);
    lemma_at_on_line(a, items, e);
    lemma_at_on_line(b, Seq::empty(), f);
    assert(lb.push_all(Seq::empty()) == lb);
    assert(b.at(Seq::empty(), f) =~= on_line(a.at(items, e), lb.without(f)));
    assert(line_of(a.at(items, e)) =~= la.without(e));
}

/// A move over streamed ticks goes with a move over scheduled ones.
pub proof fn law_streamed_move<Q: QueueModel, S: Strategy, L: LatencyModel>(
    a: Stage<Q, S, L>,
    a2: Stage<Q, S, L>,
    b: Stage<Q, S, L>,
    b2: Stage<Q, S, L>,
)
    requires
        is_ahead(a, b),
        decides(a),
        moves(a, a2),
        moves(b, b2),
        is_spaced(a, a2),
        lasts(b, b2),
    ensures
        is_ahead(a2, b2),
        a2.latency == a.latency,
{
    assert(!(exists|x: Outcome| #[trigger] is_last_move(a, a2, x)));
    assert(!(exists|x: Outcome| #[trigger] is_last_move(b, b2, x)));
    let (e, x) = choose|e: Event, x: Outcome| #[trigger] is_move(a, a2, e, x);
    let (f, y) = choose|f: Event, y: Outcome| #[trigger] is_move(b, b2, f, y);
    assert(is_move(a, a2, e, x) && is_move(b, b2, f, y));
    let config = a.sim.config;
    lemma_streamed_intake(a, x.items, a2.feeds, e);
    assert(b.feeds.is_exhausted());
    lemma_nothing_gives_nothing(b.feeds, y.items, b2.feeds);
    assert(has_room(b.sim, f, y));
    // The same event is next.
    lemma_same_next(a, b, x.items, a2.feeds, e, f);
    let later = feed_events(config, to_come(a2.feeds));
    let la = line_of(a.sim).push_all(feed_events(config, x.items));
    let lb = line_of(b.sim);
    let c2 = choose|c: Seq<(i64, EventKind)>| leaves_as(la.without(e).queue, c);
    lemma_without_numbered(lb, f);
    // It is handled alike.
    let at = a.at(x.items, e);
    assert(has_intake(a.sim, a.feeds, x.items));
    assert(decides_on(a.trader, a.latency, a.rng, at, e.kind));
    let new = lemma_same_handling(
        a.trader,
        a.latency,
        at,
        lb.without(f),
        e.kind,
        a.rng,
        x,
        a2.trader,
        a2.rng,
        b.rng,
        y,
        b2.trader,
        b2.rng,
    );
    assert(line_of(at) =~= la.without(e));
    // What it schedules joins both queues alike.
    let (ra, rb) = (la.without(e), lb.without(f));
    lemma_push_all_numbered(ra, later);
    lemma_push_all_numbered(ra, new);
    lemma_push_all_numbered(rb, new);
    lemma_alike_push_all(ra.push_all(later), rb, new);
    assert(pending(a2) == later);
    assert(is_apart(new, later)) by {
        assert forall|i: int, j: int| 0 <= i < new.len() && 0 <= j < later.len() implies (
        #[trigger] new[i]).0 != (#[trigger] later[j]).0 by {
            let g = new_event(ra, new, i);
            lemma_push_all_contains(ra, new, g);
            assert(is_new(ra, new, g));
            assert(a2.sim.queue.contains(g));
            assert(pending(a2)[j] == later[j]);
        }
    }
    lemma_swap_all(ra, c2, later, new);
    lemma_alike_symmetric(ra.push_all(later).push_all(new), ra.push_all(new).push_all(later));
    lemma_alike_joins(
        ra.push_all(new).push_all(later),
        ra.push_all(later).push_all(new),
        rb.push_all(new),
    );
    lemma_push_all_leaves(ra, c2, new);
    assert(line_of(a2.sim) == ra.push_all(new));
    assert(line_of(b2.sim) =~= rb.push_all(new));
    assert(b2.sim =~= on_line(a2.sim, line_of(b2.sim)));
}

proof fn lemma_alike_symmetric(a: Line, b: Line)
    requires
        alike(a, b),
    ensures
        alike(b, a),
{
    let c = choose|c: Seq<(i64, EventKind)>| #[trigger]
        leaves_as(a.queue, c) && leaves_as(b.queue, c);
    assert(leaves_as(b.queue, c) && leaves_as(a.queue, c));
}

proof fn lemma_streamed_trace<Q: QueueModel, S: Strategy, L: LatencyModel>(
    streamed: Seq<Stage<Q, S, L>>,
    scheduled: Seq<Stage<Q, S, L>>,
    i: int,
)
    requires
        is_trace(streamed),
        is_trace(scheduled),
        is_ahead(streamed.first(), scheduled.first()),
        forall|k: int|
            0 <= k < streamed.len() - 1 ==> is_spaced(#[trigger] streamed[k], streamed[k + 1]),
        forall|k: int|
            0 <= k < scheduled.len() - 1 ==> lasts(#[trigger] scheduled[k], scheduled[k + 1]),
        0 <= i < streamed.len(),
        i < scheduled.len(),
        forall|k: int| 0 <= k < i ==> decides(#[trigger] streamed[k]),
    ensures
        is_ahead(streamed[i], scheduled[i]),
        streamed[i].latency == streamed.first().latency,
    decreases i,
{
    if i > 0 {
        lemma_streamed_trace(streamed, scheduled, i - 1);
        assert(decides(streamed[i - 1]));
        assert(moves(streamed[i - 1], streamed[i - 1 + 1]));
        assert(moves(scheduled[i - 1], scheduled[i - 1 + 1]));
        assert(is_spaced(streamed[i - 1], streamed[i - 1 + 1]));
        assert(lasts(scheduled[i - 1], scheduled[i - 1 + 1]));
        law_streamed_move(streamed[i - 1], streamed[i], scheduled[i - 1], scheduled[i]);
    }
}

/// Where one of two runs that go together has nothing left, the other has not either.
proof fn lemma_end_together<Q: QueueModel, S: Strategy, L: LatencyModel>(
    a: Stage<Q, S, L>,
    b: Stage<Q, S, L>,
)
    requires
        is_ahead(a, b),
    ensures
        (a.sim.queue.len() == 0 && a.feeds.is_exhausted()) == (b.sim.queue.len() == 0),
{
    let place = Place { is_tick: true, idx: 0 };
    assert(a.feeds.is_place(place));
    let rest = to_come(a.feeds);
    let full = line_of(a.sim).push_all(pending(a));
    lemma_alike_len(full, line_of(b.sim));
    if a.feeds.is_exhausted() {
        assert(!a.feeds.waits(place));
        assert(rest.len() == 0);
        assert(full == line_of(a.sim));
    }
    if full.queue.len() == 0 {
        assert forall|e: Event| !line_of(a.sim).queue.contains(e) by {
            lemma_push_all_contains(line_of(a.sim), pending(a), e);
            vstd::multiset::axiom_count_le_len(full.queue, e);
        }
        assert(a.sim.queue =~= Multiset::empty()) by {
            assert forall|e: Event| a.sim.queue.count(e) == 0 by {
                assert(!line_of(a.sim).queue.contains(e));
            }
        }
        assert(rest.len() == 0) by {
            if rest.len() > 0 {
                lemma_feed_events_grow(a.sim.config, rest);
                let e = new_event(line_of(a.sim), pending(a), 0);
                lemma_push_all_contains(line_of(a.sim), pending(a), e);
                assert(is_new(line_of(a.sim), pending(a), e));
                vstd::multiset::axiom_count_le_len(full.queue, e);
            }
        }
        assert forall|p: Place| !(#[trigger] a.feeds.waits(p)) by {
            if a.feeds.is_place(p) {
                assert(p == place);
            }
        }
    }
}

proof fn lemma_feed_events_grow(config: EngineConfig, items: Seq<FeedItem>)
    requires
        items.len() > 0,
    ensures
        feed_events(config, items).len() > 0,
{
    assert(item_events(config, items.last()).len() > 0);
}

proof fn lemma_nothing_left_ends<Q: QueueModel, S: Strategy, L: LatencyModel>(
    before: Stage<Q, S, L>,
    after: Stage<Q, S, L>,
)
    requires
        before.sim.config.mode is Tick,
        before.sim.queue.len() == 0,
        before.feeds.is_exhausted(),
    ensures
        !moves(before, after),
{
    if exists|event: Event, x: Outcome| #[trigger] is_move(before, after, event, x) {
        let (event, x) = choose|event: Event, x: Outcome| #[trigger]
            is_move(before, after, event, x);
        lemma_nothing_gives_nothing(before.feeds, x.items, after.feeds);
        assert(before.sim.queue.contains(event));
        vstd::multiset::axiom_count_le_len(before.sim.queue, event);
    }
}

/// Events that are scheduled one by one only change the queue.
proof fn lemma_with_events_on_line<Q: QueueModel>(s: SimView<Q>, events: Seq<(i64, EventKind)>)
    ensures
        with_events(s, events) == on_line(s, line_of(s).push_all(events)),
    decreases events.len(),
{
    if events.len() > 0 {
        lemma_with_events_on_line(s, events.drop_last());
    }
}

/// A simulation in which nothing is queued, with a source of ticks, is where the one is in
/// which the events of these ticks are scheduled.
pub proof fn law_scheduled_start<Q: QueueModel, S: Strategy, L: LatencyModel>(
    streamed: Stage<Q, S, L>,
    scheduled: Stage<Q, S, L>,
)
    requires
        streamed.sim.config.mode is Tick,
        streamed.sim.queue == Multiset::<Event>::empty(),
        is_single(streamed.feeds),
        is_stream(streamed.sim.config, to_come(streamed.feeds)),
        streamed.sim.next_event_seq + pending(streamed).len() <= u64::MAX,
        scheduled == (Stage {
            sim: with_events(streamed.sim, pending(streamed)),
            feeds: FeedsView::nothing(),
            rng: scheduled.rng,
            ..streamed
        }),
        are_in_step(streamed.latency, streamed.rng, scheduled.rng),
    ensures
        is_ahead(streamed, scheduled),
{
    let line = line_of(streamed.sim);
    let new = pending(streamed);
    lemma_with_events_on_line(streamed.sim, new);
    assert(line.is_numbered());
    lemma_push_all_numbered(line, new);
    let none = Seq::<Event>::empty();
    to_multiset_len(none);
    assert(none.to_multiset() =~= Multiset::empty());
    assert(lists(none, line.queue));
    assert(leaves_as(line.queue, course(none)));
    lemma_push_all_leaves(line, course(none), new);
    let d = choose|d: Seq<(i64, EventKind)>| leaves_as(line.push_all(new).queue, d);
    lemma_alike_itself(line.push_all(new), d);
    assert(line_of(scheduled.sim) =~= line.push_all(new));
}

/// In tick mode a strategy fails in the callback of the event only.
proof fn lemma_tick_mode_fails<Q: QueueModel, S: Strategy>(
    trader: S,
    s: SimView<Q>,
    kind: EventKind,
    x: Outcome,
    after: SimView<Q>,
    then: S,
)
    requires
        s.config.mode is Tick,
        breaks(trader, s, kind, x, after, then),
    ensures
        !s.is_unknown_cancel(kind),
        breaks_on_event(trader, s, kind, after, then),
{
    reveal(breaks);
    lemma_handled_keeps(s, kind, x.commands, x.delay);
}

/// Whatever queue an event is taken from, the strategy is told the same of it.
proof fn lemma_fails_on_line<Q: QueueModel, S: Strategy>(
    trader: S,
    at: SimView<Q>,
    line: Line,
    kind: EventKind,
    after: SimView<Q>,
    then: S,
)
    requires
        breaks_on_event(trader, on_line(at, line), kind, after, then),
    ensures
        breaks_on_event(trader, at, kind, at.handled(kind, Seq::empty(), 0), then),
        after == on_line(at.handled(kind, Seq::empty(), 0), line_of(after)),
{
    assert(event_call(on_line(at, line), kind) == event_call(at, kind));
    lemma_handled_on_line(at, line, kind, Seq::empty(), 0);
}

/// There are more events than ticks in a stream.
proof fn lemma_stream_len(config: EngineConfig, items: Seq<FeedItem>)
    requires
        is_stream(config, items),
    ensures
        feed_events(config, items).len() == 2 * items.len(),
    decreases items.len(),
{
    if items.len() > 0 {
        let front = items.drop_last();
        assert(items.last() == items[items.len() - 1]);
        assert forall|i: int| 0 <= i < front.len() implies ((
        #[trigger] front[i]) matches FeedItem::Tick(tick) && delivery_ts(config, tick)
            >= tick.ts_exchange) by {
            assert(front[i] == items[i]);
        }
        assert forall|i: int, j: int| 0 <= i < j < front.len() implies (#[trigger] front[i]).ts()
            <= (#[trigger] front[j]).ts() by {
            assert(items[i].ts() <= items[j].ts());
        }
        lemma_stream_len(config, front);
    }
}

/// The ticks of a stream come in.
proof fn lemma_stream_comes_in<Q: QueueModel, S: Strategy, L: LatencyModel>(
    a: Stage<Q, S, L>,
    b: Stage<Q, S, L>,
    after: SimView<Q>,
    error: EngineError<S::Error>,
)
    requires
        is_ahead(a, b),
    ensures
        !fails_to_feed(a.sim, a.feeds, after, error),
        !fails_to_feed(b.sim, b.feeds, after, error),
{
    if fails_to_feed(a.sim, a.feeds, after, error) {
        let (items, left) = choose|items: Seq<FeedItem>, left: FeedsView|
            {
                &&& #[trigger] is_taken(a.sim, a.feeds, items, left)
                &&& match error {
                    EngineError::TickSource(_) => left.may_fail(),
                    EngineError::Internal(message) => items.len() == u64::MAX,
                    EngineError::Strategy(_) => false,
                }
            };
        let states = choose|states: Seq<FeedsView>| #[trigger]
            takes_all(states, items) && states.first() == a.feeds && states.last() == left;
        lemma_single_gives(states, items, items.len() as int);
        lemma_stream_len(a.sim.config, to_come(a.feeds));
        lemma_known_stays(a.feeds, items, left);
    }
    if fails_to_feed(b.sim, b.feeds, after, error) {
        let (items, left) = choose|items: Seq<FeedItem>, left: FeedsView|
            {
                &&& #[trigger] is_taken(b.sim, b.feeds, items, left)
                &&& match error {
                    EngineError::TickSource(_) => left.may_fail(),
                    EngineError::Internal(message) => items.len() == u64::MAX,
                    EngineError::Strategy(_) => false,
                }
            };
        assert(b.feeds.is_exhausted());
        lemma_nothing_gives_nothing(b.feeds, items, left);
    }
}

/// What a step over scheduled ticks meets: the queue alone decides.
proof fn lemma_scheduled_intake<Q: QueueModel, S: Strategy, L: LatencyModel>(
    b: Stage<Q, S, L>,
    items: Seq<FeedItem>,
    left: FeedsView,
)
    requires
        b.feeds == FeedsView::nothing(),
        is_intake(b.sim, b.feeds, items, left),
    ensures
        items == Seq::<FeedItem>::empty(),
        b.sim.fed_all(items) == b.sim,
{
    assert(b.feeds.is_exhausted());
    lemma_nothing_gives_nothing(b.feeds, items, left);
    assert(items =~= Seq::empty());
}

/// Where the run over streamed ticks takes a step, that over scheduled ones does not fail.
proof fn lemma_moves_together<Q: QueueModel, S: Strategy, L: LatencyModel>(
    a: Stage<Q, S, L>,
    a2: Stage<Q, S, L>,
    b: Stage<Q, S, L>,
    b2: Stage<Q, S, L>,
    error: EngineError<S::Error>,
)
    requires
        is_ahead(a, b),
        decides(a),
        moves(a, a2),
    ensures
        !stops_at(b, b2, error),
{
    reveal(decides_on);
    if stops_at(b, b2, error) {
        let (e, x) = choose|e: Event, x: Outcome| #[trigger] is_move(a, a2, e, x);
        assert(is_move(a, a2, e, x));
        assert(has_intake(a.sim, a.feeds, x.items));
        let at = a.at(x.items, e);
        lemma_stream_comes_in(a, b, b2.sim, error);
        if error is Strategy {
            let (f, y) = choose|f: Event, y: Outcome| #[trigger] is_break(b, b2, f, y);
            lemma_scheduled_intake(b, y.items, b2.feeds);
            lemma_same_next(a, b, x.items, a2.feeds, e, f);
            lemma_fed_config(a.sim, x.items);
            let rest = line_of(b.sim).without(f);
            lemma_tick_mode_fails(b.trader, b.at(y.items, f), f.kind, y, b2.sim, b2.trader);
            lemma_fails_on_line(b.trader, at, rest, e.kind, b2.sim, b2.trader);
            lemma_tick_mode(a.trader, at, e.kind, x, a2.trader);
            lemma_event_does_not_fail(
                a.trader,
                at,
                e.kind,
                x.commands,
                a2.trader,
                at.handled(e.kind, Seq::empty(), 0),
                b2.trader,
            );
        } else {
            let (items, f) = choose|items: Seq<FeedItem>, f: Event| #[trigger]
                meets_wrong_depth(b, items, f, b2.feeds);
            lemma_scheduled_intake(b, items, b2.feeds);
            lemma_same_next(a, b, x.items, a2.feeds, e, f);
            lemma_clash_on_line(at, line_of(b.sim).without(f), e.kind);
        }
    }
}

/// Whether depth meets a book of the other kind does not depend on the queue.
proof fn lemma_clash_on_line<Q: QueueModel>(at: SimView<Q>, line: Line, kind: EventKind)
    ensures
        on_line(at, line).depth_clash(kind) == at.depth_clash(kind),
{
    if let EventKind::L2Update(update) = kind {
        assert(on_line(at, line).exchange(update.symbol_id) == at.exchange(update.symbol_id));
    }
}

/// What it means for the run over streamed ticks that its strategy fails in a step.
proof fn lemma_streamed_failure<Q: QueueModel, S: Strategy, L: LatencyModel>(
    a: Stage<Q, S, L>,
    a2: Stage<Q, S, L>,
    e: Event,
    x: Outcome,
)
    requires
        a.sim.config.mode is Tick,
        decides(a),
        is_break(a, a2, e, x),
    ensures
        a.at(x.items, e).config.mode is Tick,
        !a.at(x.items, e).is_unknown_cancel(e.kind),
        decides_event(a.trader, a.at(x.items, e), e.kind),
        breaks_on_event(a.trader, a.at(x.items, e), e.kind, a2.sim, a2.trader),
{
    reveal(decides_on);
    assert(has_intake(a.sim, a.feeds, x.items));
    lemma_fed_config(a.sim, x.items);
    lemma_tick_mode_fails(a.trader, a.at(x.items, e), e.kind, x, a2.sim, a2.trader);
}

/// What it means for the run over streamed ticks that the strategy of the other fails.
proof fn lemma_scheduled_failure<Q: QueueModel, S: Strategy, L: LatencyModel>(
    at: SimView<Q>,
    b: Stage<Q, S, L>,
    b2: Stage<Q, S, L>,
    f: Event,
    y: Outcome,
)
    requires
        at.config.mode is Tick,
        b.feeds == FeedsView::nothing(),
        b.at(Seq::empty(), f) == on_line(at, line_of(b.sim).without(f)),
        is_break(b, b2, f, y),
    ensures
        breaks_on_event(
            b.trader,
            at,
            f.kind,
            at.handled(f.kind, Seq::empty(), 0),
            b2.trader,
        ),
        b2.sim == on_line(at.handled(f.kind, Seq::empty(), 0), line_of(b2.sim)),
        !at.depth_clash(f.kind),
{
    lemma_scheduled_intake(b, y.items, b2.feeds);
    let rest = line_of(b.sim).without(f);
    lemma_tick_mode_fails(b.trader, on_line(at, rest), f.kind, y, b2.sim, b2.trader);
    lemma_fails_on_line(b.trader, at, rest, f.kind, b2.sim, b2.trader);
    lemma_clash_on_line(at, rest, f.kind);
}

/// A strategy that fails over an event fails in one way.
proof fn lemma_one_failure<Q: QueueModel, S: Strategy>(
    trader: S,
    at: SimView<Q>,
    kind: EventKind,
    after: SimView<Q>,
    then: S,
    other: S,
)
    requires
        decides_event(trader, at, kind),
        breaks_on_event(trader, at, kind, after, then),
        breaks_on_event(trader, at, kind, at.handled(kind, Seq::empty(), 0), other),
    ensures
        then == other,
        after == at.handled(kind, Seq::empty(), 0),
{
    let (notice, before) = event_call(at, kind).unwrap();
    let p = choose|p: ContextView| #[trigger] may_hear(trader, notice, before, p, false, then);
    let q = choose|q: ContextView| #[trigger] may_hear(trader, notice, before, q, false, other);
    assert(may_hear(trader, notice, before, p, false, then));
    assert(may_hear(trader, notice, before, q, false, other));
}

/// A strategy that takes its commands from a scheduled event does not fail over it.
proof fn lemma_scheduled_success<Q: QueueModel, S: Strategy>(
    trader: S,
    at: SimView<Q>,
    line: Line,
    kind: EventKind,
    y: Outcome,
    then: S,
    after: SimView<Q>,
    other: S,
)
    requires
        at.config.mode is Tick,
        !at.is_unknown_cancel(kind),
        decides_event(trader, at, kind),
        hears(trader, on_line(at, line), kind, y, then),
    ensures
        !breaks_on_event(trader, at, kind, after, other),
{
    lemma_tick_mode(trader, on_line(at, line), kind, y, then);
    assert(event_call(on_line(at, line), kind) == event_call(at, kind));
    assert(hears_event(trader, at, kind, y.commands, then));
    lemma_event_does_not_fail(trader, at, kind, y.commands, then, after, other);
}

/// Where the run over streamed ticks fails, that over scheduled ones does not go on.
proof fn lemma_stops_together<Q: QueueModel, S: Strategy, L: LatencyModel>(
    a: Stage<Q, S, L>,
    a2: Stage<Q, S, L>,
    error: EngineError<S::Error>,
    b: Stage<Q, S, L>,
    b2: Stage<Q, S, L>,
)
    requires
        is_ahead(a, b),
        decides(a),
        stops_at(a, a2, error),
    ensures
        !moves(b, b2),
{
    if moves(b, b2) {
        let (f, y) = choose|f: Event, y: Outcome| #[trigger] is_move(b, b2, f, y);
        assert(is_move(b, b2, f, y));
        lemma_scheduled_intake(b, y.items, b2.feeds);
        let rest = line_of(b.sim).without(f);
        lemma_stream_comes_in(a, b, a2.sim, error);
        if error is Strategy {
            let (e, x) = choose|e: Event, x: Outcome| #[trigger] is_break(a, a2, e, x);
            let at = a.at(x.items, e);
            lemma_same_next(a, b, x.items, a2.feeds, e, f);
            lemma_streamed_failure(a, a2, e, x);
            lemma_scheduled_success(
                a.trader,
                at,
                rest,
                e.kind,
                y,
                b2.trader,
                a2.sim,
                a2.trader,
            );
        } else {
            let (items, e) = choose|items: Seq<FeedItem>, e: Event| #[trigger]
                meets_wrong_depth(a, items, e, a2.feeds);
            lemma_same_next(a, b, items, a2.feeds, e, f);
            lemma_clash_on_line(a.at(items, e), rest, e.kind);
        }
    }
}

/// Where the strategy fails in the run over streamed ticks, that over scheduled ones fails
/// alike.
proof fn lemma_strategy_fails_alike<Q: QueueModel, S: Strategy, L: LatencyModel>(
    a: Stage<Q, S, L>,
    a2: Stage<Q, S, L>,
    e: Event,
    x: Outcome,
    b: Stage<Q, S, L>,
    b2: Stage<Q, S, L>,
    other: EngineError<S::Error>,
)
    requires
        is_ahead(a, b),
        decides(a),
        is_break(a, a2, e, x),
        stops_at(b, b2, other),
    ensures
        b2.sim == on_line(a2.sim, line_of(b2.sim)),
        b2.trader == a2.trader,
        other is Strategy,
{
    lemma_stream_comes_in(a, b, b2.sim, other);
    let at = a.at(x.items, e);
    lemma_streamed_failure(a, a2, e, x);
    if other is Strategy {
        let (f, y) = choose|f: Event, y: Outcome| #[trigger] is_break(b, b2, f, y);
        lemma_scheduled_intake(b, y.items, b2.feeds);
        lemma_same_next(a, b, x.items, a2.feeds, e, f);
        lemma_scheduled_failure(at, b, b2, f, y);
        lemma_one_failure(a.trader, at, e.kind, a2.sim, a2.trader, b2.trader);
    } else {
        let (items, f) = choose|items: Seq<FeedItem>, f: Event| #[trigger]
            meets_wrong_depth(b, items, f, b2.feeds);
        lemma_scheduled_intake(b, items, b2.feeds);
        lemma_same_next(a, b, x.items, a2.feeds, e, f);
        lemma_clash_on_line(at, line_of(b.sim).without(f), e.kind);
    }
}

/// Where depth meets a book of the other kind in the run over streamed ticks, it does so
/// in that over scheduled ones.
proof fn lemma_depth_fails_alike<Q: QueueModel, S: Strategy, L: LatencyModel>(
    a: Stage<Q, S, L>,
    a2: Stage<Q, S, L>,
    items: Seq<FeedItem>,
    e: Event,
    b: Stage<Q, S, L>,
    b2: Stage<Q, S, L>,
    other: EngineError<S::Error>,
)
    requires
        is_ahead(a, b),
        meets_wrong_depth(a, items, e, a2.feeds),
        a2 == (Stage { sim: a.at(items, e), feeds: a2.feeds, ..a }),
        stops_at(b, b2, other),
    ensures
        b2.sim == on_line(a2.sim, line_of(b2.sim)),
        b2.trader == a2.trader,
        other matches EngineError::Internal(message) && message@ == depth_clash_text(e.kind),
{
    lemma_stream_comes_in(a, b, b2.sim, other);
    if other is Strategy {
        let (f, y) = choose|f: Event, y: Outcome| #[trigger] is_break(b, b2, f, y);
        lemma_scheduled_intake(b, y.items, b2.feeds);
        lemma_same_next(a, b, items, a2.feeds, e, f);
        lemma_clash_on_line(a.at(items, e), line_of(b.sim).without(f), e.kind);
    } else {
        let words = other->Internal_0@;
        let (others, f) = choose|items: Seq<FeedItem>, f: Event|
            {
                &&& #[trigger] meets_wrong_depth(b, items, f, b2.feeds)
                &&& words == depth_clash_text(f.kind)
                &&& b2 == (Stage { sim: b.at(items, f), feeds: b2.feeds, ..b })
            };
        lemma_scheduled_intake(b, others, b2.feeds);
        lemma_same_next(a, b, items, a2.feeds, e, f);
    }
}

/// Where the run over streamed ticks fails, that over scheduled ones fails alike.
proof fn lemma_fail_alike<Q: QueueModel, S: Strategy, L: LatencyModel>(
    a: Stage<Q, S, L>,
    a2: Stage<Q, S, L>,
    error: EngineError<S::Error>,
    b: Stage<Q, S, L>,
    b2: Stage<Q, S, L>,
    other: EngineError<S::Error>,
)
    requires
        is_ahead(a, b),
        decides(a),
        stops_at(a, a2, error),
        stops_at(b, b2, other),
    ensures
        b2.sim == on_line(a2.sim, line_of(b2.sim)),
        b2.trader == a2.trader,
        is_same_error(error, other),
{
    lemma_stream_comes_in(a, b, a2.sim, error);
    if error is Strategy {
        let (e, x) = choose|e: Event, x: Outcome| #[trigger] is_break(a, a2, e, x);
        lemma_strategy_fails_alike(a, a2, e, x, b, b2, other);
    } else {
        let text = error->Internal_0@;
        let (items, e) = choose|items: Seq<FeedItem>, e: Event|
            {
                &&& #[trigger] meets_wrong_depth(a, items, e, a2.feeds)
                &&& text == depth_clash_text(e.kind)
                &&& a2 == (Stage { sim: a.at(items, e), feeds: a2.feeds, ..a })
            };
        lemma_depth_fails_alike(a, a2, items, e, b, b2, other);
    }
}

/// Whether `scheduled` begins with the ticks scheduled that `streamed` has a source of: in
/// tick mode, with one source of ticks in the order of time and nothing queued, with
/// latencies that are the same for both, and as many sequence numbers as it takes.
pub open spec fn are_two_starts<Q: QueueModel, S: Strategy, L: LatencyModel>(
    streamed: Stage<Q, S, L>,
    scheduled: Stage<Q, S, L>,
) -> bool {
    &&& streamed.sim.config.mode is Tick
    &&& streamed.sim.queue == Multiset::<Event>::empty()
    &&& is_single(streamed.feeds)
    &&& is_stream(streamed.sim.config, to_come(streamed.feeds))
    &&& streamed.sim.next_event_seq + pending(streamed).len() <= u64::MAX
    &&& scheduled == (Stage {
        sim: with_events(streamed.sim, pending(streamed)),
        feeds: FeedsView::nothing(),
        rng: scheduled.rng,
        ..streamed
    })
    &&& are_in_step(streamed.latency, streamed.rng, scheduled.rng)
}

/// Whether two runs can be told apart by their queues at most: their clock, market view,
/// exchanges, orders, trade log and account are the same, and their strategy.
pub open spec fn look_the_same<Q: QueueModel, S: Strategy, L: LatencyModel>(
    a: Stage<Q, S, L>,
    b: Stage<Q, S, L>,
) -> bool {
    &&& b.sim == on_line(a.sim, line_of(b.sim))
    &&& b.sim.log == a.sim.log
    &&& b.sim.account == a.sim.account
    &&& b.sim.market == a.sim.market
    &&& b.trader == a.trader
}

/// A streamed run goes with the run over the same ticks scheduled beforehand: where nothing
/// that is scheduled on the way has the time of an event of a tick still to come, both
/// look the same after every step that they take, finished or not.
pub proof fn law_streamed_steps_are_scheduled_steps<Q: QueueModel, S: Strategy, L: LatencyModel>(
    streamed: Seq<Stage<Q, S, L>>,
    scheduled: Seq<Stage<Q, S, L>>,
    i: int,
)
    requires
        is_trace(streamed),
        is_trace(scheduled),
        are_two_starts(streamed.first(), scheduled.first()),
        forall|k: int|
            0 <= k < streamed.len() - 1 ==> is_spaced(#[trigger] streamed[k], streamed[k + 1]),
        forall|k: int|
            0 <= k < scheduled.len() - 1 ==> lasts(#[trigger] scheduled[k], scheduled[k + 1]),
        0 <= i < streamed.len(),
        i < scheduled.len(),
        forall|k: int| 0 <= k < i ==> decides(#[trigger] streamed[k]),
    ensures
        look_the_same(streamed[i], scheduled[i]),
{
    law_scheduled_start(streamed.first(), scheduled.first());
    lemma_streamed_trace(streamed, scheduled, i);
}

/// A streamed run is the run over the same ticks scheduled beforehand: where nothing that
/// is scheduled on the way has the time of an event of a tick still to come, both runs take
/// as many steps, finish or fail alike, and look the same at the end.
pub proof fn law_streamed_run_is_scheduled_run<Q: QueueModel, S: Strategy, L: LatencyModel>(
    streamed: Seq<Stage<Q, S, L>>,
    end: Stage<Q, S, L>,
    outcome: Result<(), EngineError<S::Error>>,
    scheduled: Seq<Stage<Q, S, L>>,
    other_end: Stage<Q, S, L>,
    other_outcome: Result<(), EngineError<S::Error>>,
)
    requires
        ends_at(streamed, end, outcome),
        ends_at(scheduled, other_end, other_outcome),
        are_two_starts(streamed.first(), scheduled.first()),
        forall|k: int|
            0 <= k < streamed.len() - 1 ==> is_spaced(#[trigger] streamed[k], streamed[k + 1]),
        forall|k: int|
            0 <= k < scheduled.len() - 1 ==> lasts(#[trigger] scheduled[k], scheduled[k + 1]),
        forall|k: int| 0 <= k < streamed.len() ==> decides(#[trigger] streamed[k]),
    ensures
        streamed.len() == scheduled.len(),
        look_the_same(end, other_end),
        match (outcome, other_outcome) {
            (Ok(()), Ok(())) => true,
            (Err(a), Err(b)) => is_same_error(a, b),
            _ => false,
        },
{
    law_scheduled_start(streamed.first(), scheduled.first());
    let i = if streamed.len() <= scheduled.len() {
        streamed.len() - 1
    } else {
        scheduled.len() - 1
    };
    lemma_streamed_trace(streamed, scheduled, i);
    let (a, b) = (streamed[i], scheduled[i]);
    assert(decides(a));
    lemma_end_together(a, b);
    assert(b.feeds.is_exhausted());
    if streamed.len() < scheduled.len() {
        assert(moves(b, scheduled[i + 1]));
        if outcome is Ok {
            lemma_nothing_left_ends(b, scheduled[i + 1]);
        } else {
            lemma_stops_together(a, end, outcome->Err_0, b, scheduled[i + 1]);
        }
    } else if scheduled.len() < streamed.len() {
        assert(moves(a, streamed[i + 1]));
        if other_outcome is Ok {
            lemma_nothing_left_ends(a, streamed[i + 1]);
        } else {
            lemma_moves_together(a, streamed[i + 1], b, other_end, other_outcome->Err_0);
        }
    } else {
        lemma_same_last(streamed, end, outcome, scheduled, other_end, other_outcome);
    }
}

proof fn lemma_same_last<Q: QueueModel, S: Strategy, L: LatencyModel>(
    streamed: Seq<Stage<Q, S, L>>,
    end: Stage<Q, S, L>,
    outcome: Result<(), EngineError<S::Error>>,
    scheduled: Seq<Stage<Q, S, L>>,
    other_end: Stage<Q, S, L>,
    other_outcome: Result<(), EngineError<S::Error>>,
)
    requires
        streamed.len() == scheduled.len(),
        ends_at(streamed, end, outcome),
        ends_at(scheduled, other_end, other_outcome),
        is_ahead(streamed.last(), scheduled.last()),
        decides(streamed.last()),
    ensures
        look_the_same(end, other_end),
        match (outcome, other_outcome) {
            (Ok(()), Ok(())) => true,
            (Err(a), Err(b)) => is_same_error(a, b),
            _ => false,
        },
{
    let (a, b) = (streamed.last(), scheduled.last());
    lemma_end_together(a, b);
    if streamed.len() <= u64::MAX {
        if outcome is Err && other_outcome is Err {
            lemma_fail_alike(a, end, outcome->Err_0, b, other_end, other_outcome->Err_0);
        } else if outcome is Ok && other_outcome is Err {
            assert(b.feeds.is_exhausted());
            lemma_only_flush_fails(b, other_end, other_outcome->Err_0);
        } else if outcome is Err && other_outcome is Ok {
            lemma_only_flush_fails(a, end, outcome->Err_0);
        }
    }
}

} // verus!
