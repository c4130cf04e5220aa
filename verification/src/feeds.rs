//! Merging of market data sources into one time-ordered feed.
use likely_stable::{likely, unlikely};
use vstd::prelude::*;

use crate::heap::{MinHeap, Ranked};
use crate::l3_source::L3Source;
use crate::tick_source::{TickSource, TickSourceError};
use crate::types::{L3Update, Tick};

verus! {

/// One item of market data.
#[derive(Debug, Clone, Copy, PartialEq, Eq, Structural)]
pub enum FeedItem {
    Tick(Tick),
    L3(L3Update),
}

impl FeedItem {
    pub open spec fn ts(self) -> i64 {
        match self {
            FeedItem::Tick(tick) => tick.ts_exchange,
            FeedItem::L3(update) => update.ts_exchange,
        }
    }

    pub open spec fn seq(self) -> u64 {
        match self {
            FeedItem::Tick(tick) => tick.seq,
            FeedItem::L3(update) => update.seq,
        }
    }

    /// Whether this item comes no later than `other`: by exchange time, then by feed
    /// sequence number.
    pub open spec fn comes_first(self, other: FeedItem) -> bool {
        self.ts() < other.ts() || (self.ts() == other.ts() && self.seq() <= other.seq())
    }
}

/// Why no item could be taken from the sources.
#[derive(Debug)]
pub enum FeedError {
    Source(TickSourceError),
    /// The source had shown a next item, and then gave none.
    NoNextItem { source_idx: usize },
}

/// The next item of one source, as the heap orders it: by time, by sequence number,
/// book updates before ticks, then by the order in which the sources were added.
#[derive(Debug, Clone, Copy, PartialEq, Eq, Structural)]
struct PeekedEvent {
    ts: i64,
    seq: u64,
    is_tick: bool,
    source_idx: usize,
}

impl Ranked for PeekedEvent {
    closed spec fn rank_le(self, other: Self) -> bool {
        if self.ts != other.ts {
            self.ts < other.ts
        } else if self.seq != other.seq {
            self.seq < other.seq
        } else if self.is_tick != other.is_tick {
            !self.is_tick
        } else {
            self.source_idx <= other.source_idx
        }
    }

    proof fn rank_total(a: Self, b: Self) {
    }

    proof fn rank_transitive(a: Self, b: Self, c: Self) {
    }

    fn may_leave_before(&self, other: &Self) -> (r: bool) {
        if self.ts != other.ts {
            self.ts < other.ts
        } else if self.seq != other.seq {
            self.seq < other.seq
        } else if self.is_tick != other.is_tick {
            !self.is_tick
        } else {
            self.source_idx <= other.source_idx
        }
    }
}

/// All market data sources of an engine.
#[verifier::reject_recursive_types(T)]
#[verifier::reject_recursive_types(B)]
pub struct Feeds<T: TickSource, B: L3Source> {
    ticks: Vec<T>,
    books: Vec<B>,
    heap: MinHeap<PeekedEvent>,
    is_heap_initialized: bool,
    /// Whether a source failed while the heap was in use: it is no longer in the heap.
    is_source_lost: bool,
}

/// A tick as an item of market data.
pub open spec fn tick_item(tick: Option<Tick>) -> Option<FeedItem> {
    match tick {
        Some(tick) => Some(FeedItem::Tick(tick)),
        None => None,
    }
}

/// A book update as an item of market data.
pub open spec fn update_item(update: Option<L3Update>) -> Option<FeedItem> {
    match update {
        Some(update) => Some(FeedItem::L3(update)),
        None => None,
    }
}

/// What is known of one source: its next item, all items still to come where the source
/// says so, and whether it may fail.
#[verifier::ext_equal]
pub ghost struct SourceView {
    pub head: Option<FeedItem>,
    pub rest: Option<Seq<FeedItem>>,
    pub may_fail: bool,
}

impl SourceView {
    /// Whether the next item is the first of those that are still to come.
    pub open spec fn is_sound(self) -> bool {
        self.rest matches Some(rest) ==> {
            &&& self.head == if rest.len() == 0 {
                None
            } else {
                Some(rest[0])
            }
            &&& !self.may_fail
        }
    }

    /// Whether the source may be as `after` once its next item was taken: where it is known
    /// what is still to come, nothing but that item is gone.
    pub open spec fn moves_on_to(self, after: SourceView) -> bool {
        self.rest matches Some(rest) ==> {
            &&& rest.len() > 0
            &&& self.head == Some(rest[0])
            &&& after.rest == Some(rest.drop_first())
            &&& after.is_sound()
        }
    }
}

/// What is known of a source of ticks.
pub open spec fn tick_view<T: TickSource>(source: T) -> SourceView {
    SourceView {
        head: tick_item(source.head()),
        rest: match source.rest() {
            Some(rest) => Some(Seq::new(rest.len(), |i: int| FeedItem::Tick(rest[i]))),
            None => None,
        },
        may_fail: source.rest() is None && (source.peek_may_fail() || source.next_may_fail()),
    }
}

/// What is known of a source of book updates.
pub open spec fn book_view<B: L3Source>(source: B) -> SourceView {
    SourceView {
        head: update_item(source.head()),
        rest: match source.rest() {
            Some(rest) => Some(Seq::new(rest.len(), |i: int| FeedItem::L3(rest[i]))),
            None => None,
        },
        may_fail: source.rest() is None && (source.peek_may_fail() || source.next_may_fail()),
    }
}

/// One of the sources: those of each kind are numbered in the order in which they were
/// added.
pub ghost struct Place {
    pub is_tick: bool,
    pub idx: int,
}

/// What is known of all sources, and whether one of them failed and was left out since.
#[verifier::ext_equal]
pub ghost struct FeedsView {
    pub ticks: Seq<SourceView>,
    pub books: Seq<SourceView>,
    pub lost: bool,
}

impl FeedsView {
    /// No sources.
    pub open spec fn nothing() -> Self {
        FeedsView { ticks: Seq::empty(), books: Seq::empty(), lost: false }
    }

    /// After a source of ticks was added; the sources are all in use again.
    pub open spec fn with_ticks(self, source: SourceView) -> Self {
        FeedsView { ticks: self.ticks.push(source), lost: false, ..self }
    }

    /// After a source of book updates was added; the sources are all in use again.
    pub open spec fn with_books(self, source: SourceView) -> Self {
        FeedsView { books: self.books.push(source), lost: false, ..self }
    }

    /// Whether there is such a source.
    pub open spec fn is_place(self, place: Place) -> bool {
        0 <= place.idx < if place.is_tick {
            self.ticks.len()
        } else {
            self.books.len()
        }
    }

    pub open spec fn source(self, place: Place) -> SourceView {
        if place.is_tick {
            self.ticks[place.idx]
        } else {
            self.books[place.idx]
        }
    }

    /// Whether a source has a next item.
    pub open spec fn waits(self, place: Place) -> bool {
        self.is_place(place) && self.source(place).head is Some
    }

    /// The next item of a source that has one.
    pub open spec fn item(self, place: Place) -> FeedItem {
        self.source(place).head.unwrap()
    }

    /// Whether the next item of one source is taken before that of another: by exchange
    /// time, then by sequence number, book updates before ticks, then by the order in
    /// which the sources were added.
    pub open spec fn comes_first(self, place: Place, other: Place) -> bool {
        let (a, b) = (self.item(place), self.item(other));
        if a.ts() != b.ts() {
            a.ts() < b.ts()
        } else if a.seq() != b.seq() {
            a.seq() < b.seq()
        } else if place.is_tick != other.is_tick {
            !place.is_tick
        } else {
            place.idx <= other.idx
        }
    }

    /// Whether some source may fail.
    pub open spec fn may_fail(self) -> bool {
        exists|place: Place| #[trigger] self.is_place(place) && self.source(place).may_fail
    }

    /// Whether no source has a next item.
    pub open spec fn is_exhausted(self) -> bool {
        forall|place: Place| !(#[trigger] self.waits(place))
    }

    /// Whether taking the next item of a source may lead to `after`: none was to be taken
    /// before it, and no other source changes.
    pub open spec fn takes_at(self, place: Place, after: FeedsView) -> bool {
        &&& self.waits(place)
        &&& !self.lost ==> forall|other: Place| #[trigger]
            self.waits(other) ==> self.comes_first(place, other)
        &&& after.lost == self.lost
        &&& after.ticks.len() == self.ticks.len()
        &&& after.books.len() == self.books.len()
        &&& forall|other: Place| #[trigger]
            self.is_place(other) && other != place ==> after.source(other) == self.source(other)
        &&& self.source(place).moves_on_to(after.source(place))
    }

    /// Whether taking `item` may lead to `after`.
    pub open spec fn takes(self, item: FeedItem, after: FeedsView) -> bool {
        exists|place: Place| #[trigger] self.takes_at(place, after) && self.item(place) == item
    }

    /// Whether taking these items, one after the other, may lead to `after`.
    pub open spec fn gives(self, items: Seq<FeedItem>, after: FeedsView) -> bool {
        exists|states: Seq<FeedsView>| #[trigger]
            takes_all(states, items) && states.first() == self && states.last() == after
    }
}

/// Whether each state comes from the one before by taking one of the items.
pub open spec fn takes_all(states: Seq<FeedsView>, items: Seq<FeedItem>) -> bool {
    &&& states.len() == items.len() + 1
    &&& forall|i: int|
        0 <= i < items.len() ==> states[i].takes(#[trigger] items[i], states[i + 1])
}

/// The merged feed is in order: where what follows an item in its source does not come
/// before it, the items of all sources are taken by exchange time, then by sequence
/// number.
pub proof fn law_merged_feed_is_in_order(
    states: Seq<FeedsView>,
    items: Seq<FeedItem>,
    i: int,
    j: int,
)
    requires
        takes_all(states, items),
        !states.first().lost,
        forall|k: int, place: Place|
            0 <= k < items.len() && states[k].waits(place) && states[k].item(place) == items[k]
                && #[trigger] states[k + 1].waits(place) ==> items[k].comes_first(
                states[k + 1].item(place),
            ),
        0 <= i < j < items.len(),
    ensures
        items[i].comes_first(items[j]),
{
    lemma_later_items_come_later(states, items, i, j);
    assert(states[j].takes(items[j], states[j + 1]));
    let place = choose|place: Place| #[trigger]
        states[j].takes_at(place, states[j + 1]) && states[j].item(place) == items[j];
    assert(states[j].waits(place));
}

proof fn lemma_none_lost(states: Seq<FeedsView>, items: Seq<FeedItem>, i: int)
    requires
        takes_all(states, items),
        !states.first().lost,
        0 <= i < states.len(),
    ensures
        !states[i].lost,
    decreases i,
{
    if i > 0 {
        lemma_none_lost(states, items, i - 1);
        assert(states[i - 1].takes(items[i - 1], states[i]));
    }
}

/// What waits after an item was taken does not come before it.
proof fn lemma_later_items_come_later(
    states: Seq<FeedsView>,
    items: Seq<FeedItem>,
    i: int,
    j: int,
)
    requires
        takes_all(states, items),
        !states.first().lost,
        forall|k: int, place: Place|
            0 <= k < items.len() && states[k].waits(place) && states[k].item(place) == items[k]
                && #[trigger] states[k + 1].waits(place) ==> items[k].comes_first(
                states[k + 1].item(place),
            ),
        0 <= i < j < states.len(),
    ensures
        forall|place: Place| #[trigger]
            states[j].waits(place) ==> items[i].comes_first(states[j].item(place)),
    decreases j,
{
    let k = j - 1;
    lemma_none_lost(states, items, k);
    assert(states[k].takes(items[k], states[k + 1]));
    let taken = choose|place: Place| #[trigger]
        states[k].takes_at(place, states[k + 1]) && states[k].item(place) == items[k];
    if i < k {
        lemma_later_items_come_later(states, items, i, k);
    }
    assert forall|place: Place| #[trigger] states[j].waits(place) implies items[i].comes_first(
        states[j].item(place),
    ) by {
        assert(states[k + 1].waits(place));
        assert(states[k].is_place(place));
        assert(states[k].waits(taken));
        if place != taken {
            assert(states[k].waits(place));
            assert(states[k].comes_first(taken, place));
        }
    }
}

/// Where nothing waits, nothing is taken.
pub proof fn lemma_nothing_gives_nothing(
    before: FeedsView,
    items: Seq<FeedItem>,
    after: FeedsView,
)
    requires
        before.is_exhausted(),
        before.gives(items, after),
    ensures
        items == Seq::<FeedItem>::empty(),
        after == before,
{
    let states = choose|states: Seq<FeedsView>| #[trigger]
        takes_all(states, items) && states.first() == before && states.last() == after;
    if items.len() > 0 {
        assert(states[0].takes(items[0], states[1]));
        let place = choose|place: Place| #[trigger]
            states[0].takes_at(place, states[1]) && states[0].item(place) == items[0];
        assert(before.waits(place));
    }
    assert(items =~= Seq::empty());
}

impl FeedsView {
    /// Whether all that is still to come is known of every source.
    pub open spec fn is_known(self) -> bool {
        &&& !self.lost
        &&& forall|place: Place| #[trigger]
            self.is_place(place) ==> self.source(place).rest is Some && self.source(
                place,
            ).is_sound()
    }
}

/// Where all that is to come is known, the next item is determined, and what is left.
pub proof fn law_next_item_is_determined(
    before: FeedsView,
    a: FeedItem,
    after_a: FeedsView,
    b: FeedItem,
    after_b: FeedsView,
)
    requires
        before.is_known(),
        before.takes(a, after_a),
        before.takes(b, after_b),
    ensures
        a == b,
        after_a == after_b,
        after_a.is_known(),
{
    let p = choose|place: Place| #[trigger]
        before.takes_at(place, after_a) && before.item(place) == a;
    let q = choose|place: Place| #[trigger]
        before.takes_at(place, after_b) && before.item(place) == b;
    assert(before.takes_at(p, after_a) && before.takes_at(q, after_b));
    assert(before.comes_first(p, q) && before.comes_first(q, p));
    assert(p == q);
    assert forall|place: Place| #[trigger] after_a.is_place(place) implies after_a.source(
        place,
    ).rest is Some && after_a.source(place).is_sound() && after_a.source(place) == after_b.source(
        place,
    ) by {
        assert(before.is_place(place));
    }
    assert forall|i: int| 0 <= i < after_a.ticks.len() implies after_a.ticks[i]
        == after_b.ticks[i] by {
        assert(after_a.is_place(Place { is_tick: true, idx: i }));
    }
    assert forall|i: int| 0 <= i < after_a.books.len() implies after_a.books[i]
        == after_b.books[i] by {
        assert(after_a.is_place(Place { is_tick: false, idx: i }));
    }
    assert(after_a =~= after_b);
}

/// Where all that is to come is known, the same number of items leads to the same state.
pub proof fn lemma_known_states_agree(
    states: Seq<FeedsView>,
    items: Seq<FeedItem>,
    other_states: Seq<FeedsView>,
    other_items: Seq<FeedItem>,
    i: int,
)
    requires
        takes_all(states, items),
        takes_all(other_states, other_items),
        states.first() == other_states.first(),
        states.first().is_known(),
        0 <= i < states.len(),
        i < other_states.len(),
    ensures
        states[i] == other_states[i],
        states[i].is_known(),
        i > 0 ==> items[i - 1] == other_items[i - 1],
    decreases i,
{
    if i > 0 {
        lemma_known_states_agree(states, items, other_states, other_items, i - 1);
        assert(states[i - 1].takes(items[i - 1], states[i]));
        assert(other_states[i - 1].takes(other_items[i - 1], other_states[i]));
        law_next_item_is_determined(
            states[i - 1],
            items[i - 1],
            states[i],
            other_items[i - 1],
            other_states[i],
        );
    }
}

impl<T: TickSource, B: L3Source> View for Feeds<T, B> {
    type V = FeedsView;

    closed spec fn view(&self) -> FeedsView {
        FeedsView {
            ticks: Seq::new(self.ticks@.len(), |i: int| tick_view(self.ticks@[i])),
            books: Seq::new(self.books@.len(), |i: int| book_view(self.books@[i])),
            lost: self.is_heap_initialized && self.is_source_lost,
        }
    }
}

impl<T: TickSource, B: L3Source> Feeds<T, B> {
    spec fn is_head(&self, e: PeekedEvent) -> bool {
        if e.is_tick {
            &&& e.source_idx < self.ticks@.len()
            &&& self.ticks@[e.source_idx as int].head() matches Some(tick) && tick.ts_exchange
                == e.ts && tick.seq == e.seq
        } else {
            &&& e.source_idx < self.books@.len()
            &&& self.books@[e.source_idx as int].head() matches Some(update)
                && update.ts_exchange == e.ts && update.seq == e.seq
        }
    }

    /// The heap holds the next item of every source that is not lost, once.
    pub closed spec fn wf(&self) -> bool {
        &&& self.heap.wf()
        &&& self.is_heap_initialized ==> {
            &&& forall|e: PeekedEvent|
                self.heap@.count(e) <= if #[trigger] self.is_head(e) {
                    1nat
                } else {
                    0nat
                }
            &&& !self.is_source_lost ==> forall|e: PeekedEvent| #[trigger]
                self.is_head(e) ==> self.heap@.count(e) == 1
        }
    }

    pub fn new() -> (r: Self)
        ensures
            r.wf(),
            r@ == FeedsView::nothing(),
    {
        let r = Feeds {
            ticks: Vec::new(),
            books: Vec::new(),
            heap: MinHeap::new(),
            is_heap_initialized: false,
            is_source_lost: false,
        };
        assert(r@ =~= FeedsView::nothing());
        r
    }

    pub fn add_tick_source(&mut self, source: T)
        requires
            old(self).wf(),
        ensures
            final(self).wf(),
            final(self)@ == old(self)@.with_ticks(tick_view(source)),
    {
        self.ticks.push(source);
        self.is_heap_initialized = false;
        assert(self@ =~= old(self)@.with_ticks(tick_view(source)));
    }

    pub fn add_l3_source(&mut self, source: B)
        requires
            old(self).wf(),
        ensures
            final(self).wf(),
            final(self)@ == old(self)@.with_books(book_view(source)),
    {
        self.books.push(source);
        self.is_heap_initialized = false;
        assert(self@ =~= old(self)@.with_books(book_view(source)));
    }

    /// As much is known of the sources as of those of `other`.
    spec fn same_sources(&self, other: &Self) -> bool {
        &&& self.ticks@.len() == other.ticks@.len()
        &&& self.books@.len() == other.books@.len()
        &&& forall|i: int|
            0 <= i < self.ticks@.len() ==> (#[trigger] self.ticks@[i]).head()
                == other.ticks@[i].head() && tick_view(self.ticks@[i]) == tick_view(
                other.ticks@[i],
            )
        &&& forall|i: int|
            0 <= i < self.books@.len() ==> (#[trigger] self.books@[i]).head()
                == other.books@[i].head() && book_view(self.books@[i]) == book_view(
                other.books@[i],
            )
    }

    proof fn lemma_same_sources(&self, other: &Self)
        requires
            self.same_sources(other),
        ensures
            self@.ticks == other@.ticks,
            self@.books == other@.books,
            forall|e: PeekedEvent| #[trigger] self.is_head(e) <==> other.is_head(e),
    {
        assert(self@.ticks =~= other@.ticks);
        assert(self@.books =~= other@.books);
        assert forall|e: PeekedEvent| #[trigger] self.is_head(e) <==> other.is_head(e) by {
            if e.is_tick && e.source_idx < self.ticks@.len() {
                assert(self.ticks@[e.source_idx as int].head()
                    == other.ticks@[e.source_idx as int].head());
            }
            if !e.is_tick && e.source_idx < self.books@.len() {
                assert(self.books@[e.source_idx as int].head()
                    == other.books@[e.source_idx as int].head());
            }
        }
    }

    /// Fills the heap with the next item of every source.
    fn initialize_heap(&mut self) -> (r: Result<(), TickSourceError>)
        requires
            old(self).wf(),
            !old(self).is_heap_initialized,
        ensures
            final(self).wf(),
            r is Ok ==> {
                &&& final(self).same_sources(old(self))
                &&& final(self).is_heap_initialized
                &&& !final(self).is_source_lost
            },
            r is Err ==> !final(self).is_heap_initialized && old(self)@.may_fail(),
    {
        self.heap = MinHeap::new();
        self.is_source_lost = false;
        let n: usize = self.ticks.len();
        let mut i: usize = 0;
        while i < n
            invariant
                i <= n == self.ticks@.len(),
                self.same_sources(old(self)),
                self.heap.wf(),
                !self.is_heap_initialized,
                !self.is_source_lost,
                forall|e: PeekedEvent|
                    #![trigger self.heap@.count(e)]
                    #![trigger self.is_head(e)]
                    self.heap@.count(e) == if self.is_head(e) && e.is_tick && e.source_idx < i {
                        1nat
                    } else {
                        0nat
                    },
            decreases n - i,
        {
            let ghost before = *self;
            let peeked: Option<Tick> = match self.ticks[i].peek() {
                Ok(Some(tick)) => Some(*tick),
                Ok(None) => None,
                Err(e) => {
                    proof {
                        before.lemma_same_sources(old(self));
                        let place = Place { is_tick: true, idx: i as int };
                        assert(before@.source(place) == tick_view(before.ticks@[i as int]));
                        assert(old(self)@.is_place(place));
                    }
                    return Err(e);
                },
            };
            assert(self.same_sources(&before)) by {
                assert(self.ticks@ =~= before.ticks@.update(i as int, self.ticks@[i as int]));
            }
            proof {
                self.lemma_same_sources(&before);
            }
            if let Some(tick) = peeked {
                self.heap.push(
                    PeekedEvent {
                        ts: tick.ts_exchange,
                        seq: tick.seq,
                        is_tick: true,
                        source_idx: i,
                    },
                );
            }
            i = i + 1;
        }
        let m: usize = self.books.len();
        let mut j: usize = 0;
        while j < m
            invariant
                j <= m == self.books@.len(),
                n == self.ticks@.len(),
                self.same_sources(old(self)),
                self.heap.wf(),
                !self.is_heap_initialized,
                !self.is_source_lost,
                forall|e: PeekedEvent|
                    #![trigger self.heap@.count(e)]
                    #![trigger self.is_head(e)]
                    self.heap@.count(e) == if self.is_head(e) && (e.is_tick || e.source_idx < j) {
                        1nat
                    } else {
                        0nat
                    },
            decreases m - j,
        {
            let ghost before = *self;
            let peeked: Option<L3Update> = match self.books[j].peek() {
                Ok(Some(update)) => Some(*update),
                Ok(None) => None,
                Err(e) => {
                    proof {
                        before.lemma_same_sources(old(self));
                        let place = Place { is_tick: false, idx: j as int };
                        assert(before@.source(place) == book_view(before.books@[j as int]));
                        assert(old(self)@.is_place(place));
                    }
                    return Err(e);
                },
            };
            assert(self.same_sources(&before)) by {
                assert(self.books@ =~= before.books@.update(j as int, self.books@[j as int]));
            }
            proof {
                self.lemma_same_sources(&before);
            }
            if let Some(update) = peeked {
                self.heap.push(
                    PeekedEvent {
                        ts: update.ts_exchange,
                        seq: update.seq,
                        is_tick: false,
                        source_idx: j,
                    },
                );
            }
            j = j + 1;
        }
        self.is_heap_initialized = true;
        proof {
            self.lemma_same_sources(old(self));
        }
        Ok(())
    }

    /// The source that a heap entry stands for.
    spec fn place_of(e: PeekedEvent) -> Place {
        Place { is_tick: e.is_tick, idx: e.source_idx as int }
    }

    /// The heap entry of a source that has a next item.
    spec fn entry_of(&self, place: Place) -> PeekedEvent {
        PeekedEvent {
            ts: self@.item(place).ts(),
            seq: self@.item(place).seq(),
            is_tick: place.is_tick,
            source_idx: place.idx as usize,
        }
    }

    proof fn lemma_entries(&self)
        requires
            self.wf(),
            self.is_heap_initialized,
        ensures
            forall|e: PeekedEvent| #[trigger]
                self.heap@.contains(e) ==> self.is_head(e) && self@.waits(Self::place_of(e))
                    && self.entry_of(Self::place_of(e)) == e,
            !self.is_source_lost ==> forall|place: Place| #[trigger]
                self@.waits(place) ==> self.heap@.contains(self.entry_of(place)),
    {
        assert(self.ticks.len() == self.ticks@.len() && self.books.len() == self.books@.len());
        assert forall|e: PeekedEvent| #[trigger] self.heap@.contains(e) implies self.is_head(e)
            && self@.waits(Self::place_of(e)) && self.entry_of(Self::place_of(e)) == e by {
            assert(self.heap@.count(e) > 0);
            assert(self.is_head(e));
        }
        if !self.is_source_lost {
            assert forall|place: Place| #[trigger] self@.waits(place) implies self.heap@.contains(
                self.entry_of(place),
            ) by {
                assert(self.is_head(self.entry_of(place)));
            }
        }
    }

    /// Takes the next tick of a source, and puts the one after it into the heap.
    fn take_tick(&mut self, idx: usize, Ghost(taken): Ghost<PeekedEvent>) -> (r: Result<
        Tick,
        FeedError,
    >)
        requires
            old(self).heap.wf(),
            old(self).is_heap_initialized,
            idx < old(self).ticks@.len(),
            taken.is_tick && taken.source_idx == idx && old(self).is_head(taken),
            old(self).heap@.count(taken) == 0,
            forall|e: PeekedEvent|
                old(self).heap@.count(e) <= if #[trigger] old(self).is_head(e) {
                    1nat
                } else {
                    0nat
                },
            !old(self).is_source_lost ==> forall|e: PeekedEvent| #[trigger]
                old(self).is_head(e) && e != taken ==> old(self).heap@.count(e) == 1,
        ensures
            final(self).wf(),
            final(self).is_heap_initialized,
            match r {
                Ok(tick) => {
                    &&& old(self).ticks@[idx as int].head() == Some(tick)
                    &&& final(self).is_source_lost == old(self).is_source_lost
                    &&& final(self).books@ == old(self).books@
                    &&& final(self).ticks@.len() == old(self).ticks@.len()
                    &&& forall|i: int|
                        0 <= i < final(self).ticks@.len() && i != idx ==> (
                        #[trigger] final(self).ticks@[i]) == old(self).ticks@[i]
                    &&& tick_view(old(self).ticks@[idx as int]).moves_on_to(
                        tick_view(final(self).ticks@[idx as int]),
                    )
                },
                Err(e) => e is Source && tick_view(old(self).ticks@[idx as int]).may_fail,
            },
    {
        let ghost start = *self;
        assert forall|e: PeekedEvent|
            e.is_tick && e.source_idx == idx implies #[trigger] start.heap@.count(e) == 0 by {
            if start.is_head(e) {
                assert(e == taken);
            }
        }
        let tick: Tick = match self.ticks[idx].next() {
            Ok(Some(tick)) => tick,
            Ok(None) => {
                self.is_source_lost = true;
                proof {
                    self.lemma_others_keep(&start, true, idx);
                }
                return Err(FeedError::NoNextItem { source_idx: idx });
            },
            Err(e) => {
                self.is_source_lost = true;
                proof {
                    self.lemma_others_keep(&start, true, idx);
                }
                return Err(FeedError::Source(e));
            },
        };
        let peeked: Option<Tick> = match self.ticks[idx].peek() {
            Ok(Some(tick)) => Some(*tick),
            Ok(None) => None,
            Err(e) => {
                self.is_source_lost = true;
                proof {
                    self.lemma_others_keep(&start, true, idx);
                }
                return Err(FeedError::Source(e));
            },
        };
        proof {
            self.lemma_others_keep(&start, true, idx);
        }
        if let Some(next) = peeked {
            let ghost before = *self;
            self.heap.push(
                PeekedEvent {
                    ts: next.ts_exchange,
                    seq: next.seq,
                    is_tick: true,
                    source_idx: idx,
                },
            );
            assert(self.same_sources(&before));
            proof {
                self.lemma_same_sources(&before);
            }
        }
        proof {
            assert forall|e: PeekedEvent|
                self.heap@.count(e) <= if #[trigger] self.is_head(e) {
                    1nat
                } else {
                    0nat
                } by {
                if !(e.is_tick && e.source_idx == idx) {
                    assert(self.is_head(e) == start.is_head(e));
                } else {
                    assert(start.heap@.count(e) <= if start.is_head(e) {
                        1nat
                    } else {
                        0nat
                    });
                }
            }
        }
        proof {
            let (a, b) = (
                tick_view(start.ticks@[idx as int]),
                tick_view(self.ticks@[idx as int]),
            );
            if let Some(rest) = start.ticks@[idx as int].rest() {
                assert(a.rest.unwrap().drop_first() =~= b.rest.unwrap());
            }
        }
        Ok(tick)
    }

    /// Takes the next update of a source, and puts the one after it into the heap.
    fn take_update(&mut self, idx: usize, Ghost(taken): Ghost<PeekedEvent>) -> (r: Result<
        L3Update,
        FeedError,
    >)
        requires
            old(self).heap.wf(),
            old(self).is_heap_initialized,
            idx < old(self).books@.len(),
            !taken.is_tick && taken.source_idx == idx && old(self).is_head(taken),
            old(self).heap@.count(taken) == 0,
            forall|e: PeekedEvent|
                old(self).heap@.count(e) <= if #[trigger] old(self).is_head(e) {
                    1nat
                } else {
                    0nat
                },
            !old(self).is_source_lost ==> forall|e: PeekedEvent| #[trigger]
                old(self).is_head(e) && e != taken ==> old(self).heap@.count(e) == 1,
        ensures
            final(self).wf(),
            final(self).is_heap_initialized,
            match r {
                Ok(update) => {
                    &&& old(self).books@[idx as int].head() == Some(update)
                    &&& final(self).is_source_lost == old(self).is_source_lost
                    &&& final(self).ticks@ == old(self).ticks@
                    &&& final(self).books@.len() == old(self).books@.len()
                    &&& forall|i: int|
                        0 <= i < final(self).books@.len() && i != idx ==> (
                        #[trigger] final(self).books@[i]) == old(self).books@[i]
                    &&& book_view(old(self).books@[idx as int]).moves_on_to(
                        book_view(final(self).books@[idx as int]),
                    )
                },
                Err(e) => e is Source && book_view(old(self).books@[idx as int]).may_fail,
            },
    {
        let ghost start = *self;
        assert forall|e: PeekedEvent|
            !e.is_tick && e.source_idx == idx implies #[trigger] start.heap@.count(e) == 0 by {
            if start.is_head(e) {
                assert(e == taken);
            }
        }
        let update: L3Update = match self.books[idx].next() {
            Ok(Some(update)) => update,
            Ok(None) => {
                self.is_source_lost = true;
                proof {
                    self.lemma_others_keep(&start, false, idx);
                }
                return Err(FeedError::NoNextItem { source_idx: idx });
            },
            Err(e) => {
                self.is_source_lost = true;
                proof {
                    self.lemma_others_keep(&start, false, idx);
                }
                return Err(FeedError::Source(e));
            },
        };
        let peeked: Option<L3Update> = match self.books[idx].peek() {
            Ok(Some(update)) => Some(*update),
            Ok(None) => None,
            Err(e) => {
                self.is_source_lost = true;
                proof {
                    self.lemma_others_keep(&start, false, idx);
                }
                return Err(FeedError::Source(e));
            },
        };
        proof {
            self.lemma_others_keep(&start, false, idx);
        }
        if let Some(next) = peeked {
            let ghost before = *self;
            self.heap.push(
                PeekedEvent {
                    ts: next.ts_exchange,
                    seq: next.seq,
                    is_tick: false,
                    source_idx: idx,
                },
            );
            assert(self.same_sources(&before));
            proof {
                self.lemma_same_sources(&before);
            }
        }
        proof {
            assert forall|e: PeekedEvent|
                self.heap@.count(e) <= if #[trigger] self.is_head(e) {
                    1nat
                } else {
                    0nat
                } by {
                if !(!e.is_tick && e.source_idx == idx) {
                    assert(self.is_head(e) == start.is_head(e));
                } else {
                    assert(start.heap@.count(e) <= if start.is_head(e) {
                        1nat
                    } else {
                        0nat
                    });
                }
            }
        }
        proof {
            let (a, b) = (
                book_view(start.books@[idx as int]),
                book_view(self.books@[idx as int]),
            );
            if let Some(rest) = start.books@[idx as int].rest() {
                assert(a.rest.unwrap().drop_first() =~= b.rest.unwrap());
            }
        }
        Ok(update)
    }

    /// Takes the first entry off the heap, unless it is later than `limit`.
    fn pop_due(&mut self, limit: i64) -> (r: Option<PeekedEvent>)
        requires
            old(self).wf(),
            old(self).is_heap_initialized,
        ensures
            final(self).heap.wf(),
            final(self).ticks == old(self).ticks,
            final(self).books == old(self).books,
            final(self).is_heap_initialized,
            final(self).is_source_lost == old(self).is_source_lost,
            match r {
                Some(e) => {
                    &&& e.ts <= limit
                    &&& old(self).heap@.contains(e)
                    &&& final(self).heap@ == old(self).heap@.remove(e)
                    &&& forall|f: PeekedEvent| #[trigger]
                        old(self).heap@.contains(f) ==> e.rank_le(f)
                },
                None => {
                    &&& final(self).heap@ == old(self).heap@
                    &&& forall|f: PeekedEvent| #[trigger]
                        old(self).heap@.contains(f) ==> f.ts > limit
                },
            },
    {
        match self.heap.peek() {
            Some(e) => {
                if !likely(e.ts <= limit) {
                    return None;
                }
            },
            None => {
                return None;
            },
        }
        self.heap.pop()
    }

    proof fn lemma_nothing_due(&self, limit: i64)
        requires
            self.wf(),
            self.is_heap_initialized,
            forall|f: PeekedEvent| #[trigger] self.heap@.contains(f) ==> f.ts > limit,
        ensures
            !self.is_source_lost ==> forall|place: Place| #[trigger]
                self@.waits(place) ==> self@.item(place).ts() > limit,
    {
        self.lemma_entries();
        if !self.is_source_lost {
            assert forall|place: Place| #[trigger] self@.waits(place) implies self@.item(
                place,
            ).ts() > limit by {
                assert(self.heap@.contains(self.entry_of(place)));
            }
        }
    }

    proof fn lemma_earliest(&self, next: PeekedEvent)
        requires
            self.wf(),
            self.is_heap_initialized,
            self.heap@.contains(next),
            forall|f: PeekedEvent| #[trigger] self.heap@.contains(f) ==> next.rank_le(f),
        ensures
            self.is_head(next),
            self.heap@.count(next) == 1,
            self@.waits(Self::place_of(next)),
            self@.item(Self::place_of(next)).ts() == next.ts,
            !self.is_source_lost ==> forall|other: Place| #[trigger]
                self@.waits(other) ==> self@.comes_first(Self::place_of(next), other),
    {
        self.lemma_entries();
        assert(self.heap@.count(next) > 0);
        assert(self.ticks.len() == self.ticks@.len() && self.books.len() == self.books@.len());
        if !self.is_source_lost {
            assert forall|other: Place| #[trigger] self@.waits(other) implies self@.comes_first(
                Self::place_of(next),
                other,
            ) by {
                let f = self.entry_of(other);
                assert(self.heap@.contains(f));
                assert(next.rank_le(f));
                assert(self.entry_of(Self::place_of(next)) == next);
            }
        }
    }

    proof fn lemma_pop_keeps_heads(&self, after: &Self, next: PeekedEvent)
        requires
            self.wf(),
            self.is_heap_initialized,
            self.is_head(next),
            self.heap@.count(next) == 1,
            after.ticks == self.ticks,
            after.books == self.books,
            after.heap@ == self.heap@.remove(next),
        ensures
            forall|e: PeekedEvent| #[trigger] after.is_head(e) == self.is_head(e),
            after.heap@.count(next) == 0,
            forall|e: PeekedEvent|
                after.heap@.count(e) <= if #[trigger] after.is_head(e) {
                    1nat
                } else {
                    0nat
                },
            !self.is_source_lost ==> forall|e: PeekedEvent| #[trigger]
                after.is_head(e) && e != next ==> after.heap@.count(e) == 1,
    {
        assert forall|e: PeekedEvent| #[trigger] after.is_head(e) == self.is_head(e) by {}
        assert forall|e: PeekedEvent|
            after.heap@.count(e) <= if #[trigger] after.is_head(e) {
                1nat
            } else {
                0nat
            } by {
            assert(self.is_head(e) == after.is_head(e));
        }
        if !self.is_source_lost {
            assert forall|e: PeekedEvent| #[trigger]
                after.is_head(e) && e != next implies after.heap@.count(e) == 1 by {
                assert(self.is_head(e));
            }
        }
    }

    /// Takes the earliest waiting item that is not later than `limit`.
    pub fn next_due(&mut self, limit: i64) -> (r: Result<Option<FeedItem>, FeedError>)
        requires
            old(self).wf(),
        ensures
            final(self).wf(),
            match r {
                Ok(Some(item)) => item.ts() <= limit && old(self)@.takes(item, final(self)@),
                Ok(None) => {
                    &&& final(self)@ == old(self)@
                    &&& !old(self)@.lost ==> forall|place: Place| #[trigger]
                        old(self)@.waits(place) ==> old(self)@.item(place).ts() > limit
                },
                Err(e) => e is Source && old(self)@.may_fail(),
            },
    {
        if unlikely(!self.is_heap_initialized) {
            match self.initialize_heap() {
                Ok(()) => {},
                Err(e) => {
                    return Err(FeedError::Source(e));
                },
            }
            proof {
                self.lemma_same_sources(old(self));
            }
        }
        let ghost start = *self;
        assert(start@ =~= old(self)@);
        let next: PeekedEvent = match self.pop_due(limit) {
            Some(e) => e,
            None => {
                proof {
                    start.lemma_nothing_due(limit);
                    self.lemma_same_sources(&start);
                    assert(self@ =~= start@);
                }
                return Ok(None);
            },
        };
        let ghost place = Self::place_of(next);
        proof {
            start.lemma_earliest(next);
            start.lemma_pop_keeps_heads(self, next);
            assert(start@.is_place(place));
        }
        if next.is_tick {
            assert(start@.source(place) == tick_view(start.ticks@[next.source_idx as int]));
            match self.take_tick(next.source_idx, Ghost(next)) {
                Ok(tick) => {
                    proof {
                        start.lemma_takes(self, place);
                    }
                    Ok(Some(FeedItem::Tick(tick)))
                },
                Err(e) => Err(e),
            }
        } else {
            assert(start@.source(place) == book_view(start.books@[next.source_idx as int]));
            match self.take_update(next.source_idx, Ghost(next)) {
                Ok(update) => {
                    proof {
                        start.lemma_takes(self, place);
                    }
                    Ok(Some(FeedItem::L3(update)))
                },
                Err(e) => Err(e),
            }
        }
    }

    /// Taking an item from one source leaves all others alone.
    proof fn lemma_takes(&self, after: &Self, place: Place)
        requires
            self@.waits(place),
            !self@.lost ==> forall|other: Place| #[trigger]
                self@.waits(other) ==> self@.comes_first(place, other),
            after@.lost == self@.lost,
            self.ticks@.len() == after.ticks@.len(),
            self.books@.len() == after.books@.len(),
            forall|i: int|
                0 <= i < self.ticks@.len() && !(place.is_tick && i == place.idx) ==> (
                #[trigger] after.ticks@[i]) == self.ticks@[i],
            forall|i: int|
                0 <= i < self.books@.len() && !(!place.is_tick && i == place.idx) ==> (
                #[trigger] after.books@[i]) == self.books@[i],
            self@.source(place).moves_on_to(after@.source(place)),
        ensures
            self@.takes(self@.item(place), after@),
    {
        assert forall|other: Place| #[trigger]
            self@.is_place(other) && other != place implies after@.source(other) == self@.source(
            other,
        ) by {
            if other.is_tick {
                assert(after.ticks@[other.idx] == self.ticks@[other.idx]);
            } else {
                assert(after.books@[other.idx] == self.books@[other.idx]);
            }
        }
        assert(self@.takes_at(place, after@));
    }

    /// Where only one source changed, the entries of all others keep their standing.
    proof fn lemma_others_keep(&self, start: &Self, is_tick: bool, idx: usize)
        requires
            self.heap == start.heap,
            start.heap.wf(),
            self.is_heap_initialized,
            self.ticks@.len() == start.ticks@.len(),
            self.books@.len() == start.books@.len(),
            forall|i: int|
                0 <= i < self.ticks@.len() && !(is_tick && i == idx) ==> (
                #[trigger] self.ticks@[i]).head() == start.ticks@[i].head(),
            forall|i: int|
                0 <= i < self.books@.len() && !(!is_tick && i == idx) ==> (
                #[trigger] self.books@[i]).head() == start.books@[i].head(),
            forall|e: PeekedEvent|
                start.heap@.count(e) <= if #[trigger] start.is_head(e) {
                    1nat
                } else {
                    0nat
                },
            forall|e: PeekedEvent|
                e.is_tick == is_tick && e.source_idx == idx ==> #[trigger] start.heap@.count(e)
                    == 0,
        ensures
            forall|e: PeekedEvent|
                !(e.is_tick == is_tick && e.source_idx == idx) ==> (#[trigger] self.is_head(e)
                    == start.is_head(e)),
            forall|e: PeekedEvent|
                self.heap@.count(e) <= if #[trigger] self.is_head(e) {
                    1nat
                } else {
                    0nat
                },
    {
        assert forall|e: PeekedEvent|
            !(e.is_tick == is_tick && e.source_idx == idx) implies #[trigger] self.is_head(e)
            == start.is_head(e) by {
            if e.is_tick && e.source_idx < self.ticks@.len() {
                assert(self.ticks@[e.source_idx as int].head()
                    == start.ticks@[e.source_idx as int].head());
            }
            if !e.is_tick && e.source_idx < self.books@.len() {
                assert(self.books@[e.source_idx as int].head()
                    == start.books@[e.source_idx as int].head());
            }
        }
        assert forall|e: PeekedEvent|
            self.heap@.count(e) <= if #[trigger] self.is_head(e) {
                1nat
            } else {
                0nat
            } by {
            if !(e.is_tick == is_tick && e.source_idx == idx) {
                assert(self.is_head(e) == start.is_head(e));
            } else {
                assert(start.heap@.count(e) == 0);
            }
        }
    }
}

/// The item that is taken next is the earliest that any source has, by the time of the
/// exchange, then by the sequence number; of those that are equal, a book update before a
/// tick, then that of the source that was added first.
pub proof fn law_earliest_item_is_taken(
    before: FeedsView,
    place: Place,
    after: FeedsView,
    other: Place,
)
    requires
        before.takes_at(place, after),
        !before.lost,
        before.waits(other),
    ensures
        ({
            let (a, b) = (before.item(place), before.item(other));
            &&& a.ts() <= b.ts()
            &&& a.ts() == b.ts() ==> a.seq() <= b.seq()
            &&& a.ts() == b.ts() && a.seq() == b.seq() && place.is_tick ==> other.is_tick
            &&& a.ts() == b.ts() && a.seq() == b.seq() && place.is_tick == other.is_tick
                ==> place.idx <= other.idx
        }),
{
}

/// An item has the time and the number of the tick or book update that it is.
pub proof fn law_items_keep_time_and_number(tick: Tick, update: L3Update)
    ensures
        FeedItem::Tick(tick).ts() == tick.ts_exchange,
        FeedItem::Tick(tick).seq() == tick.seq,
        FeedItem::L3(update).ts() == update.ts_exchange,
        FeedItem::L3(update).seq() == update.seq,
{
}

} // verus!
