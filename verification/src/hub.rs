//! The broadcast hub: bounded fan-out of status events to subscribers.
//!
//! The hub keeps a buffer of the most recent `capacity` published events and
//! one cursor per subscriber.  Publishing never waits on any subscriber: a
//! subscriber whose cursor falls more than `capacity` events behind the head
//! loses the evicted events and is told so through a lag indicator on its
//! next read, after which it resumes at the oldest event still buffered.
//! Closing the hub is terminal: every later read yields the closed
//! indicator, and publish and subscribe are refused.

use vstd::prelude::*;

use crate::event::{EventView, StatusEvent};

verus! {

/// Mathematical model of one subscriber entry.
#[verifier::ext_equal]
pub struct SubView {
    /// Index into the hub's publish history of the next event to read.
    pub cursor: nat,
    /// False once the subscriber unregistered.
    pub active: bool,
}

/// Mathematical model of the hub: the full publish history, every
/// subscriber's cursor, the buffer bound and the closed flag.
#[verifier::ext_equal]
pub struct HubView {
    pub cap: nat,
    pub history: Seq<EventView>,
    pub subs: Seq<SubView>,
    pub closed: bool,
}

/// The one failure the hub itself can report: it was already closed.
#[derive(Debug)]
pub enum HubError {
    Closed,
}

/// Model of one read outcome.
pub enum RecvView {
    Event(EventView),
    Lagged,
    Pending,
    Closed,
}

/// What one read on a subscription yields.
#[derive(Debug)]
pub enum RecvOutcome {
    /// The next event, in publish order.
    Event(StatusEvent),
    /// The subscriber fell more than the buffer bound behind; the skipped
    /// events are gone and the cursor now sits at the oldest buffered event.
    Lagged,
    /// Nothing published past this cursor yet; a live delivery loop would
    /// wait and ask again.
    Pending,
    /// The hub was closed or the subscription unregistered; terminal.
    Closed,
}

impl View for RecvOutcome {
    type V = RecvView;

    open spec fn view(&self) -> RecvView {
        match self {
            RecvOutcome::Event(e) => RecvView::Event(e@),
            RecvOutcome::Lagged => RecvView::Lagged,
            RecvOutcome::Pending => RecvView::Pending,
            RecvOutcome::Closed => RecvView::Closed,
        }
    }
}

/// A subscriber's ticket: an index into the hub's subscriber table.
#[derive(Debug)]
pub struct SubscriptionHandle {
    id: usize,
}

impl View for SubscriptionHandle {
    type V = nat;

    closed spec fn view(&self) -> nat {
        self.id as nat
    }
}

struct Sub {
    cursor: usize,
    active: bool,
}

/// The broadcast hub.
pub struct Hub {
    cap: usize,
    head: usize,
    buf: Vec<StatusEvent>,
    subs: Vec<Sub>,
    closed: bool,
    history: Ghost<Seq<EventView>>,
}

/// A well-formed view: at least one buffer slot, and no cursor past the head.
pub open spec fn view_wf(h: HubView) -> bool {
    &&& h.cap >= 1
    &&& forall|i: int| 0 <= i < h.subs.len() ==> (#[trigger] h.subs[i]).cursor <= h.history.len()
}

/// Index of the oldest event a subscriber can still read: everything before
/// it has been evicted from the buffer.
pub open spec fn lag_floor(h: HubView) -> nat {
    if h.history.len() <= h.cap {
        0
    } else {
        (h.history.len() - h.cap) as nat
    }
}

/// How many subscribers are still registered.
pub open spec fn active_count(subs: Seq<SubView>) -> nat
    decreases subs.len(),
{
    if subs.len() == 0 {
        0
    } else {
        active_count(subs.drop_last()) + if subs.last().active {
            1nat
        } else {
            0nat
        }
    }
}

/// State after a subscribe: one more entry, cursor at the head, so none of
/// the already-published events is visible to it.
pub open spec fn spec_subscribe(h: HubView) -> HubView {
    if h.closed {
        h
    } else {
        HubView {
            subs: h.subs.push(SubView { cursor: h.history.len(), active: true }),
            ..h
        }
    }
}

/// State after a publish: the event appended to the history, every cursor
/// untouched.  A closed hub is unchanged.
pub open spec fn spec_publish(h: HubView, e: EventView) -> HubView {
    if h.closed {
        h
    } else {
        HubView { history: h.history.push(e), ..h }
    }
}

/// State after subscriber `i` unregisters: its entry goes inactive, its
/// cursor and everything else stay.
pub open spec fn spec_unsubscribe(h: HubView, i: int) -> HubView {
    HubView {
        subs: h.subs.update(i, SubView { cursor: h.subs[i].cursor, active: false }),
        ..h
    }
}

/// State after the hub closes: terminal.
pub open spec fn spec_close(h: HubView) -> HubView {
    HubView { closed: true, ..h }
}

/// Outcome of one read by subscriber `i`.
pub open spec fn spec_recv_out(h: HubView, i: int) -> RecvView {
    let s = h.subs[i];
    if h.closed || !s.active {
        RecvView::Closed
    } else if s.cursor == h.history.len() {
        RecvView::Pending
    } else if s.cursor < lag_floor(h) {
        RecvView::Lagged
    } else {
        RecvView::Event(h.history[s.cursor as int])
    }
}

/// State after one read by subscriber `i`: the cursor advances by one on an
/// event, jumps to the lag floor on a lag, and otherwise stays.
pub open spec fn spec_recv_state(h: HubView, i: int) -> HubView {
    let s = h.subs[i];
    if h.closed || !s.active || s.cursor == h.history.len() {
        h
    } else if s.cursor < lag_floor(h) {
        HubView { subs: h.subs.update(i, SubView { cursor: lag_floor(h), active: s.active }), ..h }
    } else {
        HubView {
            subs: h.subs.update(i, SubView { cursor: s.cursor + 1, active: s.active }),
            ..h
        }
    }
}

impl View for Hub {
    type V = HubView;

    closed spec fn view(&self) -> HubView {
        HubView {
            cap: self.cap as nat,
            history: self.history@,
            subs: Seq::new(
                self.subs@.len(),
                |i: int| SubView { cursor: self.subs@[i].cursor as nat, active: self.subs@[i].active },
            ),
            closed: self.closed,
        }
    }
}

impl Hub {
    /// Internal consistency: the buffer holds exactly the most recent
    /// `min(head, cap)` events of the history, and every cursor is at most
    /// the head.
    pub closed spec fn wf(&self) -> bool {
        &&& self.cap >= 1
        &&& self.head == self.history@.len()
        &&& self.buf@.len() == if self.head <= self.cap {
            self.head as int
        } else {
            self.cap as int
        }
        &&& forall|j: int|
            0 <= j < self.buf@.len() ==> (#[trigger] self.buf@[j])@ == self.history@[self.head
                - self.buf@.len() + j]
        &&& forall|j: int|
            0 <= j < self.subs@.len() ==> (#[trigger] self.subs@[j]).cursor <= self.head
    }

    /// A well-formed hub has a well-formed view.
    pub proof fn lemma_wf_view(&self)
        requires
            self.wf(),
        ensures
            view_wf(self@),
    {
    }

    /// A fresh, open hub that retains at most `capacity` events.
    pub fn new(capacity: usize) -> (r: Hub)
        requires
            capacity >= 1,
        ensures
            r.wf(),
            r@ == (HubView {
                cap: capacity as nat,
                history: Seq::<EventView>::empty(),
                subs: Seq::<SubView>::empty(),
                closed: false,
            }),
    {
        let r = Hub {
            cap: capacity,
            head: 0,
            buf: Vec::new(),
            subs: Vec::new(),
            closed: false,
            history: Ghost(Seq::empty()),
        };
        proof {
            assert(r@.subs =~= Seq::<SubView>::empty());
            assert(r@ =~= (HubView {
                cap: capacity as nat,
                history: Seq::<EventView>::empty(),
                subs: Seq::<SubView>::empty(),
                closed: false,
            }));
        }
        r
    }

    /// The configured buffer bound.
    pub fn capacity(&self) -> (r: usize)
        ensures
            r as nat == self@.cap,
    {
        self.cap
    }

    /// Whether the hub was closed.
    pub fn is_closed(&self) -> (r: bool)
        ensures
            r == self@.closed,
    {
        self.closed
    }

    /// How many events were ever published.
    pub fn published(&self) -> (r: usize)
        requires
            self.wf(),
        ensures
            r as nat == self@.history.len(),
    {
        self.head
    }

    /// How many subscribers are still registered.
    pub fn active_subscribers(&self) -> (n: usize)
        requires
            self.wf(),
        ensures
            n as nat == active_count(self@.subs),
    {
        let mut n: usize = 0;
        let mut i: usize = 0;
        while i < self.subs.len()
            invariant
                i <= self.subs@.len(),
                n <= i,
                n as nat == active_count(self@.subs.take(i as int)),
            decreases self.subs@.len() - i,
        {
            proof {
                assert(self@.subs.take(i + 1).drop_last() =~= self@.subs.take(i as int));
                assert(self@.subs.take(i + 1).last() == self@.subs[i as int]);
            }
            if self.subs[i].active {
                n = n + 1;
            }
            i = i + 1;
        }
        proof {
            assert(self@.subs.take(self.subs@.len() as int) =~= self@.subs);
        }
        n
    }

    /// Registers a new subscriber.  Its stream starts at the next publish:
    /// nothing already published is ever delivered to it.
    pub fn subscribe(&mut self) -> (r: Result<SubscriptionHandle, HubError>)
        requires
            old(self).wf(),
        ensures
            final(self).wf(),
            final(self)@ == spec_subscribe(old(self)@),
            old(self)@.closed ==> (r matches Err(HubError::Closed) && final(self)@ == old(self)@),
            !old(self)@.closed ==> (r matches Ok(h) && h@ == old(self)@.subs.len()),
    {
        if self.closed {
            return Err(HubError::Closed);
        }
        let id = self.subs.len();
        self.subs.push(Sub { cursor: self.head, active: true });
        proof {
            assert(self@.subs =~= spec_subscribe(old(self)@).subs);
            assert(self@ =~= spec_subscribe(old(self)@));
        }
        Ok(SubscriptionHandle { id })
    }

    /// Appends the event for every current subscriber and reports how many
    /// subscribers are registered to receive it.  Never waits on any of
    /// them; after the hub is closed it refuses and changes nothing.
    pub fn publish(&mut self, event: StatusEvent) -> (r: Result<usize, HubError>)
        requires
            old(self).wf(),
            old(self)@.history.len() < usize::MAX,
        ensures
            final(self).wf(),
            final(self)@ == spec_publish(old(self)@, event@),
            old(self)@.closed ==> r matches Err(HubError::Closed),
            !old(self)@.closed ==> (r matches Ok(n) && n as nat == active_count(old(self)@.subs)),
    {
        if self.closed {
            return Err(HubError::Closed);
        }
        let n = self.active_subscribers();
        if self.buf.len() == self.cap {
            self.buf.remove(0);
        }
        self.buf.push(event);
        self.head = self.head + 1;
        proof {
            self.history@ = self.history@.push(event@);
        }
        proof {
            assert forall|j: int| 0 <= j < self.buf@.len() implies (#[trigger] self.buf@[j])@
                == self.history@[self.head - self.buf@.len() + j] by {
                if j < self.buf@.len() - 1 {
                    assert(self.buf@[j] == old(self).buf@[j + (old(self).buf@.len() - (self.buf@.len()
                        - 1))]);
                }
            }
            assert(self@.subs =~= spec_publish(old(self)@, event@).subs);
            assert(self@ =~= spec_publish(old(self)@, event@));
        }
        Ok(n)
    }

    /// One read for the given subscription: the next event in publish
    /// order, or a lag indicator after the subscriber fell more than the
    /// buffer bound behind, or pending / closed.
    pub fn recv(&mut self, handle: &SubscriptionHandle) -> (r: RecvOutcome)
        requires
            old(self).wf(),
            handle@ < old(self)@.subs.len(),
        ensures
            final(self).wf(),
            final(self)@ == spec_recv_state(old(self)@, handle@ as int),
            r@ == spec_recv_out(old(self)@, handle@ as int),
    {
        let ghost i = handle@ as int;
        if self.closed {
            return RecvOutcome::Closed;
        }
        if !self.subs[handle.id].active {
            return RecvOutcome::Closed;
        }
        let cursor = self.subs[handle.id].cursor;
        if cursor == self.head {
            return RecvOutcome::Pending;
        }
        let oldest = self.head - self.buf.len();
        if cursor < oldest {
            self.subs[handle.id].cursor = oldest;
            proof {
                assert(self@.subs =~= spec_recv_state(old(self)@, i).subs);
                assert(self@ =~= spec_recv_state(old(self)@, i));
            }
            return RecvOutcome::Lagged;
        }
        let e = self.buf[cursor - oldest].duplicate();
        self.subs[handle.id].cursor = cursor + 1;
        proof {
            assert(self@.subs =~= spec_recv_state(old(self)@, i).subs);
            assert(self@ =~= spec_recv_state(old(self)@, i));
        }
        RecvOutcome::Event(e)
    }

    /// Unregisters the subscription; its later reads yield the closed
    /// indicator.  Nothing else changes.
    pub fn unsubscribe(&mut self, handle: &SubscriptionHandle)
        requires
            old(self).wf(),
            handle@ < old(self)@.subs.len(),
        ensures
            final(self).wf(),
            final(self)@ == spec_unsubscribe(old(self)@, handle@ as int),
    {
        let ghost i = handle@ as int;
        let cursor = self.subs[handle.id].cursor;
        self.subs[handle.id] = Sub { cursor, active: false };
        proof {
            assert(self@.subs =~= spec_unsubscribe(old(self)@, i).subs);
            assert(self@ =~= spec_unsubscribe(old(self)@, i));
        }
    }

    /// Closes the hub: terminal.  Every subscriber's next read yields the
    /// closed indicator, and publish and subscribe are refused from now on.
    pub fn close(&mut self)
        requires
            old(self).wf(),
        ensures
            final(self).wf(),
            final(self)@ == spec_close(old(self)@),
    {
        self.closed = true;
        proof {
            assert(self@ =~= spec_close(old(self)@));
        }
    }
}

/// The hub state after `n` consecutive reads by subscriber `i`.
pub open spec fn spec_recv_state_n(h: HubView, i: int, n: nat) -> HubView
    decreases n,
{
    if n == 0 {
        h
    } else {
        spec_recv_state(spec_recv_state_n(h, i, (n - 1) as nat), i)
    }
}

/// The outcomes of `n` consecutive reads by subscriber `i`, in order.
pub open spec fn observed(h: HubView, i: int, n: nat) -> Seq<RecvView>
    decreases n,
{
    if n == 0 {
        Seq::empty()
    } else {
        observed(h, i, (n - 1) as nat).push(
            spec_recv_out(spec_recv_state_n(h, i, (n - 1) as nat), i),
        )
    }
}

/// The hub state after publishing a sequence of events, oldest first.
pub open spec fn spec_publish_n(h: HubView, es: Seq<EventView>) -> HubView
    decreases es.len(),
{
    if es.len() == 0 {
        h
    } else {
        spec_publish(spec_publish_n(h, es.drop_last()), es.last())
    }
}

/// Publishing a sequence on an open hub appends it to the history and
/// touches nothing else: no cursor moves on a publish.
pub proof fn lemma_publish_n_effect(h: HubView, es: Seq<EventView>)
    requires
        !h.closed,
    ensures
        spec_publish_n(h, es).cap == h.cap,
        spec_publish_n(h, es).closed == h.closed,
        spec_publish_n(h, es).subs == h.subs,
        spec_publish_n(h, es).history == h.history + es,
    decreases es.len(),
{
    if es.len() == 0 {
        assert(h.history + es =~= h.history);
    } else {
        lemma_publish_n_effect(h, es.drop_last());
        assert(h.history + es =~= (h.history + es.drop_last()).push(es.last()));
    }
}

/// One read changes at most subscriber `j`'s cursor, and only forward:
/// the history, the bound, the closed flag and every other subscriber are
/// untouched, and well-formedness is kept.
pub proof fn lemma_recv_state_frame(h: HubView, j: int)
    requires
        view_wf(h),
        0 <= j < h.subs.len(),
    ensures
        spec_recv_state(h, j).cap == h.cap,
        spec_recv_state(h, j).closed == h.closed,
        spec_recv_state(h, j).history == h.history,
        spec_recv_state(h, j).subs.len() == h.subs.len(),
        view_wf(spec_recv_state(h, j)),
        forall|m: int|
            0 <= m < h.subs.len() && m != j ==> spec_recv_state(h, j).subs[m] == h.subs[m],
        spec_recv_state(h, j).subs[j].cursor >= h.subs[j].cursor,
        spec_recv_state(h, j).subs[j].active == h.subs[j].active,
{
}

/// Ordered, gapless delivery: a subscriber whose cursor is inside the
/// buffered window and who reads `n` times, no event being published in
/// between, is handed exactly the next `n` events of the publish history,
/// in publish order.  With cursor `0` and `n` the whole history this says
/// a subscriber registered before the first publish that never lags
/// observes every published event, in order.
pub proof fn lemma_in_order_delivery(h: HubView, i: int, n: nat)
    requires
        view_wf(h),
        0 <= i < h.subs.len(),
        !h.closed,
        h.subs[i].active,
        h.subs[i].cursor + n <= h.history.len(),
        h.subs[i].cursor >= lag_floor(h),
    ensures
        spec_recv_state_n(h, i, n) == (HubView {
            subs: h.subs.update(
                i,
                SubView { cursor: (h.subs[i].cursor + n) as nat, active: true },
            ),
            ..h
        }),
        observed(h, i, n) =~= Seq::new(
            n,
            |k: int| RecvView::Event(h.history[h.subs[i].cursor + k]),
        ),
    decreases n,
{
    let c = h.subs[i].cursor;
    if n == 0 {
        assert(h.subs.update(i, SubView { cursor: c, active: true }) =~= h.subs);
        assert(spec_recv_state_n(h, i, n) =~= (HubView {
            subs: h.subs.update(i, SubView { cursor: (c + n) as nat, active: true }),
            ..h
        }));
    } else {
        lemma_in_order_delivery(h, i, (n - 1) as nat);
        let hp = spec_recv_state_n(h, i, (n - 1) as nat);
        assert(hp.subs[i].cursor == c + n - 1);
        assert(lag_floor(hp) == lag_floor(h));
        assert(spec_recv_out(hp, i) == RecvView::Event(h.history[c + n - 1]));
        assert(hp.subs.update(i, SubView { cursor: (c + n) as nat, active: true }) =~= h.subs.update(
            i,
            SubView { cursor: (c + n) as nat, active: true },
        ));
        assert(spec_recv_state_n(h, i, n) =~= (HubView {
            subs: h.subs.update(i, SubView { cursor: (c + n) as nat, active: true }),
            ..h
        }));
    }
}

/// Full-observation scenario: on a hub whose buffer bound admits them all,
/// a subscriber registered before the first publish reads back exactly the
/// published sequence, in publish order.
pub proof fn lemma_subscriber_sees_all(cap: nat, es: Seq<EventView>)
    requires
        1 <= cap,
        es.len() <= cap,
    ensures
        ({
            let h0 = HubView {
                cap,
                history: Seq::<EventView>::empty(),
                subs: Seq::<SubView>::empty(),
                closed: false,
            };
            let h2 = spec_publish_n(spec_subscribe(h0), es);
            observed(h2, 0, es.len()) =~= Seq::new(
                es.len(),
                |k: int| RecvView::Event(es[k]),
            )
        }),
{
    let h0 = HubView {
        cap,
        history: Seq::<EventView>::empty(),
        subs: Seq::<SubView>::empty(),
        closed: false,
    };
    let h1 = spec_subscribe(h0);
    lemma_publish_n_effect(h1, es);
    let h2 = spec_publish_n(h1, es);
    assert(h2.history =~= es);
    assert(h2.subs[0] == SubView { cursor: 0, active: true });
    lemma_in_order_delivery(h2, 0, es.len());
    assert(observed(h2, 0, es.len()) =~= Seq::new(
        es.len(),
        |k: int| RecvView::Event(es[k]),
    ));
}

/// Each read appends one outcome.
pub proof fn lemma_observed_len(h: HubView, i: int, n: nat)
    ensures
        observed(h, i, n).len() == n,
    decreases n,
{
    if n > 0 {
        lemma_observed_len(h, i, (n - 1) as nat);
    }
}

/// No backfill: a subscriber's cursor never moves backward across reads,
/// and every event it is handed lies at or past the cursor it started
/// with.  A subscriber registered after `K` publishes starts with cursor
/// `K`, so none of those first `K` events is ever delivered to it.
pub proof fn lemma_no_backfill(h: HubView, i: int, n: nat)
    requires
        view_wf(h),
        0 <= i < h.subs.len(),
    ensures
        view_wf(spec_recv_state_n(h, i, n)),
        spec_recv_state_n(h, i, n).history == h.history,
        spec_recv_state_n(h, i, n).subs.len() == h.subs.len(),
        spec_recv_state_n(h, i, n).subs[i].cursor >= h.subs[i].cursor,
        forall|k: int|
            0 <= k < n ==> #[trigger] observed(h, i, n)[k] == spec_recv_out(
                spec_recv_state_n(h, i, k as nat),
                i,
            ),
        forall|k: int|
            0 <= k < n ==> (#[trigger] observed(h, i, n)[k] is Event ==> ({
                let ck = spec_recv_state_n(h, i, k as nat).subs[i].cursor;
                &&& h.subs[i].cursor <= ck < h.history.len()
                &&& observed(h, i, n)[k] == RecvView::Event(h.history[ck as int])
            })),
    decreases n,
{
    if n > 0 {
        lemma_no_backfill(h, i, (n - 1) as nat);
        let hp = spec_recv_state_n(h, i, (n - 1) as nat);
        lemma_recv_state_frame(hp, i);
        lemma_observed_len(h, i, n);
        lemma_observed_len(h, i, (n - 1) as nat);
        let outp = spec_recv_out(hp, i);
        assert(observed(h, i, n) == observed(h, i, (n - 1) as nat).push(outp));
        assert(forall|k: int|
            0 <= k < n - 1 ==> #[trigger] observed(h, i, n)[k] == observed(h, i, (n - 1) as nat)[k]);
        assert(observed(h, i, n)[n - 1] == outp);
        if outp is Event {
            assert(hp.subs[i].cursor < hp.history.len());
            assert(outp == RecvView::Event(h.history[hp.subs[i].cursor as int]));
        }
    }
}

/// Lag handling: a subscriber more than the buffer bound behind is told it
/// lagged — it is never handed stale data — and its very next read
/// resumes at the oldest event still buffered, not at any evicted one.
pub proof fn lemma_lag_then_resume(h: HubView, i: int)
    requires
        view_wf(h),
        0 <= i < h.subs.len(),
        !h.closed,
        h.subs[i].active,
        h.subs[i].cursor < lag_floor(h),
    ensures
        spec_recv_out(h, i) == RecvView::Lagged,
        spec_recv_state(h, i).subs[i].cursor == lag_floor(h),
        spec_recv_out(spec_recv_state(h, i), i) == RecvView::Event(
            h.history[lag_floor(h) as int],
        ),
{
    assert(lag_floor(h) < h.history.len());
}


/// One step of hub activity, for stating laws over whole runs.
pub enum HubOp {
    Publish(EventView),
    Recv(int),
    Subscribe,
    Unsubscribe(int),
    Close,
}

/// The state one operation leads to.  A read or an unregister naming no
/// registered subscriber changes nothing.
pub open spec fn spec_step(h: HubView, op: HubOp) -> HubView {
    match op {
        HubOp::Publish(e) => spec_publish(h, e),
        HubOp::Recv(j) => if 0 <= j < h.subs.len() {
            spec_recv_state(h, j)
        } else {
            h
        },
        HubOp::Subscribe => spec_subscribe(h),
        HubOp::Unsubscribe(j) => if 0 <= j < h.subs.len() {
            spec_unsubscribe(h, j)
        } else {
            h
        },
        HubOp::Close => spec_close(h),
    }
}

/// The state a whole run of operations leads to, oldest first.
pub open spec fn spec_run(h: HubView, ops: Seq<HubOp>) -> HubView
    decreases ops.len(),
{
    if ops.len() == 0 {
        h
    } else {
        spec_step(spec_run(h, ops.drop_last()), ops.last())
    }
}

/// Along any run of hub operations: subscribers are never removed, an
/// already-registered subscriber's cursor never moves backward, and the
/// already-published events stay an unchanged prefix of the history.
pub proof fn lemma_run_preserves(h: HubView, ops: Seq<HubOp>, i: int)
    requires
        view_wf(h),
        0 <= i < h.subs.len(),
    ensures
        view_wf(spec_run(h, ops)),
        spec_run(h, ops).cap == h.cap,
        spec_run(h, ops).subs.len() >= h.subs.len(),
        spec_run(h, ops).subs[i].cursor >= h.subs[i].cursor,
        spec_run(h, ops).history.len() >= h.history.len(),
        spec_run(h, ops).history.take(h.history.len() as int) == h.history,
    decreases ops.len(),
{
    if ops.len() == 0 {
        assert(spec_run(h, ops).history.take(h.history.len() as int) =~= h.history);
    } else {
        lemma_run_preserves(h, ops.drop_last(), i);
        let hp = spec_run(h, ops.drop_last());
        let hn = spec_step(hp, ops.last());
        match ops.last() {
            HubOp::Publish(e) => {
                if !hp.closed {
                    assert(hn.history.take(h.history.len() as int) =~= hp.history.take(
                        h.history.len() as int,
                    ));
                }
            },
            HubOp::Recv(j) => {
                if 0 <= j < hp.subs.len() {
                    lemma_recv_state_frame(hp, j);
                }
            },
            HubOp::Subscribe => {},
            HubOp::Unsubscribe(j) => {},
            HubOp::Close => {},
        }
    }
}

/// No backfill, over any later activity: a subscriber registered after
/// `K` events were published starts with cursor `K`; whatever mix of
/// publishes, reads by others, its own reads, registrations and shutdown
/// follows, the first `K` events stay exactly the history before `K`, its
/// cursor stays at or past `K`, and anything it is handed next is the
/// event at its cursor — so none of those first `K` events is ever
/// delivered to it.
pub proof fn lemma_late_subscriber_misses_earlier(h: HubView, ops: Seq<HubOp>)
    requires
        view_wf(h),
        !h.closed,
    ensures
        ({
            let i = h.subs.len() as int;
            let hn = spec_run(spec_subscribe(h), ops);
            &&& hn.subs[i].cursor >= h.history.len()
            &&& hn.history.take(h.history.len() as int) == h.history
            &&& (spec_recv_out(hn, i) is Event ==> spec_recv_out(hn, i) == RecvView::Event(
                hn.history[hn.subs[i].cursor as int],
            ))
        }),
{
    let i = h.subs.len() as int;
    let h1 = spec_subscribe(h);
    assert(view_wf(h1));
    lemma_run_preserves(h1, ops, i);
    let hn = spec_run(h1, ops);
    assert(hn.history.take(h.history.len() as int) =~= hn.history.take(
        h1.history.len() as int,
    ));
}

} // verus!
