//! A stream of batches, embedded several at a time and answered in order.
//!
//! Batches are numbered from 0 as they are admitted. At most a given number may
//! be admitted and not yet answered, so a slow client holds back the reading.
//! Batches finish in any order; answers leave strictly in order. When a batch
//! fails, the lowest failing number, the failure frontier, is remembered: every
//! batch below it is still owed to the client and runs to its end, every batch
//! above it is abandoned, nothing more is admitted, and its failure is the last
//! thing the client gets.

use std::collections::BTreeMap;
use vstd::prelude::*;

use super::request::{ignored_option_fields, ignored_options, names_view, EmbedArrowRequest};
use super::status::{status, Code, Status};

verus! {

broadcast use {
    vstd::laws_cmp::group_laws_cmp,
    vstd::std_specs::btree::group_btree_axioms,
    vstd::map::group_map_axioms,
};

/// Outcome counters of one stream.
#[derive(Debug, Clone, Copy, PartialEq, Eq)]
pub struct ArrowStreamStats {
    /// Requests after the first that set options which were ignored.
    pub batches_with_ignored_fields: u64,
}

impl Default for ArrowStreamStats {
    fn default() -> (s: Self)
        ensures
            s.batches_with_ignored_fields == 0,
    {
        ArrowStreamStats { batches_with_ignored_fields: 0 }
    }
}

impl ArrowStreamStats {
    /// Take note of a request after the first: the names of its options that
    /// differ from those pinned by the first, and so are ignored.
    pub fn on_request(&mut self, pinned: &EmbedArrowRequest, req: &EmbedArrowRequest) -> (names:
        Vec<&'static str>)
        ensures
            names_view(names@) == ignored_options(*pinned, *req),
            final(self).batches_with_ignored_fields == (if ignored_options(*pinned, *req).len()
                == 0 {
                old(self).batches_with_ignored_fields
            } else {
                old(self).batches_with_ignored_fields.wrapping_add(1)
            }),
    {
        let names = ignored_option_fields(pinned, req);
        assert(names@.len() == names_view(names@).len());
        if names.len() > 0 {
            self.batches_with_ignored_fields = self.batches_with_ignored_fields.wrapping_add(1);
        }
        names
    }
}

/// The status of a stream whose inbound side failed with `error`.
pub open spec fn is_stream_error(s: Status, error: Seq<char>) -> bool {
    s@ == status(Code::Internal, "Stream error: "@ + error)
}

/// The status of a stream whose inbound side failed.
pub fn stream_error(error: &str) -> (s: Status)
    ensures
        is_stream_error(s, error@),
{
    Status::internal("Stream error: ".to_owned().concat(error))
}

/// The status of a batch whose work was cut short by a panic.
pub fn batch_panicked() -> (s: Status)
    ensures
        s@ == status(Code::Internal, "batch task panicked"@),
{
    Status::internal("batch task panicked".to_owned())
}

/// `frontier` after batch `seq` failed: the lower of the two.
pub open spec fn lowered(frontier: Option<u64>, seq: u64) -> Option<u64> {
    match frontier {
        Some(f) => if seq < f {
            Some(seq)
        } else {
            Some(f)
        },
        None => Some(seq),
    }
}

/// Record `seq` as failed, keeping the frontier at the lowest failing number.
pub fn lower_frontier(frontier: &mut Option<u64>, seq: u64) -> (changed: bool)
    ensures
        *final(frontier) == lowered(*old(frontier), seq),
        changed == (*final(frontier) != *old(frontier)),
{
    let keep: bool = match *frontier {
        Some(f) => f <= seq,
        None => false,
    };
    if !keep {
        *frontier = Some(seq);
    }
    !keep
}

/// A pipeline as a mathematical value.
#[verifier::ext_equal]
pub struct PipelineView<R> {
    pub limit: int,
    pub next_seq: int,
    pub next_emit: int,
    pub sending: bool,
    pub frontier: Option<u64>,
    pub buffered: Map<u64, Result<R, Status>>,
    pub reading: bool,
    pub open: bool,
}

/// Something that happens to a pipeline.
pub enum Event<R> {
    /// A batch was admitted.
    Admit,
    /// The inbound side failed, with the status that stands for it.
    InboundFailed(Status),
    /// The inbound side ended.
    InboundEnded,
    /// A batch finished.
    Completed(u64, Result<R, Status>),
    /// The next answer was taken, to be sent to the client.
    Take,
    /// The answer taken last was sent.
    Emitted,
    /// The client went away.
    ClientGone,
}

impl<R> PipelineView<R> {
    /// A pipeline that may hold `limit` unanswered batches.
    pub open spec fn start(limit: int) -> Self {
        PipelineView {
            limit,
            next_seq: 0,
            next_emit: 0,
            sending: false,
            frontier: None,
            buffered: Map::empty(),
            reading: true,
            open: true,
        }
    }

    pub open spec fn wf(self) -> bool {
        &&& 1 <= self.limit
        &&& 0 <= self.next_emit <= self.next_seq <= u64::MAX
        &&& self.next_seq - self.next_emit <= self.limit
        &&& self.sending ==> self.next_emit < self.next_seq && !self.buffered.contains_key(
            self.next_emit as u64,
        )
        &&& forall|k: u64| #[trigger]
            self.buffered.contains_key(k) ==> self.next_emit <= k <= self.next_seq && (k
                == self.next_seq ==> !self.reading && self.buffered[k] is Err)
        &&& self.open ==> match self.frontier {
            None => forall|k: u64| #[trigger]
                self.buffered.contains_key(k) ==> self.buffered[k] is Ok,
            Some(f) => {
                &&& self.next_emit <= f <= self.next_seq
                &&& self.sending ==> self.next_emit < f
                &&& self.buffered.contains_key(f)
                &&& self.buffered[f] is Err
                &&& forall|k: u64| #[trigger]
                    self.buffered.contains_key(k) && k < f ==> self.buffered[k] is Ok
            },
        }
    }

    /// Whether another batch may be admitted now.
    pub open spec fn may_admit(self) -> bool {
        self.open && self.reading && self.frontier is None && self.next_seq - self.next_emit
            < self.limit
    }

    pub open spec fn admitted(self) -> Self {
        PipelineView { next_seq: self.next_seq + 1, ..self }
    }

    /// The inbound side failed: a failure just behind the last admitted batch,
    /// so that all of those are answered first.
    pub open spec fn inbound_failed(self, s: Status) -> Self {
        PipelineView {
            frontier: lowered(self.frontier, self.next_seq as u64),
            buffered: self.buffered.insert(self.next_seq as u64, Err(s)),
            reading: false,
            ..self
        }
    }

    pub open spec fn inbound_ended(self) -> Self {
        PipelineView { reading: false, ..self }
    }

    /// Whether the result of batch `seq` can no longer reach the client.
    pub open spec fn abandoned(self, seq: u64) -> bool {
        !self.open || (self.frontier matches Some(f) && f < seq)
    }

    /// Whether batch `seq` is admitted and has not finished.
    pub open spec fn in_flight(self, seq: u64) -> bool {
        &&& self.next_emit <= seq < self.next_seq
        &&& self.sending ==> self.next_emit < seq
        &&& !self.buffered.contains_key(seq)
    }

    pub open spec fn completed(self, seq: u64, result: Result<R, Status>) -> Self {
        if self.abandoned(seq) {
            self
        } else {
            PipelineView {
                frontier: if result is Err {
                    lowered(self.frontier, seq)
                } else {
                    self.frontier
                },
                buffered: self.buffered.insert(seq, result),
                ..self
            }
        }
    }

    /// The answer that is next for the client, once its batch has finished.
    pub open spec fn head(self) -> Option<Result<R, Status>> {
        if self.open && !self.sending && self.next_emit <= u64::MAX && self.buffered.contains_key(
            self.next_emit as u64,
        ) {
            Some(self.buffered[self.next_emit as u64])
        } else {
            None
        }
    }

    /// The next answer was taken. A failure is the last one.
    pub open spec fn taken(self) -> Self {
        match self.head() {
            None => self,
            Some(Ok(_)) => PipelineView {
                sending: true,
                buffered: self.buffered.remove(self.next_emit as u64),
                ..self
            },
            Some(Err(_)) => PipelineView {
                open: false,
                buffered: self.buffered.remove(self.next_emit as u64),
                ..self
            },
        }
    }

    pub open spec fn emitted(self) -> Self {
        PipelineView { sending: false, next_emit: self.next_emit + 1, ..self }
    }

    pub open spec fn client_gone(self) -> Self {
        PipelineView { open: false, ..self }
    }

    /// Nothing is left to do: the client has its last answer or is gone.
    pub open spec fn finished(self) -> bool {
        !self.open || (!self.reading && self.frontier is None && !self.sending && self.next_emit
            == self.next_seq)
    }

    /// Whether `e` can happen now.
    pub open spec fn enabled(self, e: Event<R>) -> bool {
        match e {
            Event::Admit => self.may_admit() && self.next_seq < u64::MAX,
            Event::InboundFailed(_) => self.reading,
            Event::InboundEnded => self.reading,
            Event::Completed(seq, _) => self.in_flight(seq),
            Event::Take => true,
            Event::Emitted => self.sending,
            Event::ClientGone => true,
        }
    }

    pub open spec fn step(self, e: Event<R>) -> Self {
        match e {
            Event::Admit => self.admitted(),
            Event::InboundFailed(s) => self.inbound_failed(s),
            Event::InboundEnded => self.inbound_ended(),
            Event::Completed(seq, r) => self.completed(seq, r),
            Event::Take => self.taken(),
            Event::Emitted => self.emitted(),
            Event::ClientGone => self.client_gone(),
        }
    }

    /// Where a run of events leads.
    pub open spec fn after(self, events: Seq<Event<R>>) -> Self
        decreases events.len(),
    {
        if events.len() == 0 {
            self
        } else {
            self.after(events.drop_last()).step(events.last())
        }
    }

    /// Whether every event of a run can happen when it does.
    pub open spec fn runs(self, events: Seq<Event<R>>) -> bool
        decreases events.len(),
    {
        events.len() > 0 ==> self.runs(events.drop_last()) && self.after(
            events.drop_last(),
        ).enabled(events.last())
    }

    /// The answers that a run hands to the client, in order.
    pub open spec fn answers(self, events: Seq<Event<R>>) -> Seq<Result<R, Status>>
        decreases events.len(),
    {
        if events.len() == 0 {
            Seq::empty()
        } else {
            let before = self.answers(events.drop_last());
            if events.last() is Take {
                match self.after(events.drop_last()).head() {
                    Some(r) => before.push(r),
                    None => before,
                }
            } else {
                before
            }
        }
    }

    /// Whether a run's results are those of `truth`, which gives the result of
    /// each batch; a failure of the inbound side stands for the batch that
    /// would have come next.
    pub open spec fn follows(
        self,
        events: Seq<Event<R>>,
        truth: spec_fn(int) -> Result<R, Status>,
    ) -> bool
        decreases events.len(),
    {
        events.len() > 0 ==> {
            &&& self.follows(events.drop_last(), truth)
            &&& match events.last() {
                Event::Completed(seq, r) => r == truth(seq as int),
                Event::InboundFailed(s) => truth(self.after(events.drop_last()).next_seq) == Err::<
                    R,
                    Status,
                >(s),
                _ => true,
            }
        }
    }
}

/// Whatever happens, a pipeline stays well formed; in particular it never holds
/// more unanswered batches than its limit.
pub proof fn law_step_keeps_wf<R>(s: PipelineView<R>, e: Event<R>)
    requires
        s.wf(),
        s.enabled(e),
    ensures
        s.step(e).wf(),
        s.step(e).next_seq - s.step(e).next_emit <= s.limit,
{
    let t = s.step(e);
    match e {
        Event::Completed(seq, r) => {
            if !s.abandoned(seq) {
                assert forall|k: u64| #[trigger] t.buffered.contains_key(k) implies t.next_emit <= k
                    <= t.next_seq && (k == t.next_seq ==> !t.reading && t.buffered[k] is Err) by {
                    assert(k == seq || s.buffered.contains_key(k));
                }
                assert forall|k: u64| #[trigger]
                    t.buffered.contains_key(k) && (t.frontier matches Some(f) ==> k
                        < f) implies t.buffered[k] is Ok by {
                    assert(k == seq || s.buffered.contains_key(k));
                }
            }
        },
        Event::InboundFailed(st) => {
            let n = s.next_seq as u64;
            assert forall|k: u64| #[trigger]
                t.buffered.contains_key(k) && s.open && (t.frontier matches Some(f) ==> k
                    < f) implies t.buffered[k] is Ok by {
                assert(k == n || s.buffered.contains_key(k));
            }
        },
        Event::Take => {},
        Event::Emitted => {},
        _ => {},
    }
}

/// The frontier only ever falls, and a failing batch is never above it: the
/// frontier is the lowest failure so far.
pub proof fn law_frontier_only_falls<R>(s: PipelineView<R>, e: Event<R>)
    requires
        s.wf(),
        s.enabled(e),
    ensures
        s.frontier matches Some(f) ==> (s.step(e).frontier matches Some(g) && g <= f),
        e matches Event::Completed(seq, r) ==> (r is Err && s.open ==> (
        s.step(e).frontier matches Some(g) && g <= seq)),
{
}

/// A batch at or below the frontier is never abandoned while the client is
/// there.
pub proof fn law_owed_batches_are_kept<R>(s: PipelineView<R>, seq: u64)
    requires
        s.wf(),
        s.open,
        s.frontier matches Some(f) ==> seq <= f,
    ensures
        !s.abandoned(seq),
        forall|r: Result<R, Status>|
            s.in_flight(seq) ==> #[trigger] s.completed(seq, r).buffered == s.buffered.insert(
                seq,
                r,
            ),
{
}

/// What a run has answered so far, and what it still holds, are the results of
/// `truth`, in order.
proof fn lemma_run<R>(
    limit: int,
    events: Seq<Event<R>>,
    truth: spec_fn(int) -> Result<R, Status>,
)
    requires
        1 <= limit,
        PipelineView::<R>::start(limit).runs(events),
        PipelineView::<R>::start(limit).follows(events, truth),
    ensures
        ({
            let s0 = PipelineView::<R>::start(limit);
            let t = s0.after(events);
            let a = s0.answers(events);
            &&& t.wf()
            &&& t.limit == limit
            &&& forall|k: u64| #[trigger]
                t.buffered.contains_key(k) ==> t.buffered[k] == truth(k as int)
            &&& forall|i: int| 0 <= i < a.len() ==> #[trigger] a[i] == truth(i)
            &&& forall|i: int| 0 <= i < a.len() - 1 ==> #[trigger] a[i] is Ok
            &&& a.len() > 0 && a.last() is Err ==> !t.open && !t.sending && a.len() == t.next_emit
                + 1 && t.frontier == Some(t.next_emit as u64)
            &&& !(a.len() > 0 && a.last() is Err) ==> a.len() == t.next_emit + (if t.sending {
                1int
            } else {
                0int
            })
        }),
    decreases events.len(),
{
    let s0 = PipelineView::<R>::start(limit);
    if events.len() > 0 {
        let init = events.drop_last();
        lemma_run(limit, init, truth);
        let s = s0.after(init);
        let e = events.last();
        law_step_keeps_wf(s, e);
        let t = s.step(e);
        assert forall|k: u64| #[trigger] t.buffered.contains_key(k) implies t.buffered[k] == truth(
            k as int,
        ) by {
            match e {
                Event::Completed(seq, r) => {
                    assert(k == seq || s.buffered.contains_key(k));
                },
                Event::InboundFailed(st) => {
                    assert(k == s.next_seq as u64 || s.buffered.contains_key(k));
                },
                _ => {
                    assert(s.buffered.contains_key(k));
                },
            }
        }
        if e is Take && s.head() is Some {
            assert(s.buffered.contains_key(s.next_emit as u64));
            let a0 = s0.answers(init);
            let a = s0.answers(events);
            assert(a == a0.push(s.head()->0));
            assert forall|i: int| 0 <= i < a.len() - 1 implies #[trigger] a[i] is Ok by {
                assert(a[i] == a0[i]);
            }
        }
    }
}

/// Answers leave in order, one for each batch: the client gets exactly the
/// results of batches 0, 1, 2 and so on, every one but the last a success. So
/// the failure that ends a stream is that of the lowest failing batch, every
/// batch before it was delivered and none after it.
pub proof fn law_answers_are_in_order_and_end_at_the_lowest_failure<R>(
    limit: int,
    events: Seq<Event<R>>,
    truth: spec_fn(int) -> Result<R, Status>,
)
    requires
        1 <= limit,
        PipelineView::<R>::start(limit).runs(events),
        PipelineView::<R>::start(limit).follows(events, truth),
    ensures
        ({
            let a = PipelineView::<R>::start(limit).answers(events);
            &&& a =~= Seq::new(a.len(), truth)
            &&& forall|i: int| 0 <= i < a.len() - 1 ==> #[trigger] truth(i) is Ok
        }),
        ({
            let t = PipelineView::<R>::start(limit).after(events);
            t.next_seq - t.next_emit <= limit
        }),
{
    lemma_run(limit, events, truth);
    let a = PipelineView::<R>::start(limit).answers(events);
    assert forall|i: int| 0 <= i < a.len() - 1 implies #[trigger] truth(i) is Ok by {
        assert(a[i] == truth(i));
    }
}

/// A stream that finishes while its client is there has answered every batch
/// that was admitted; one that ends in a failure has answered every batch below
/// the failing one.
pub proof fn law_finished_stream_owes_nothing<R>(
    limit: int,
    events: Seq<Event<R>>,
    truth: spec_fn(int) -> Result<R, Status>,
)
    requires
        1 <= limit,
        PipelineView::<R>::start(limit).runs(events),
        PipelineView::<R>::start(limit).follows(events, truth),
    ensures
        ({
            let t = PipelineView::<R>::start(limit).after(events);
            let a = PipelineView::<R>::start(limit).answers(events);
            &&& t.open && t.finished() ==> a.len() == t.next_seq
            &&& a.len() > 0 && a.last() is Err ==> t.frontier == Some((a.len() - 1) as u64)
        }),
{
    lemma_run(limit, events, truth);
}

/// Whether a run of a stream is over: all of `n` requests were read, or some
/// batch failed, and neither the client nor the inbound side went away.
pub open spec fn ran_to_the_end<R>(limit: int, events: Seq<Event<R>>, n: int) -> bool {
    let end = PipelineView::<R>::start(limit).after(events);
    &&& 1 <= limit
    &&& PipelineView::<R>::start(limit).runs(events)
    &&& forall|i: int|
        0 <= i < events.len() ==> !(#[trigger] events[i] is ClientGone) && !(
        events[i] is InboundFailed)
    &&& end.finished()
    &&& end.next_seq <= n
    &&& end.open ==> end.next_seq == n
}

/// While neither the client nor the inbound side goes away, a stream is closed
/// only by the failure of one of its batches.
pub proof fn law_closed_streams_end_in_a_failure<R>(
    limit: int,
    events: Seq<Event<R>>,
    truth: spec_fn(int) -> Result<R, Status>,
)
    requires
        1 <= limit,
        PipelineView::<R>::start(limit).runs(events),
        PipelineView::<R>::start(limit).follows(events, truth),
        forall|i: int|
            0 <= i < events.len() ==> !(#[trigger] events[i] is ClientGone) && !(
            events[i] is InboundFailed),
    ensures
        ({
            let t = PipelineView::<R>::start(limit).after(events);
            let a = PipelineView::<R>::start(limit).answers(events);
            &&& forall|k: u64| #[trigger] t.buffered.contains_key(k) ==> k < t.next_seq
            &&& !t.open ==> 0 < a.len() <= t.next_seq && a.last() is Err
            &&& t.open && a.len() > 0 ==> a.last() is Ok
        }),
    decreases events.len(),
{
    let s0 = PipelineView::<R>::start(limit);
    if events.len() > 0 {
        let init = events.drop_last();
        assert forall|i: int| 0 <= i < init.len() implies !(#[trigger] init[i] is ClientGone) && !(
        init[i] is InboundFailed) by {
            assert(init[i] == events[i]);
        }
        law_closed_streams_end_in_a_failure(limit, init, truth);
        let s = s0.after(init);
        let e = events.last();
        assert(e == events[events.len() - 1]);
        lemma_run(limit, init, truth);
        lemma_run(limit, events, truth);
        let t = s.step(e);
        assert forall|k: u64| #[trigger] t.buffered.contains_key(k) implies k < t.next_seq by {
            match e {
                Event::Completed(seq, r) => {
                    assert(k == seq || s.buffered.contains_key(k));
                },
                _ => {
                    assert(s.buffered.contains_key(k));
                },
            }
        }
        if e is Take && s.head() is Some {
            assert(s.buffered.contains_key(s.next_emit as u64));
            assert(s0.answers(events) == s0.answers(init).push(s.head()->0));
        }
    }
}

/// A pipeline that still holds its client always has something to wait for: if
/// it is not finished and no answer is ready or being sent, then either the
/// inbound side is still read or some batch that is owed is in flight.
pub proof fn law_an_unfinished_stream_can_go_on<R>(s: PipelineView<R>)
    requires
        s.wf(),
        s.open,
        !s.finished(),
        !s.sending,
        s.head() is None,
    ensures
        s.reading || (s.next_emit < s.next_seq && s.in_flight(s.next_emit as u64) && !s.abandoned(
            s.next_emit as u64,
        )),
{
}

/// Another batch is admitted exactly while requests are read, nothing has failed,
/// the client is there, and fewer batches are unanswered than may be.
pub proof fn law_room_is_used<R>(s: PipelineView<R>)
    ensures
        s.may_admit() <==> s.open && s.reading && s.frontier is None && s.next_seq - s.next_emit
            < s.limit,
        s.may_admit() ==> s.admitted() == (PipelineView { next_seq: s.next_seq + 1, ..s }),
{
}

/// A new stream takes as many batches as it may hold before it needs an answer, has
/// nothing to say until one finishes, and is over at once when no batch comes.
pub proof fn law_new_streams_take_batches<R>(limit: int, n: int, seq: u64)
    requires
        1 <= limit,
        0 <= n <= limit,
        n <= u64::MAX,
    ensures
        ({
            let start = PipelineView::<R>::start(limit);
            let s = start.after(Seq::new(n as nat, |i: int| Event::Admit));
            &&& s == (PipelineView { next_seq: n, ..start })
            &&& s.may_admit() <==> n < limit
            &&& s.head() is None
            &&& s.open && !s.finished() && !s.abandoned(seq)
            &&& s.in_flight(seq) <==> seq < n
            &&& s.inbound_ended().finished() <==> n == 0
        }),
    decreases n,
{
    let events = Seq::new(n as nat, |i: int| Event::<R>::Admit);
    if n > 0 {
        law_new_streams_take_batches::<R>(limit, n - 1, seq);
        assert(events.drop_last() =~= Seq::new((n - 1) as nat, |i: int| Event::<R>::Admit));
    }
}

/// A stream never stalls: while its client is there and it is not finished, an
/// answer is being sent, or one is ready, or another batch may be admitted, or the
/// batch that is to be answered next is in flight and its result will count.
pub proof fn law_streams_never_stall<R>(s: PipelineView<R>)
    requires
        s.wf(),
        s.open,
        !s.finished(),
    ensures
        ({
            ||| s.sending
            ||| s.head() is Some
            ||| s.may_admit()
            ||| s.next_emit < s.next_seq && s.in_flight(s.next_emit as u64) && !s.abandoned(
                s.next_emit as u64,
            )
        }),
{
}

/// A batch that finishes is kept for its turn as long as the client is there and no
/// batch before it has failed, and changes nothing otherwise. Only a failure moves
/// the frontier, down to that batch, and then nothing more is admitted.
pub proof fn law_finished_batches_wait_for_their_turn<R>(
    s: PipelineView<R>,
    seq: u64,
    result: Result<R, Status>,
)
    requires
        s.wf(),
        s.in_flight(seq),
    ensures
        ({
            let t = s.completed(seq, result);
            let counts = s.open && (s.frontier is None || seq <= s.frontier->0);
            &&& s.abandoned(seq) == !counts
            &&& !counts ==> t == s
            &&& counts ==> t.buffered == s.buffered.insert(seq, result)
            &&& counts && result is Err ==> t.frontier == Some(seq) && !t.may_admit()
            &&& result is Ok ==> t.frontier == s.frontier
            &&& t.next_seq == s.next_seq && t.next_emit == s.next_emit && t.open == s.open
            &&& t.reading == s.reading && t.sending == s.sending && t.limit == s.limit
        }),
{
}

/// The answer that is taken is that of the batch whose turn it is, as soon as it has
/// finished and the one before was sent. A success is then being sent and its turn
/// is over once it was; a failure is the last answer.
pub proof fn law_answers_are_taken_in_turn<R>(s: PipelineView<R>)
    requires
        s.wf(),
    ensures
        s.head() is Some <==> s.open && !s.sending && s.buffered.contains_key(s.next_emit as u64),
        s.head() matches Some(r) ==> {
            let t = s.taken();
            &&& r == s.buffered[s.next_emit as u64]
            &&& t.buffered == s.buffered.remove(s.next_emit as u64)
            &&& r is Ok ==> t.sending && t.open && t.next_emit == s.next_emit
            &&& r is Err ==> !t.open && t.finished()
        },
        s.head() is None ==> s.taken() == s,
        s.sending ==> s.emitted().next_emit == s.next_emit + 1 && !s.emitted().sending
            && s.emitted().buffered == s.buffered,
{
}

/// When the client goes away, nothing more is answered, admitted or kept. When the
/// inbound side fails, that comes behind all the batches admitted, unless one of
/// them fails; when it ends, only reading does.
pub proof fn law_either_side_may_go_away<R>(s: PipelineView<R>, failure: Status, seq: u64)
    requires
        s.wf(),
        s.reading,
    ensures
        ({
            let gone = s.client_gone();
            &&& gone.finished() && gone.head() is None && !gone.may_admit() && gone.abandoned(seq)
        }),
        ({
            let failed = s.inbound_failed(failure);
            &&& !failed.reading && !failed.may_admit() && failed.open == s.open
            &&& failed.buffered == s.buffered.insert(s.next_seq as u64, Err(failure))
            &&& failed.frontier == (match s.frontier {
                Some(f) => if f < s.next_seq {
                    Some(f)
                } else {
                    Some(s.next_seq as u64)
                },
                None => Some(s.next_seq as u64),
            })
            &&& failed.next_seq == s.next_seq && failed.next_emit == s.next_emit
        }),
        s.inbound_ended() == (PipelineView { reading: false, ..s }),
{
}

/// A stream whose inbound side failed ends with an internal error that says why.
pub proof fn law_stream_errors_say_why(s: Status, error: Seq<char>)
    ensures
        is_stream_error(s, error) <==> s.code == Code::Internal && s.message@ == "Stream error: "@
            + error,
{
}

/// The bookkeeping of one stream of batches.
pub struct StreamPipeline<R> {
    /// How many batches may be admitted and unanswered.
    pub limit: usize,
    /// The number of the next batch to admit.
    pub next_seq: u64,
    /// The number of the next batch to answer.
    pub next_emit: u64,
    /// Whether the answer of batch `next_emit` is being sent.
    pub sending: bool,
    /// The lowest number that failed.
    pub frontier: Option<u64>,
    /// Results that wait for their turn.
    pub buffered: BTreeMap<u64, Result<R, Status>>,
    /// Whether requests are still read.
    pub reading: bool,
    /// Whether the client may still get an answer.
    pub open: bool,
}

impl<R> View for StreamPipeline<R> {
    type V = PipelineView<R>;

    open spec fn view(&self) -> PipelineView<R> {
        PipelineView {
            limit: self.limit as int,
            next_seq: self.next_seq as int,
            next_emit: self.next_emit as int,
            sending: self.sending,
            frontier: self.frontier,
            buffered: self.buffered@,
            reading: self.reading,
            open: self.open,
        }
    }
}

impl<R> StreamPipeline<R> {
    /// A pipeline for at most `max_concurrent` unanswered batches, and at least
    /// one.
    pub fn new(max_concurrent: usize) -> (p: Self)
        ensures
            p@ == PipelineView::<R>::start(
                if max_concurrent == 0 {
                    1
                } else {
                    max_concurrent as int
                },
            ),
            p@.wf(),
    {
        StreamPipeline {
            limit: if max_concurrent == 0 {
                1
            } else {
                max_concurrent
            },
            next_seq: 0,
            next_emit: 0,
            sending: false,
            frontier: None,
            buffered: BTreeMap::new(),
            reading: true,
            open: true,
        }
    }

    /// Whether another batch may be admitted now.
    pub fn may_admit(&self) -> (r: bool)
        requires
            self@.wf(),
        ensures
            r == self@.may_admit(),
    {
        self.open && self.reading && self.frontier.is_none() && self.next_seq - self.next_emit
            < self.limit as u64
    }

    /// Admit a batch: its number.
    pub fn accept_batch(&mut self) -> (seq: u64)
        requires
            old(self)@.wf(),
            old(self)@.may_admit(),
            old(self).next_seq < u64::MAX,
        ensures
            seq == old(self).next_seq,
            final(self)@ == old(self)@.admitted(),
            final(self)@.wf(),
    {
        proof {
            law_step_keeps_wf(self@, Event::Admit);
        }
        let seq: u64 = self.next_seq;
        self.next_seq = seq + 1;
        seq
    }

    /// The inbound side failed with `error`.
    pub fn inbound_failed(&mut self, error: &str)
        requires
            old(self)@.wf(),
            old(self).reading,
        ensures
            final(self)@.wf(),
            exists|s: Status|
                is_stream_error(s, error@) && final(self)@ == #[trigger] old(
                    self,
                )@.inbound_failed(s),
    {
        let s = stream_error(error);
        proof {
            law_step_keeps_wf(self@, Event::InboundFailed(s));
        }
        let ghost before = self@;
        lower_frontier(&mut self.frontier, self.next_seq);
        self.buffered.insert(self.next_seq, Err(s));
        self.reading = false;
        assert(self@ == before.inbound_failed(s));
    }

    /// The inbound side ended: what is in flight is finished and answered.
    pub fn inbound_ended(&mut self)
        requires
            old(self)@.wf(),
            old(self).reading,
        ensures
            final(self)@ == old(self)@.inbound_ended(),
            final(self)@.wf(),
    {
        proof {
            law_step_keeps_wf(self@, Event::InboundEnded);
        }
        self.reading = false;
    }

    /// Whether the result of batch `seq` can no longer reach the client, so
    /// that its work may be dropped.
    pub fn abandoned(&self, seq: u64) -> (r: bool)
        ensures
            r == self@.abandoned(seq),
    {
        let passed: bool = match self.frontier {
            Some(f) => f < seq,
            None => false,
        };
        !self.open || passed
    }

    /// Batch `seq` finished.
    pub fn on_batch_done(&mut self, seq: u64, result: Result<R, Status>)
        requires
            old(self)@.wf(),
            old(self)@.in_flight(seq),
        ensures
            final(self)@ == old(self)@.completed(seq, result),
            final(self)@.wf(),
    {
        proof {
            law_step_keeps_wf(self@, Event::Completed(seq, result));
        }
        let ghost before = self@;
        if !self.abandoned(seq) {
            if result.is_err() {
                lower_frontier(&mut self.frontier, seq);
            }
            self.buffered.insert(seq, result);
        }
        assert(self@ == before.completed(seq, result));
    }

    /// Take the answer that is next for the client, if its batch has finished.
    /// A success is to be sent and then reported with
    /// [`StreamPipeline::emitted`]; a failure is the last answer.
    pub fn take_head(&mut self) -> (head: Option<Result<R, Status>>)
        requires
            old(self)@.wf(),
        ensures
            head == old(self)@.head(),
            final(self)@ == old(self)@.taken(),
            final(self)@.wf(),
    {
        proof {
            law_step_keeps_wf(self@, Event::Take);
        }
        let ghost before = self@;
        if !self.open || self.sending {
            return None;
        }
        let head = self.buffered.remove(&self.next_emit);
        match &head {
            Some(Ok(_)) => {
                self.sending = true;
            },
            Some(Err(_)) => {
                self.open = false;
            },
            None => {},
        }
        assert(self@ =~= before.taken());
        head
    }

    /// The answer taken last was sent: its batch makes room for another.
    pub fn emitted(&mut self)
        requires
            old(self)@.wf(),
            old(self).sending,
        ensures
            final(self)@ == old(self)@.emitted(),
            final(self)@.wf(),
    {
        proof {
            law_step_keeps_wf(self@, Event::Emitted);
        }
        self.sending = false;
        self.next_emit = self.next_emit + 1;
    }

    /// The client went away: everything is dropped.
    pub fn client_gone(&mut self)
        requires
            old(self)@.wf(),
        ensures
            final(self)@ == old(self)@.client_gone(),
            final(self)@.wf(),
    {
        self.open = false;
    }

    /// Whether nothing is left to do.
    pub fn finished(&self) -> (r: bool)
        ensures
            r == self@.finished(),
    {
        !self.open || (!self.reading && self.frontier.is_none() && !self.sending && self.next_emit
            == self.next_seq)
    }
}

} // verus!
