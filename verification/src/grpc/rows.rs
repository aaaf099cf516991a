//! Embedding a batch of rows through a backend stream, tolerating rows that
//! the backend rejects.
//!
//! A backend stream ends at its first error, and the error may overtake the
//! answers buffered ahead of it, so the number of answers received does not
//! say which row was bad. After a stream fails with `InvalidArgument` the
//! unanswered rows are therefore sent one at a time, since a stream of one row
//! can only fail because of that row, until the bad row is found and recorded;
//! the rows after it are then sent together again. Any other status is a fault
//! of the backend and fails the whole batch.

use vstd::prelude::*;

use super::status::{failure_view, status, Code, Status, StatusView};
use crate::text::{decimal, decimal_string};

verus! {

/// Number of values in a row that is made up without asking a backend.
pub const NOOP_EMBEDDING_DIM: usize = 384;

/// The bits of the single-precision number nought.
pub const ZERO_BITS: u32 = 0;

/// The bits of the single-precision number one.
pub const WHOLE_BITS: u32 = 0x3f80_0000;

/// The bits of the single-precision number one half.
pub const HALF_BITS: u32 = 0x3f00_0000;

/// The bits of the single-precision number one quarter.
pub const QUARTER_BITS: u32 = 0x3e80_0000;

/// The results of a batch, one for each input row and in the same order. A row
/// that failed holds the reason.
#[derive(Debug, Clone, PartialEq)]
pub struct RowOutcomes<T> {
    pub rows: Vec<Result<T, String>>,
}

/// One row's result with its error as text.
pub open spec fn row_view<T>(r: Result<T, String>) -> Result<T, Seq<char>> {
    match r {
        Ok(v) => Ok(v),
        Err(e) => Err(e@),
    }
}

impl<T> View for RowOutcomes<T> {
    type V = Seq<Result<T, Seq<char>>>;

    open spec fn view(&self) -> Seq<Result<T, Seq<char>>> {
        Seq::new(self.rows@.len(), |i: int| row_view(self.rows@[i]))
    }
}

/// Picks the rows that succeeded.
pub open spec fn succeeded<T>() -> spec_fn(Result<T, Seq<char>>) -> bool {
    |r: Result<T, Seq<char>>| r is Ok
}

impl<T> RowOutcomes<T> {
    /// `n` rows that all succeeded, row `i` holding what `make` gives for `i`.
    pub fn noop(n: usize, make: impl Fn(usize) -> T) -> (out: Self)
        requires
            forall|i: usize| i < n ==> call_requires(make, (i,)),
        ensures
            out.rows@.len() == n,
            forall|i: usize|
                i < n ==> (#[trigger] out.rows@[i as int] matches Ok(v) && call_ensures(make, (i,), v)),
    {
        let mut rows: Vec<Result<T, String>> = Vec::new();
        let mut i: usize = 0;
        while i < n
            invariant
                i <= n,
                rows@.len() == i,
                forall|k: usize| k < n ==> call_requires(make, (k,)),
                forall|k: usize|
                    k < i ==> (#[trigger] rows@[k as int] matches Ok(v) && call_ensures(
                        make,
                        (k,),
                        v,
                    )),
            decreases n - i,
        {
            rows.push(Ok(make(i)));
            i = i + 1;
        }
        RowOutcomes { rows }
    }

    /// The same rows with `f` applied to those that succeeded.
    pub fn map<U>(self, f: impl Fn(T) -> U) -> (out: RowOutcomes<U>)
        requires
            forall|v: T| #[trigger] call_requires(f, (v,)),
        ensures
            out.rows@.len() == self.rows@.len(),
            forall|i: int|
                0 <= i < self.rows@.len() ==> match #[trigger] self.rows@[i] {
                    Ok(v) => out.rows@[i] matches Ok(u) && call_ensures(f, (v,), u),
                    Err(e) => out.rows@[i] == Err::<U, String>(e),
                },
    {
        let ghost before = self.rows@;
        let mut rows: Vec<Result<U, String>> = Vec::new();
        for r in it: self.rows
            invariant
                it.seq() == before,
                rows@.len() == it.index(),
                forall|v: T| #[trigger] call_requires(f, (v,)),
                forall|i: int|
                    0 <= i < it.index() ==> match #[trigger] before[i] {
                        Ok(v) => rows@[i] matches Ok(u) && call_ensures(f, (v,), u),
                        Err(e) => rows@[i] == Err::<U, String>(e),
                    },
        {
            match r {
                Ok(v) => rows.push(Ok(f(v))),
                Err(e) => rows.push(Err(e)),
            }
        }
        RowOutcomes { rows }
    }

    /// How many rows succeeded.
    pub fn ok_count(&self) -> (n: usize)
        ensures
            n == self@.filter(succeeded()).len(),
            n <= self.rows@.len(),
    {
        let mut n: usize = 0;
        let mut i: usize = 0;
        while i < self.rows.len()
            invariant
                i <= self.rows@.len(),
                n <= i,
                n == self@.take(i as int).filter(succeeded()).len(),
            decreases self.rows@.len() - i,
        {
            proof {
                reveal(Seq::filter);
                assert(self@.take(i + 1).drop_last() =~= self@.take(i as int));
            }
            if self.rows[i].is_ok() {
                n = n + 1;
            }
            i = i + 1;
        }
        assert(self@.take(i as int) =~= self@);
        n
    }
}

/// `n` dense rows of `zero`, for measuring everything but the backend.
pub fn noop_dense_rows<T: Copy>(n: usize, zero: T) -> (out: RowOutcomes<Vec<T>>)
    ensures
        out.rows@.len() == n,
        forall|i: int|
            0 <= i < n ==> (#[trigger] out.rows@[i] matches Ok(v) && v@ == Seq::new(
                NOOP_EMBEDDING_DIM as nat,
                |j: int| zero,
            )),
{
    let mut rows: Vec<Result<Vec<T>, String>> = Vec::new();
    let mut i: usize = 0;
    while i < n
        invariant
            i <= n,
            rows@.len() == i,
            forall|k: int|
                0 <= k < i ==> (#[trigger] rows@[k] matches Ok(v) && v@ == Seq::new(
                    NOOP_EMBEDDING_DIM as nat,
                    |j: int| zero,
                )),
        decreases n - i,
    {
        let mut row: Vec<T> = Vec::new();
        let mut j: usize = 0;
        while j < NOOP_EMBEDDING_DIM
            invariant
                j <= NOOP_EMBEDDING_DIM,
                row@ == Seq::new(j as nat, |j: int| zero),
            decreases NOOP_EMBEDDING_DIM - j,
        {
            row.push(zero);
            j = j + 1;
            assert(row@ =~= Seq::new(j as nat, |j: int| zero));
        }
        rows.push(Ok(row));
        i = i + 1;
    }
    RowOutcomes { rows }
}

/// The sparse row made up for row `i`: three weights, at `i` and one and two
/// hundred above it.
pub open spec fn noop_sparse_row<T>(i: int, whole: T, half: T, quarter: T) -> Seq<(u32, T)> {
    seq![(i as u32, whole), ((i + 100) as u32, half), ((i + 200) as u32, quarter)]
}

/// `n` sparse rows, for measuring everything but the backend.
pub fn noop_sparse_rows<T: Copy>(n: usize, whole: T, half: T, quarter: T) -> (out: RowOutcomes<
    Vec<(u32, T)>,
>)
    requires
        n + 199 <= u32::MAX,
    ensures
        out.rows@.len() == n,
        forall|i: int|
            0 <= i < n ==> (#[trigger] out.rows@[i] matches Ok(v) && v@ == noop_sparse_row(
                i,
                whole,
                half,
                quarter,
            )),
{
    let mut rows: Vec<Result<Vec<(u32, T)>, String>> = Vec::new();
    let mut i: usize = 0;
    while i < n
        invariant
            i <= n,
            n + 199 <= u32::MAX,
            rows@.len() == i,
            forall|k: int|
                0 <= k < i ==> (#[trigger] rows@[k] matches Ok(v) && v@ == noop_sparse_row(
                    k,
                    whole,
                    half,
                    quarter,
                )),
        decreases n - i,
    {
        let at: u32 = i as u32;
        let mut row: Vec<(u32, T)> = Vec::new();
        row.push((at, whole));
        row.push((at + 100, half));
        row.push((at + 200, quarter));
        assert(row@ =~= noop_sparse_row(i as int, whole, half, quarter));
        rows.push(Ok(row));
        i = i + 1;
    }
    RowOutcomes { rows }
}

/// The reason recorded for a null input row.
pub open spec fn null_input_error() -> Seq<char> {
    "input text is null"@
}

/// A row's text, `None` for a null.
pub open spec fn text_view(row: Option<String>) -> Option<Seq<char>> {
    match row {
        Some(s) => Some(s@),
        None => None,
    }
}

/// The texts of all rows.
pub open spec fn texts_view(rows: Seq<Option<String>>) -> Seq<Option<Seq<char>>> {
    Seq::new(rows.len(), |i: int| text_view(rows[i]))
}

/// The positions of the rows that hold a text, in order.
pub open spec fn pending_of(rows: Seq<Option<Seq<char>>>) -> Seq<int>
    decreases rows.len(),
{
    if rows.len() == 0 {
        Seq::empty()
    } else {
        let before = pending_of(rows.drop_last());
        if rows.last() is Some {
            before.push(rows.len() - 1)
        } else {
            before
        }
    }
}

/// A job's progress as a mathematical value.
#[verifier::ext_equal]
pub struct RowsView<Res> {
    /// The input rows.
    pub rows: Seq<Option<Seq<char>>>,
    /// What is known of each row.
    pub out: Seq<Option<Result<Res, Seq<char>>>>,
    /// How many of the rows with a text are done with.
    pub cursor: int,
    /// Answers received on the open stream.
    pub received: int,
    /// Whether rows are sent one at a time.
    pub probing: bool,
    /// Whether a stream is open.
    pub streaming: bool,
}

impl<Res> RowsView<Res> {
    /// Positions of the rows that go to the backend.
    pub open spec fn pending(self) -> Seq<int> {
        pending_of(self.rows)
    }

    /// Positions of the rows that the next stream, or the open one, carries.
    pub open spec fn chunk(self) -> Seq<int> {
        if self.probing {
            self.pending().subrange(self.cursor, self.cursor + 1)
        } else {
            self.pending().subrange(self.cursor, self.pending().len() as int)
        }
    }

    /// Every row with a text is done with and no stream is open.
    pub open spec fn finished(self) -> bool {
        !self.streaming && self.cursor == self.pending().len()
    }

    pub open spec fn wf(self) -> bool {
        &&& self.out.len() == self.rows.len()
        &&& 0 <= self.cursor <= self.pending().len()
        &&& 0 <= self.received
        &&& self.streaming ==> self.cursor < self.pending().len() && self.received
            <= self.chunk().len()
        &&& !self.streaming ==> self.received == 0
        &&& forall|i: int|
            0 <= i < self.rows.len() && #[trigger] self.rows[i] is None ==> self.out[i] == Some(
                Err::<Res, Seq<char>>(null_input_error()),
            )
        &&& forall|k: int|
            0 <= k < self.cursor + self.received ==> self.out[#[trigger] self.pending()[k]] is Some
    }

    /// The start of a job: nulls have failed, everything else is unknown.
    pub open spec fn begun(rows: Seq<Option<Seq<char>>>) -> Self {
        RowsView {
            rows,
            out: Seq::new(
                rows.len(),
                |i: int|
                    if rows[i] is None {
                        Some(Err(null_input_error()))
                    } else {
                        None
                    },
            ),
            cursor: 0,
            received: 0,
            probing: false,
            streaming: false,
        }
    }

    /// A stream was opened.
    pub open spec fn opened(self) -> Self {
        RowsView { received: 0, streaming: true, ..self }
    }

    /// The open stream answered its next row.
    pub open spec fn answered(self, res: Res) -> Self {
        RowsView {
            out: self.out.update(self.chunk()[self.received], Some(Ok(res))),
            received: self.received + 1,
            ..self
        }
    }

    /// The open stream ended, with a status if it failed. An error is the
    /// status that the whole batch fails with.
    pub open spec fn ended(self, failure: Option<StatusView>) -> Result<Self, StatusView> {
        match failure {
            None => {
                if self.received == self.chunk().len() {
                    Ok(
                        RowsView {
                            cursor: self.cursor + self.received,
                            received: 0,
                            streaming: false,
                            ..self
                        },
                    )
                } else {
                    Err(
                        status(
                            Code::Internal,
                            "backend stream ended early: expected "@ + decimal(self.chunk().len())
                                + " responses, got "@ + decimal(self.received as nat),
                        ),
                    )
                }
            },
            Some(s) => {
                if s.code == Code::InvalidArgument {
                    if self.probing {
                        Ok(
                            RowsView {
                                out: self.out.update(
                                    self.pending()[self.cursor],
                                    Some(Err(s.message)),
                                ),
                                cursor: self.cursor + 1,
                                received: 0,
                                probing: false,
                                streaming: false,
                                ..self
                            },
                        )
                    } else {
                        Ok(
                            RowsView {
                                cursor: self.cursor + self.received,
                                received: 0,
                                probing: true,
                                streaming: false,
                                ..self
                            },
                        )
                    }
                } else {
                    Err(
                        status(
                            s.code,
                            "backend stream failed after "@ + decimal(
                                (self.cursor + self.received) as nat,
                            ) + " of "@ + decimal(self.pending().len()) + " rows: "@ + s.message,
                        ),
                    )
                }
            },
        }
    }

    /// The open stream gave all of `responses`.
    pub open spec fn answered_all(self, responses: Seq<Res>) -> Self
        decreases responses.len(),
    {
        if responses.len() == 0 {
            self
        } else {
            self.answered_all(responses.drop_last()).answered(responses.last())
        }
    }

    /// One whole stream: opened, `responses` received, then the end.
    pub open spec fn streamed(
        self,
        responses: Seq<Res>,
        failure: Option<StatusView>,
    ) -> Result<Self, StatusView> {
        self.opened().answered_all(responses).ended(failure)
    }

    /// What is known agrees with `truth`, the right result of every row.
    pub open spec fn agrees(self, truth: Seq<Result<Res, Seq<char>>>) -> bool {
        &&& truth.len() == self.rows.len()
        &&& forall|i: int|
            0 <= i < self.rows.len() ==> (#[trigger] self.out[i] is Some ==> self.out[i] == Some(
                truth[i],
            ))
    }

    /// A backend that answers row `i` with `truth[i]` when it is sent `chunk`:
    /// answers come in order and are right, a stream without failure answers
    /// every row, and `InvalidArgument` means that a row was bad and went
    /// unanswered; alone in its stream, the message is that row's own.
    pub open spec fn backend_follows(
        truth: Seq<Result<Res, Seq<char>>>,
        chunk: Seq<int>,
        responses: Seq<Res>,
        failure: Option<StatusView>,
    ) -> bool {
        &&& responses.len() <= chunk.len()
        &&& forall|j: int|
            0 <= j < responses.len() ==> truth[#[trigger] chunk[j]] == Ok::<Res, Seq<char>>(
                responses[j],
            )
        &&& match failure {
            None => responses.len() == chunk.len(),
            Some(s) => {
                &&& s.code == Code::InvalidArgument
                &&& responses.len() < chunk.len()
                &&& chunk.len() == 1 ==> truth[chunk[0]] == Err::<Res, Seq<char>>(s.message)
            },
        }
    }

    /// How much is left to do: goes down with every stream.
    pub open spec fn work_left(self) -> int {
        2 * (self.pending().len() - self.cursor) - (if self.probing && self.cursor
            < self.pending().len() {
            1int
        } else {
            0int
        })
    }
}

/// Positions in `pending_of` are in range, hold a text, and increase.
pub proof fn lemma_pending(rows: Seq<Option<Seq<char>>>)
    ensures
        forall|k: int|
            0 <= k < pending_of(rows).len() ==> 0 <= #[trigger] pending_of(rows)[k] < rows.len()
                && rows[pending_of(rows)[k]] is Some,
        forall|j: int, k: int|
            0 <= j < k < pending_of(rows).len() ==> #[trigger] pending_of(rows)[j]
                < #[trigger] pending_of(rows)[k],
        forall|i: int|
            0 <= i < rows.len() && #[trigger] rows[i] is Some ==> pending_of(rows).contains(i),
        pending_of(rows).len() <= rows.len(),
    decreases rows.len(),
{
    if rows.len() > 0 {
        let init = rows.drop_last();
        let before = pending_of(init);
        lemma_pending(init);
        assert forall|i: int| 0 <= i < rows.len() && #[trigger] rows[i] is Some implies pending_of(
            rows,
        ).contains(i) by {
            if i < rows.len() - 1 {
                assert(init[i] is Some);
                let k = choose|k: int| 0 <= k < before.len() && before[k] == i;
                assert(pending_of(rows)[k] == i);
            } else {
                assert(pending_of(rows)[before.len() as int] == i);
            }
        }
        assert forall|k: int| 0 <= k < pending_of(rows).len() implies 0 <= #[trigger] pending_of(
            rows,
        )[k] < rows.len() && rows[pending_of(rows)[k]] is Some by {
            if k < before.len() {
                assert(init[before[k]] is Some);
            }
        }
    }
}

/// A job that has just begun is well formed.
pub proof fn lemma_begun<Res>(rows: Seq<Option<Seq<char>>>)
    ensures
        RowsView::<Res>::begun(rows).wf(),
{
}

/// An answer keeps a job well formed.
proof fn lemma_answered<Res>(s: RowsView<Res>, res: Res)
    requires
        s.wf(),
        s.streaming,
        s.received < s.chunk().len(),
    ensures
        s.answered(res).wf(),
        s.answered(res).chunk() == s.chunk(),
        s.chunk()[s.received] == s.pending()[s.cursor + s.received],
{
    lemma_pending(s.rows);
}

/// The end of a stream keeps a job well formed.
proof fn lemma_ended<Res>(s: RowsView<Res>, failure: Option<StatusView>)
    requires
        s.wf(),
        s.streaming,
    ensures
        s.ended(failure) matches Ok(t) ==> t.wf(),
{
    lemma_pending(s.rows);
    if let Ok(t) = s.ended(failure) {
        assert forall|k: int| 0 <= k < t.cursor implies t.out[#[trigger] t.pending()[k]] is Some by {
            if k < s.cursor + s.received {
                assert(s.out[s.pending()[k]] is Some);
            }
        }
    }
}

/// Answers in order, each put in its own row.
proof fn lemma_answered_all<Res>(
    s: RowsView<Res>,
    responses: Seq<Res>,
    truth: Seq<Result<Res, Seq<char>>>,
)
    requires
        s.wf(),
        s.streaming,
        s.received == 0,
        s.agrees(truth),
        responses.len() <= s.chunk().len(),
        forall|j: int|
            0 <= j < responses.len() ==> truth[#[trigger] s.chunk()[j]] == Ok::<Res, Seq<char>>(
                responses[j],
            ),
    ensures
        ({
            let t = s.answered_all(responses);
            &&& t.wf()
            &&& t.agrees(truth)
            &&& t.streaming
            &&& t.received == responses.len()
            &&& t.rows == s.rows
            &&& t.cursor == s.cursor
            &&& t.probing == s.probing
            &&& t.chunk() == s.chunk()
        }),
    decreases responses.len(),
{
    if responses.len() > 0 {
        lemma_answered_all(s, responses.drop_last(), truth);
        let t = s.answered_all(responses.drop_last());
        lemma_answered(t, responses.last());
        lemma_pending(s.rows);
        assert(truth[s.chunk()[responses.len() - 1]] == Ok::<Res, Seq<char>>(responses.last()));
    }
}

/// Against a backend that answers rows rightly, one stream leaves a job that
/// is well formed and right about every row it knows, fails nothing, and
/// leaves less to do than before.
pub proof fn law_stream_keeps_the_truth<Res>(
    s: RowsView<Res>,
    responses: Seq<Res>,
    failure: Option<StatusView>,
    truth: Seq<Result<Res, Seq<char>>>,
)
    requires
        s.wf(),
        !s.streaming,
        !s.finished(),
        s.agrees(truth),
        RowsView::backend_follows(truth, s.chunk(), responses, failure),
    ensures
        s.streamed(responses, failure) matches Ok(t) && {
            &&& t.wf()
            &&& t.agrees(truth)
            &&& t.rows == s.rows
            &&& !t.streaming
            &&& 0 <= t.work_left() < s.work_left()
        },
{
    let o = s.opened();
    assert(o.chunk() == s.chunk());
    assert(o.wf());
    lemma_answered_all(o, responses, truth);
    let a = o.answered_all(responses);
    lemma_ended(a, failure);
    lemma_pending(s.rows);
    if failure is Some && s.probing {
        assert(s.chunk()[0] == s.pending()[s.cursor]);
    }
}

/// Whether `streams` is a run of whole streams against a backend that answers
/// rows rightly.
pub open spec fn right_run<Res>(
    s: RowsView<Res>,
    streams: Seq<(Seq<Res>, Option<StatusView>)>,
    truth: Seq<Result<Res, Seq<char>>>,
) -> bool
    decreases streams.len(),
{
    streams.len() > 0 ==> {
        &&& !s.finished()
        &&& RowsView::backend_follows(truth, s.chunk(), streams[0].0, streams[0].1)
        &&& right_run(
            s.streamed(streams[0].0, streams[0].1)->Ok_0,
            streams.drop_first(),
            truth,
        )
    }
}

/// Where a run of whole streams leads.
pub open spec fn after_run<Res>(
    s: RowsView<Res>,
    streams: Seq<(Seq<Res>, Option<StatusView>)>,
) -> RowsView<Res>
    decreases streams.len(),
{
    if streams.len() == 0 {
        s
    } else {
        after_run(s.streamed(streams[0].0, streams[0].1)->Ok_0, streams.drop_first())
    }
}

/// A run of streams keeps the truth and is bounded by the work left.
proof fn lemma_run<Res>(
    s: RowsView<Res>,
    streams: Seq<(Seq<Res>, Option<StatusView>)>,
    truth: Seq<Result<Res, Seq<char>>>,
)
    requires
        s.wf(),
        !s.streaming,
        s.agrees(truth),
        right_run(s, streams, truth),
    ensures
        after_run(s, streams).wf(),
        after_run(s, streams).agrees(truth),
        after_run(s, streams).rows == s.rows,
        !after_run(s, streams).streaming,
        streams.len() <= s.work_left(),
    decreases streams.len(),
{
    lemma_pending(s.rows);
    if streams.len() > 0 {
        law_stream_keeps_the_truth(s, streams[0].0, streams[0].1, truth);
        let t = s.streamed(streams[0].0, streams[0].1)->Ok_0;
        lemma_run(t, streams.drop_first(), truth);
    }
}

/// A whole job against a backend that answers rows rightly: when every row is
/// done with, row `i` holds exactly the right result of input row `i`, a null
/// holds the null error, and at most two streams were opened per row with a
/// text.
pub proof fn law_job_yields_every_rows_result<Res>(
    rows: Seq<Option<Seq<char>>>,
    streams: Seq<(Seq<Res>, Option<StatusView>)>,
    truth: Seq<Result<Res, Seq<char>>>,
)
    requires
        truth.len() == rows.len(),
        forall|i: int|
            0 <= i < rows.len() && #[trigger] rows[i] is None ==> truth[i] == Err::<Res, Seq<char>>(
                null_input_error(),
            ),
        right_run(RowsView::begun(rows), streams, truth),
        after_run(RowsView::begun(rows), streams).finished(),
    ensures
        forall|i: int|
            0 <= i < rows.len() ==> #[trigger] after_run(RowsView::begun(rows), streams).out[i]
                == Some(truth[i]),
        streams.len() <= 2 * pending_of(rows).len(),
{
    let s = RowsView::<Res>::begun(rows);
    lemma_begun::<Res>(rows);
    assert(s.agrees(truth));
    lemma_run(s, streams, truth);
    let t = after_run(s, streams);
    lemma_finished_is_complete(t);
}

/// A finished job knows the result of every row.
pub proof fn lemma_finished_is_complete<Res>(s: RowsView<Res>)
    requires
        s.wf(),
        s.finished(),
    ensures
        forall|i: int| 0 <= i < s.rows.len() ==> #[trigger] s.out[i] is Some,
{
    lemma_pending(s.rows);
    assert forall|i: int| 0 <= i < s.rows.len() implies #[trigger] s.out[i] is Some by {
        if s.rows[i] is Some {
            let k = choose|k: int| 0 <= k < s.pending().len() && s.pending()[k] == i;
            assert(s.out[s.pending()[k]] is Some);
        }
    }
}

/// Only `InvalidArgument` is the fault of a row. A stream that ends with any other
/// status fails the whole batch with that code, whatever was being sent, and with
/// the backend's own message at the end of what is said.
pub proof fn law_backend_faults_fail_the_batch<Res>(s: RowsView<Res>, failure: StatusView)
    requires
        s.wf(),
        s.streaming,
        failure.code != Code::InvalidArgument,
    ensures
        s.ended(Some(failure)) matches Err(e) && {
            &&& e.code == failure.code
            &&& exists|before: Seq<char>| e.message == #[trigger] (before + failure.message)
        },
{
    if let Err(e) = s.ended(Some(failure)) {
        let before = "backend stream failed after "@ + decimal(
            (s.cursor + s.received) as nat,
        ) + " of "@ + decimal(s.pending().len()) + " rows: "@;
        assert(e.message == before + failure.message);
    }
}

/// A stream that ends without a failure has answered every row that it was sent, or
/// the batch fails; and no batch fails because of a row.
pub proof fn law_batches_fail_for_the_backend_alone<Res>(
    s: RowsView<Res>,
    failure: Option<StatusView>,
)
    requires
        s.wf(),
        s.streaming,
    ensures
        s.ended(failure) is Ok <==> match failure {
            None => s.received == s.chunk().len(),
            Some(f) => f.code == Code::InvalidArgument,
        },
        s.ended(failure) matches Err(e) ==> e.code == (match failure {
            None => Code::Internal,
            Some(f) => f.code,
        }),
{
}

/// All rows with a text go out together at first, in order and no others. If the
/// backend answers them all, that one stream is enough.
pub proof fn law_all_rows_go_out_together<Res>(rows: Seq<Option<Seq<char>>>, responses: Seq<Res>)
    requires
        exists|i: int| 0 <= i < rows.len() && #[trigger] rows[i] is Some,
        responses.len() == RowsView::<Res>::begun(rows).chunk().len(),
    ensures
        ({
            let s = RowsView::<Res>::begun(rows);
            &&& !s.finished()
            &&& forall|i: int| s.chunk().contains(i) <==> 0 <= i < rows.len() && rows[i] is Some
            &&& forall|j: int, k: int|
                0 <= j < k < s.chunk().len() ==> #[trigger] s.chunk()[j] < #[trigger] s.chunk()[k]
            &&& s.streamed(responses, None) matches Ok(t) && t.finished() && forall|j: int|
                0 <= j < responses.len() ==> t.out[#[trigger] s.chunk()[j]] == Some(
                    Ok::<Res, Seq<char>>(responses[j]),
                )
        }),
{
    let s = RowsView::<Res>::begun(rows);
    lemma_pending(rows);
    lemma_begun::<Res>(rows);
    assert(s.chunk() =~= s.pending());
    let i = choose|i: int| 0 <= i < rows.len() && #[trigger] rows[i] is Some;
    assert(s.pending().contains(i));
    let o = s.opened();
    assert(o.chunk() == s.chunk());
    lemma_answers(o, responses);
}

/// After `InvalidArgument` on a stream of several rows, the rows that were not
/// answered are sent one at a time; after it on a stream of one row, the rest goes
/// out together again. Other streams change neither.
pub proof fn law_rows_are_sent_singly_to_find_the_bad_one<Res>(
    s: RowsView<Res>,
    failure: Option<StatusView>,
)
    requires
        s.wf(),
        s.streaming,
        s.ended(failure) is Ok,
    ensures
        ({
            let t = s.ended(failure)->Ok_0;
            let left = s.pending().len() - t.cursor;
            &&& t.probing == (if failure is Some {
                !s.probing
            } else {
                s.probing
            })
            &&& left > 0 ==> t.chunk().len() == (if t.probing {
                1
            } else {
                left
            }) && t.chunk()[0] == s.pending()[t.cursor]
            &&& t.cursor == s.cursor + (if failure is Some && s.probing {
                1
            } else {
                s.received
            })
            &&& !t.streaming && t.rows == s.rows
        }),
{
}

/// Where streams lead, one after the other, or the status that one of them fails
/// the batch with.
pub open spec fn ran<Res>(
    s: RowsView<Res>,
    streams: Seq<(Seq<Res>, Option<StatusView>)>,
) -> Result<RowsView<Res>, StatusView>
    decreases streams.len(),
{
    if streams.len() == 0 {
        Ok(s)
    } else {
        match ran(s, streams.drop_last()) {
            Ok(t) => t.streamed(streams.last().0, streams.last().1),
            Err(e) => Err(e),
        }
    }
}

/// The rows that stream number `k` of a job carries.
pub open spec fn carried<Res>(
    rows: Seq<Option<Seq<char>>>,
    streams: Seq<(Seq<Res>, Option<StatusView>)>,
    k: int,
) -> Seq<int> {
    match ran(RowsView::<Res>::begun(rows), streams.take(k)) {
        Ok(t) => t.chunk(),
        Err(_) => Seq::empty(),
    }
}

/// Whether a job can have had these streams: none is opened once every row is done
/// with, and none gives more answers than it carries rows.
pub open spec fn can_have_run<Res>(
    rows: Seq<Option<Seq<char>>>,
    streams: Seq<(Seq<Res>, Option<StatusView>)>,
) -> bool
    decreases streams.len(),
{
    streams.len() > 0 ==> {
        &&& can_have_run(rows, streams.drop_last())
        &&& ran(RowsView::<Res>::begun(rows), streams.drop_last()) matches Ok(t) && !t.finished()
            && streams.last().0.len() <= t.chunk().len()
    }
}

/// Whether a row's result comes from the row itself or from the backend: an answer
/// is one that a stream gave for that row; a failure is that the row is null, or
/// the message with which the backend rejected it alone.
pub open spec fn accounted_for<Res>(
    rows: Seq<Option<Seq<char>>>,
    streams: Seq<(Seq<Res>, Option<StatusView>)>,
    i: int,
    result: Result<Res, Seq<char>>,
) -> bool {
    match result {
        Ok(v) => exists|k: int, j: int|
            0 <= k < streams.len() && 0 <= j < (#[trigger] streams[k]).0.len()
                && #[trigger] carried(rows, streams, k)[j] == i && streams[k].0[j] == v,
        Err(m) => {
            ||| rows[i] is None && m == "input text is null"@
            ||| exists|k: int|
                0 <= k < streams.len() && #[trigger] carried(rows, streams, k) == seq![i]
                    && streams[k].1 == Some(StatusView { code: Code::InvalidArgument, message: m })
        },
    }
}

/// Whatever the backend does, each result of a job is accounted for: an answer was
/// given for that very row, and a row failed only if it is null, or if a stream of
/// that row alone ended with `InvalidArgument`, whose message it then holds. A row
/// that is null has failed.
pub proof fn law_every_result_is_accounted_for<Res>(
    rows: Seq<Option<Seq<char>>>,
    streams: Seq<(Seq<Res>, Option<StatusView>)>,
)
    requires
        can_have_run(rows, streams),
    ensures
        ran(RowsView::<Res>::begun(rows), streams) matches Ok(t) ==> {
            &&& t.wf()
            &&& !t.streaming
            &&& t.rows == rows
            &&& forall|i: int|
                0 <= i < rows.len() ==> match #[trigger] t.out[i] {
                    Some(r) => accounted_for(rows, streams, i, r),
                    None => !t.finished(),
                }
            &&& forall|i: int|
                0 <= i < rows.len() && rows[i] is None ==> #[trigger] t.out[i] == Some(
                    Err::<Res, Seq<char>>("input text is null"@),
                )
        },
    decreases streams.len(),
{
    let s = RowsView::<Res>::begun(rows);
    lemma_pending(rows);
    if streams.len() == 0 {
        lemma_begun::<Res>(rows);
        if s.finished() {
            lemma_finished_is_complete(s);
        }
    } else {
        let init = streams.drop_last();
        law_every_result_is_accounted_for(rows, init);
        let p = ran(s, init)->Ok_0;
        law_a_stream_changes_only_what_it_carries(p, streams.last().0, streams.last().1);
        if let Ok(t) = ran(s, streams) {
            assert forall|i: int| 0 <= i < rows.len() implies match #[trigger] t.out[i] {
                Some(r) => accounted_for(rows, streams, i, r),
                None => !t.finished(),
            } by {
                if t.finished() {
                    lemma_finished_is_complete(t);
                }
                if t.out[i] is Some {
                    lemma_accounted_for_by_the_last(rows, streams, i);
                }
            }
        }
    }
}

/// What is known of a row after the last stream is accounted for by that stream or
/// by those before it.
proof fn lemma_accounted_for_by_the_last<Res>(
    rows: Seq<Option<Seq<char>>>,
    streams: Seq<(Seq<Res>, Option<StatusView>)>,
    i: int,
)
    requires
        streams.len() > 0,
        can_have_run(rows, streams),
        ran(RowsView::<Res>::begun(rows), streams) is Ok,
        ran(RowsView::<Res>::begun(rows), streams)->Ok_0.out[i] is Some,
        ({
            let p = ran(RowsView::<Res>::begun(rows), streams.drop_last())->Ok_0;
            let t = ran(RowsView::<Res>::begun(rows), streams)->Ok_0;
            let responses = streams.last().0;
            ||| t.out[i] == p.out[i] && accounted_for(rows, streams.drop_last(), i, t.out[i]->0)
            ||| t.out[i] != p.out[i] && match t.out[i] {
                None => false,
                Some(Ok(v)) => exists|j: int|
                    0 <= j < responses.len() && #[trigger] p.chunk()[j] == i && t.out[i] == Some(
                        Ok::<Res, Seq<char>>(responses[j]),
                    ),
                Some(Err(m)) => p.chunk() == seq![i] && streams.last().1 == Some(
                    StatusView { code: Code::InvalidArgument, message: m },
                ),
            }
        }),
    ensures
        accounted_for(
            rows,
            streams,
            i,
            ran(RowsView::<Res>::begun(rows), streams)->Ok_0.out[i]->0,
        ),
{
    let p = ran(RowsView::<Res>::begun(rows), streams.drop_last())->Ok_0;
    let t = ran(RowsView::<Res>::begun(rows), streams)->Ok_0;
    let r = t.out[i]->0;
    let n = streams.len() - 1;
    assert(streams.take(n) =~= streams.drop_last());
    assert(carried(rows, streams, n) == p.chunk());
    assert(streams[n] == streams.last());
    if t.out[i] == p.out[i] {
        lemma_accounted_for_longer(rows, streams, i, r);
    } else if r is Ok {
        let responses = streams.last().0;
        let j = choose|j: int|
            0 <= j < responses.len() && #[trigger] p.chunk()[j] == i && t.out[i] == Some(
                Ok::<Res, Seq<char>>(responses[j]),
            );
        assert(carried(rows, streams, n)[j] == i);
        assert(streams[n].0[j] == responses[j]);
    }
}

/// A stream changes what is known only of the rows that it carries: to the answers
/// that it gave, in order, or, where it carries one row and ends with
/// `InvalidArgument`, to that failure.
pub proof fn law_a_stream_changes_only_what_it_carries<Res>(
    s: RowsView<Res>,
    responses: Seq<Res>,
    failure: Option<StatusView>,
)
    requires
        s.wf(),
        !s.streaming,
        !s.finished(),
        responses.len() <= s.chunk().len(),
    ensures
        s.streamed(responses, failure) matches Ok(t) ==> {
            &&& t.wf()
            &&& !t.streaming
            &&& t.rows == s.rows
            &&& t.out.len() == s.out.len()
            &&& forall|i: int|
                0 <= i < s.out.len() && #[trigger] t.out[i] != s.out[i] ==> match t.out[i] {
                    None => false,
                    Some(Ok(v)) => exists|j: int|
                        0 <= j < responses.len() && #[trigger] s.chunk()[j] == i && t.out[i]
                            == Some(Ok::<Res, Seq<char>>(responses[j])),
                    Some(Err(m)) => s.chunk() == seq![i] && failure == Some(
                        StatusView { code: Code::InvalidArgument, message: m },
                    ),
                }
        },
{
    let o = s.opened();
    assert(o.chunk() == s.chunk());
    assert(o.wf());
    lemma_answers(o, responses);
    let a = o.answered_all(responses);
    lemma_ended(a, failure);
    lemma_pending(s.rows);
    if s.probing {
        assert(s.chunk() =~= seq![s.pending()[s.cursor]]);
    }
}

/// What earlier streams account for stays so.
proof fn lemma_accounted_for_longer<Res>(
    rows: Seq<Option<Seq<char>>>,
    streams: Seq<(Seq<Res>, Option<StatusView>)>,
    i: int,
    r: Result<Res, Seq<char>>,
)
    requires
        streams.len() > 0,
        accounted_for(rows, streams.drop_last(), i, r),
    ensures
        accounted_for(rows, streams, i, r),
{
    let init = streams.drop_last();
    assert forall|k: int| 0 <= k < init.len() implies #[trigger] carried(rows, init, k) == carried(
        rows,
        streams,
        k,
    ) && init[k] == streams[k] by {
        assert(init.take(k) =~= streams.take(k));
    }
    match r {
        Ok(v) => {
            let (k, j) = choose|k: int, j: int|
                0 <= k < init.len() && 0 <= j < (#[trigger] init[k]).0.len() && #[trigger] carried(
                    rows,
                    init,
                    k,
                )[j] == i && init[k].0[j] == v;
            assert(carried(rows, init, k) == carried(rows, streams, k));
            assert(carried(rows, streams, k)[j] == i && streams[k].0[j] == v);
        },
        Err(m) => {
            if !(rows[i] is None && m == "input text is null"@) {
                let k = choose|k: int|
                    0 <= k < init.len() && #[trigger] carried(rows, init, k) == seq![i] && init[k].1
                        == Some(StatusView { code: Code::InvalidArgument, message: m });
                assert(carried(rows, streams, k) == seq![i]);
            }
        },
    }
}

/// Answers are put in the rows that the stream carries, in order, and nowhere else.
proof fn lemma_answers<Res>(s: RowsView<Res>, responses: Seq<Res>)
    requires
        s.wf(),
        s.streaming,
        s.received == 0,
        responses.len() <= s.chunk().len(),
    ensures
        ({
            let t = s.answered_all(responses);
            &&& t.wf()
            &&& t.streaming
            &&& t.received == responses.len()
            &&& t.rows == s.rows
            &&& t.cursor == s.cursor
            &&& t.probing == s.probing
            &&& t.chunk() == s.chunk()
            &&& t.out.len() == s.out.len()
            &&& forall|j: int|
                0 <= j < responses.len() ==> t.out[#[trigger] s.chunk()[j]] == Some(
                    Ok::<Res, Seq<char>>(responses[j]),
                )
            &&& forall|i: int|
                0 <= i < t.out.len() && #[trigger] t.out[i] != s.out[i] ==> exists|j: int|
                    0 <= j < responses.len() && #[trigger] s.chunk()[j] == i && t.out[i] == Some(
                        Ok::<Res, Seq<char>>(responses[j]),
                    )
        }),
    decreases responses.len(),
{
    if responses.len() > 0 {
        let init = responses.drop_last();
        let n = responses.len() - 1;
        lemma_answers(s, init);
        let a = s.answered_all(init);
        lemma_answered(a, responses.last());
        lemma_pending(s.rows);
        let t = s.answered_all(responses);
        assert(responses[n] == responses.last());
        let at = s.chunk()[n];
        assert(0 <= at < s.out.len()) by {
            assert(s.chunk()[n] == s.pending()[s.cursor + n]);
        }
        assert(t.out == a.out.update(at, Some(Ok(responses[n]))));
        assert forall|j: int| 0 <= j < responses.len() implies t.out[#[trigger] s.chunk()[j]] == Some(
            Ok::<Res, Seq<char>>(responses[j]),
        ) by {
            if j < n {
                assert(s.chunk()[j] == s.pending()[s.cursor + j]);
                assert(s.chunk()[n] == s.pending()[s.cursor + n]);
                assert(init[j] == responses[j]);
            }
        }
        assert forall|i: int| 0 <= i < t.out.len() && #[trigger] t.out[i] != s.out[i] implies exists|
            j: int,
        |
            0 <= j < responses.len() && #[trigger] s.chunk()[j] == i && t.out[i] == Some(
                Ok::<Res, Seq<char>>(responses[j]),
            ) by {
            if i == at {
                assert(s.chunk()[n] == i);
            } else {
                assert(a.out[i] != s.out[i]);
                let j = choose|j: int|
                    0 <= j < init.len() && #[trigger] s.chunk()[j] == i && a.out[i] == Some(
                        Ok::<Res, Seq<char>>(init[j]),
                    );
                assert(init[j] == responses[j]);
                assert(s.chunk()[j] == i);
            }
        }
    }
}

/// A batch of rows on its way through backend streams.
///
/// The caller opens a stream with the texts that [`EmbedRows::open_stream`]
/// gives, reports each answer and then the end of the stream, and repeats until
/// there is nothing left to send.
pub struct EmbedRows<Res> {
    pub rows: Vec<Option<String>>,
    pub out: Vec<Option<Result<Res, String>>>,
    pub pending: Vec<usize>,
    pub cursor: usize,
    pub received: usize,
    pub probing: bool,
    pub streaming: bool,
}

/// What is known of one row, with its error as text.
pub open spec fn known_view<Res>(r: Option<Result<Res, String>>) -> Option<Result<Res, Seq<char>>> {
    match r {
        Some(r) => Some(row_view(r)),
        None => None,
    }
}

impl<Res> View for EmbedRows<Res> {
    type V = RowsView<Res>;

    open spec fn view(&self) -> RowsView<Res> {
        RowsView {
            rows: texts_view(self.rows@),
            out: Seq::new(self.out@.len(), |i: int| known_view(self.out@[i])),
            cursor: self.cursor as int,
            received: self.received as int,
            probing: self.probing,
            streaming: self.streaming,
        }
    }
}

impl<Res> EmbedRows<Res> {
    pub open spec fn wf(&self) -> bool {
        &&& self@.wf()
        &&& self.pending@.len() == self@.pending().len()
        &&& forall|k: int|
            0 <= k < self.pending@.len() ==> self@.pending()[k] == #[trigger] self.pending@[k]
    }

    /// Start a job on `rows`.
    pub fn new(rows: Vec<Option<String>>) -> (job: Self)
        ensures
            job.wf(),
            job@ == RowsView::<Res>::begun(texts_view(rows@)),
    {
        let mut out: Vec<Option<Result<Res, String>>> = Vec::new();
        let mut pending: Vec<usize> = Vec::new();
        let mut i: usize = 0;
        while i < rows.len()
            invariant
                i <= rows@.len(),
                out@.len() == i,
                forall|k: int|
                    0 <= k < i ==> known_view(#[trigger] out@[k]) == (if rows@[k] is None {
                        Some(Err::<Res, Seq<char>>(null_input_error()))
                    } else {
                        None
                    }),
                pending@.len() == pending_of(texts_view(rows@).take(i as int)).len(),
                forall|k: int|
                    0 <= k < pending@.len() ==> pending_of(texts_view(rows@).take(i as int))[k]
                        == #[trigger] pending@[k],
            decreases rows@.len() - i,
        {
            assert(texts_view(rows@).take(i + 1).drop_last() =~= texts_view(rows@).take(i as int));
            match &rows[i] {
                Some(_) => {
                    pending.push(i);
                    out.push(None);
                },
                None => {
                    out.push(Some(Err("input text is null".to_owned())));
                },
            }
            i = i + 1;
        }
        assert(texts_view(rows@).take(i as int) =~= texts_view(rows@));
        let job = EmbedRows {
            rows,
            out,
            pending,
            cursor: 0,
            received: 0,
            probing: false,
            streaming: false,
        };
        proof {
            lemma_begun::<Res>(texts_view(rows@));
            assert(job@ =~= RowsView::<Res>::begun(texts_view(rows@)));
        }
        job
    }

    /// The number of rows that the next stream, or the open one, carries.
    fn chunk_len(&self) -> (n: usize)
        requires
            self.wf(),
            self.cursor < self.pending@.len(),
        ensures
            n == self@.chunk().len(),
            self.cursor + n <= self.pending@.len(),
            self.cursor + n <= usize::MAX,
    {
        let total: usize = self.pending.len();
        if self.probing {
            1
        } else {
            total - self.cursor
        }
    }

    /// Open the next stream: the texts to send on it, or `None` when every row
    /// is done with.
    pub fn open_stream(&mut self) -> (texts: Option<Vec<String>>)
        requires
            old(self).wf(),
            !old(self).streaming,
        ensures
            final(self).wf(),
            match texts {
                None => old(self)@.finished() && *final(self) == *old(self),
                Some(texts) => {
                    &&& !old(self)@.finished()
                    &&& final(self)@ == old(self)@.opened()
                    &&& texts@.len() == old(self)@.chunk().len()
                    &&& forall|j: int|
                        0 <= j < texts@.len() ==> Some(#[trigger] texts@[j]@)
                            == old(self)@.rows[old(self)@.chunk()[j]]
                },
            },
    {
        if self.cursor == self.pending.len() {
            return None;
        }
        let n: usize = self.chunk_len();
        let mut texts: Vec<String> = Vec::new();
        let mut j: usize = 0;
        proof {
            lemma_pending(self@.rows);
        }
        while j < n
            invariant
                j <= n,
                self.wf(),
                n == self@.chunk().len(),
                self.cursor + n <= self.pending@.len(),
                self.cursor + n <= usize::MAX,
                texts@.len() == j,
                forall|k: int|
                    0 <= k < self@.pending().len() ==> 0 <= #[trigger] self@.pending()[k]
                        < self@.rows.len() && self@.rows[self@.pending()[k]] is Some,
                forall|k: int|
                    0 <= k < j ==> Some(#[trigger] texts@[k]@) == self@.rows[self@.chunk()[k]],
            decreases n - j,
        {
            assert(self@.chunk()[j as int] == self@.pending()[self.cursor + j]);
            let at: usize = self.pending[self.cursor + j];
            assert(self@.rows[self@.pending()[self.cursor + j]] is Some);
            assert(self@.rows[at as int] == text_view(self.rows@[at as int]));
            match &self.rows[at] {
                Some(s) => texts.push(s.clone()),
                None => {
                    assert(false);
                },
            }
            j = j + 1;
        }
        self.received = 0;
        self.streaming = true;
        Some(texts)
    }

    /// The stream could not be opened: the status that the batch fails with.
    pub fn on_open_failed(&self, failure: &Status) -> (s: Status)
        ensures
            s@ == status(failure@.code, "backend stream failed: "@ + failure@.message),
    {
        Status::new(
            failure.code,
            "backend stream failed: ".to_owned().concat(failure.message.as_str()),
        )
    }

    /// The open stream gave an answer. An error is the status that the batch
    /// fails with: the stream gave more answers than it was sent rows.
    pub fn on_response(&mut self, res: Res) -> (r: Result<(), Status>)
        requires
            old(self).wf(),
            old(self).streaming,
        ensures
            match r {
                Ok(_) => {
                    &&& old(self)@.received < old(self)@.chunk().len()
                    &&& final(self).wf()
                    &&& final(self)@ == old(self)@.answered(res)
                },
                Err(s) => {
                    &&& old(self)@.received == old(self)@.chunk().len()
                    &&& *final(self) == *old(self)
                    &&& s@ == status(
                        Code::Internal,
                        "backend stream returned more than "@ + decimal(old(self)@.chunk().len())
                            + " responses"@,
                    )
                },
            },
    {
        let n: usize = self.chunk_len();
        if self.received < n {
            proof {
                lemma_pending(self@.rows);
                lemma_answered(self@, res);
            }
            let ghost before = self@;
            let at: usize = self.pending[self.cursor + self.received];
            assert(before.pending()[self.cursor + self.received] == at);
            self.out.set(at, Some(Ok(res)));
            self.received = self.received + 1;
            assert(self@ =~= before.answered(res));
            Ok(())
        } else {
            Err(
                Status::internal(
                    "backend stream returned more than ".to_owned().concat(
                        decimal_string(n as u64).as_str(),
                    ).concat(" responses"),
                ),
            )
        }
    }

    /// The open stream ended, with a status if it failed. An error is the
    /// status that the batch fails with.
    pub fn on_stream_end(&mut self, failure: Option<Status>) -> (r: Result<(), Status>)
        requires
            old(self).wf(),
            old(self).streaming,
        ensures
            match old(self)@.ended(failure_view(failure)) {
                Ok(after) => r is Ok && final(self)@ == after && final(self).wf(),
                Err(e) => r matches Err(s) && s@ == e && *final(self) == *old(self),
            },
            match failure {
                None => r is Ok <==> old(self)@.received == old(self)@.chunk().len(),
                Some(f) => if f.code == Code::InvalidArgument {
                    r is Ok
                } else {
                    r matches Err(s) && s.code == f.code
                },
            },
            forall|i: int|
                0 <= i < old(self)@.rows.len() && #[trigger] final(self)@.out[i] != old(self)@.out[i]
                    ==> (failure matches Some(f) && f.code == Code::InvalidArgument
                    && final(self)@.out[i] == Some(Err::<Res, Seq<char>>(f.message@))
                    && old(self)@.chunk() == seq![i]),
    {
        let n: usize = self.chunk_len();
        let ghost before = self@;
        proof {
            lemma_pending(before.rows);
            lemma_ended(before, failure_view(failure));
        }
        match failure {
            None => {
                if self.received == n {
                    self.cursor = self.cursor + self.received;
                    self.received = 0;
                    self.streaming = false;
                    assert(self@ =~= before.ended(None)->Ok_0);
                    Ok(())
                } else {
                    Err(
                        Status::internal(
                            "backend stream ended early: expected ".to_owned().concat(
                                decimal_string(n as u64).as_str(),
                            ).concat(" responses, got ").concat(
                                decimal_string(self.received as u64).as_str(),
                            ),
                        ),
                    )
                }
            },
            Some(s) => {
                if s.code == Code::InvalidArgument {
                    if self.probing {
                        let at: usize = self.pending[self.cursor];
                        assert(before.pending()[before.cursor] == at);
                        self.out.set(at, Some(Err(s.message)));
                        self.cursor = self.cursor + 1;
                        self.received = 0;
                        self.probing = false;
                        self.streaming = false;
                    } else {
                        self.cursor = self.cursor + self.received;
                        self.received = 0;
                        self.probing = true;
                        self.streaming = false;
                    }
                    assert(self@ =~= before.ended(Some(s@))->Ok_0);
                    proof {
                        if before.probing {
                            assert(before.chunk() =~= seq![before.pending()[before.cursor]]);
                        }
                    }
                    Ok(())
                } else {
                    Err(
                        Status::new(
                            s.code,
                            "backend stream failed after ".to_owned().concat(
                                decimal_string((self.cursor + self.received) as u64).as_str(),
                            ).concat(" of ").concat(
                                decimal_string(self.pending.len() as u64).as_str(),
                            ).concat(" rows: ").concat(s.message.as_str()),
                        ),
                    )
                }
            },
        }
    }

    /// The results, once every row is done with.
    pub fn finish(self) -> (outcomes: RowOutcomes<Res>)
        requires
            self.wf(),
            self@.finished(),
        ensures
            outcomes@.len() == self@.rows.len(),
            forall|i: int|
                0 <= i < outcomes@.len() ==> Some(#[trigger] outcomes@[i]) == self@.out[i],
    {
        proof {
            lemma_finished_is_complete(self@);
        }
        let ghost out = self.out@;
        let ghost known = self@.out;
        let mut rows: Vec<Result<Res, String>> = Vec::new();
        for r in it: self.out
            invariant
                it.seq() == out,
                rows@.len() == it.index(),
                known.len() == out.len(),
                forall|i: int| 0 <= i < out.len() ==> #[trigger] known[i] == known_view(out[i]),
                forall|i: int| 0 <= i < out.len() ==> #[trigger] known[i] is Some,
                forall|i: int|
                    0 <= i < rows@.len() ==> Some(row_view(#[trigger] rows@[i])) == known[i],
        {
            assert(known[it.index() as int] is Some);
            match r {
                Some(r) => rows.push(r),
                None => {
                    assert(false);
                },
            }
        }
        RowOutcomes { rows }
    }
}

/// A row counts as a success exactly when it holds no error.
pub proof fn law_rows_without_an_error_succeeded<T>(r: Result<T, Seq<char>>)
    ensures
        succeeded::<T>()(r) <==> r is Ok,
{
}

/// A sparse row that is made up has three weights, at its own number and one and two
/// hundred above it: a whole, a half and a quarter.
pub proof fn law_made_up_sparse_rows_have_three_weights<T>(i: int, whole: T, half: T, quarter: T)
    requires
        0 <= i,
        i + 200 <= u32::MAX,
    ensures
        ({
            let row = noop_sparse_row(i, whole, half, quarter);
            &&& row.len() == 3
            &&& row[0].0 == i && row[1].0 == i + 100 && row[2].0 == i + 200
            &&& row[0].1 == whole && row[1].1 == half && row[2].1 == quarter
        }),
{
}

} // verus!
