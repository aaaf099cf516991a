//! Answers that are made up instead of asking an instance, for measuring
//! everything else. They depend on the request alone, so a stream gives, batch
//! by batch and to the byte, what single requests give, however many batches it
//! may have under way.

use vstd::prelude::*;

use super::arrow_batch::{
    all_succeeded, compression_of, dense_dim, dense_names, dense_response, dense_values,
    element_bits, error_texts, odd_dim, parse_text_rows, row_bytes, stream_rows, written,
    ColumnView, Named,
};
use super::multiplexer::{dense_payload, dtype_of, ArrowStreamJob, BatchPlan};
use super::request::EmbedArrowRequest;
use super::rows::{noop_dense_rows, texts_view, NOOP_EMBEDDING_DIM, ZERO_BITS};
use super::status::{status, Code, Status, StatusView};
use super::stream::{
    law_answers_are_in_order_and_end_at_the_lowest_failure, law_closed_streams_end_in_a_failure,
    law_finished_stream_owes_nothing, ran_to_the_end, Event, PipelineView,
};
use crate::config::ArrowOutputDtype;
use crate::text::signed_decimal;

verus! {

/// An answer as a mathematical value.
pub open spec fn payload_view(r: Result<Vec<u8>, Status>) -> Result<Seq<u8>, StatusView> {
    match r {
        Ok(bytes) => Ok(bytes@),
        Err(s) => Err(s@),
    }
}

/// The columns of the answer made up for `n` rows: a vector of noughts for each,
/// and no failure.
pub open spec fn made_up_columns(n: nat, dtype: ArrowOutputDtype) -> Seq<Named> {
    seq![
        (
            dense_names().0,
            ColumnView::Vectors {
                half: dtype == ArrowOutputDtype::F16,
                dim: if n == 0 {
                    0
                } else {
                    NOOP_EMBEDDING_DIM as nat
                },
                bits: element_bits(
                    Seq::new(n * NOOP_EMBEDDING_DIM as nat, |k: int| ZERO_BITS),
                    dtype == ArrowOutputDtype::F16,
                ),
                valid: Seq::new(n, |i: int| true),
            },
            true,
        ),
        (dense_names().1, ColumnView::Utf8(Seq::new(n, |i: int| None)), true),
    ]
}

/// The answer made up for `n` rows.
pub open spec fn made_up_payload(n: nat, dtype: ArrowOutputDtype, compression: i32) -> Result<
    Seq<u8>,
    StatusView,
> {
    match compression_of(compression) {
        None => Err(
            status(
                Code::InvalidArgument,
                "unknown compression value "@ + signed_decimal(compression as int),
            ),
        ),
        Some(lz4) => Ok(written(made_up_columns(n, dtype), lz4)),
    }
}

/// The answer made up for a batch of the stream that `job` is for.
pub open spec fn batch_answer(job: ArrowStreamJob, req: EmbedArrowRequest) -> Result<
    Seq<u8>,
    StatusView,
> {
    match stream_rows(req.arrow_ipc@) {
        Err(e) => Err(e),
        Ok(rows) => made_up_payload(rows.len(), job.output_dtype, job.compression),
    }
}

/// Whether every row is a vector of noughts.
spec fn noughts(rows: Seq<Result<Vec<u32>, Seq<char>>>) -> bool {
    forall|i: int|
        0 <= i < rows.len() ==> (#[trigger] rows[i] matches Ok(v) && v@ == Seq::new(
            NOOP_EMBEDDING_DIM as nat,
            |j: int| ZERO_BITS,
        ))
}

proof fn lemma_noughts(rows: Seq<Result<Vec<u32>, Seq<char>>>)
    requires
        noughts(rows),
    ensures
        odd_dim(rows, NOOP_EMBEDDING_DIM as nat) is None,
        dense_values(rows, NOOP_EMBEDDING_DIM as nat, 0) == Seq::new(
            rows.len() * NOOP_EMBEDDING_DIM as nat,
            |k: int| ZERO_BITS,
        ),
        row_bytes(error_texts(rows)) == 0,
    decreases rows.len(),
{
    let dim = NOOP_EMBEDDING_DIM as nat;
    let all = Seq::new(rows.len() * dim, |k: int| ZERO_BITS);
    if rows.len() == 0 {
        assert(dense_values(rows, dim, 0) =~= all);
    } else {
        let init = rows.drop_last();
        assert(noughts(init)) by {
            assert forall|i: int| 0 <= i < init.len() implies (#[trigger] init[i] matches Ok(v)
                && v@ == Seq::new(dim, |j: int| ZERO_BITS)) by {
                assert(init[i] == rows[i]);
            }
        }
        lemma_noughts(init);
        assert(rows.last() == rows[rows.len() - 1]);
        assert(error_texts(rows).drop_last() =~= error_texts(init));
        assert(dense_values(rows, dim, 0) =~= all);
    }
}

proof fn lemma_made_up(rows: Seq<Result<Vec<u32>, Seq<char>>>, dtype: ArrowOutputDtype)
    requires
        noughts(rows),
    ensures
        all_succeeded(rows),
        dense_dim(rows) == (if rows.len() == 0 {
            0
        } else {
            NOOP_EMBEDDING_DIM as nat
        }),
        odd_dim(rows, dense_dim(rows)) is None,
        row_bytes(error_texts(rows)) == 0,
        dense_response(rows, dtype) == made_up_columns(rows.len(), dtype),
{
    lemma_noughts(rows);
    if rows.len() > 0 {
        assert(rows[0] is Ok);
    }
    let dim = dense_dim(rows);
    assert(dense_values(rows, dim, 0) == Seq::new(
        rows.len() * NOOP_EMBEDDING_DIM as nat,
        |k: int| ZERO_BITS,
    ));
    assert(Seq::new(rows.len(), |i: int| rows[i] is Ok) =~= Seq::new(rows.len(), |i: int| true));
    assert(error_texts(rows) =~= Seq::new(rows.len(), |i: int| None));
}

/// Make up the answer for `n` rows.
pub fn made_up_answer(n: usize, dtype: ArrowOutputDtype, compression: i32) -> (r: Result<
    Vec<u8>,
    Status,
>)
    ensures
        payload_view(r) == made_up_payload(n as nat, dtype, compression),
{
    let outcome = noop_dense_rows(n, ZERO_BITS);
    proof {
        assert forall|i: int| 0 <= i < outcome@.len() implies (#[trigger] outcome@[i] matches Ok(v)
            && v@ == Seq::new(NOOP_EMBEDDING_DIM as nat, |j: int| ZERO_BITS)) by {
            assert(outcome.rows@[i] is Ok);
        }
        lemma_made_up(outcome@, dtype);
    }
    dense_payload(&outcome, dtype, compression)
}

/// Make up the answer of one batch of a stream: how many rows were made up, and
/// the answer.
pub fn noop_batch(job: &ArrowStreamJob, req: &EmbedArrowRequest) -> (r: (
    usize,
    Result<Vec<u8>, Status>,
))
    ensures
        r.0 == (match stream_rows(req.arrow_ipc@) {
            Ok(rows) => rows.len(),
            Err(_) => 0,
        }),
        payload_view(r.1) == batch_answer(*job, *req),
{
    match parse_text_rows(req.arrow_ipc.as_slice()) {
        Ok(rows) => {
            assert(texts_view(rows@).len() == rows@.len());
            (rows.len(), made_up_answer(rows.len(), job.output_dtype, job.compression))
        },
        Err(s) => (0, Err(s)),
    }
}

/// The answers that a run hands to the client, as mathematical values.
pub open spec fn payloads(job: ArrowStreamJob, events: Seq<Event<Vec<u8>>>) -> Seq<
    Result<Seq<u8>, StatusView>,
> {
    PipelineView::<Vec<u8>>::start(job.max_concurrent as int).answers(events).map_values(
        |r: Result<Vec<u8>, Status>| payload_view(r),
    )
}

/// Whether all requests ask for the element type and the compression of `job`.
pub open spec fn asks_for_the_same(
    job: ArrowStreamJob,
    reqs: Seq<EmbedArrowRequest>,
    default: ArrowOutputDtype,
) -> bool {
    forall|i: int|
        0 <= i < reqs.len() ==> dtype_of((#[trigger] reqs[i]).output_dtype, default) == Some(
            job.output_dtype,
        ) && reqs[i].compression == job.compression
}

/// Whether a run of the stream that `job` is for went to its end on `reqs`, with
/// answers that were made up; `truth` gives the result of each batch.
pub open spec fn made_up_run(
    job: ArrowStreamJob,
    reqs: Seq<EmbedArrowRequest>,
    events: Seq<Event<Vec<u8>>>,
    truth: spec_fn(int) -> Result<Vec<u8>, Status>,
) -> bool {
    &&& ran_to_the_end(job.max_concurrent as int, events, reqs.len() as int)
    &&& PipelineView::<Vec<u8>>::start(job.max_concurrent as int).follows(events, truth)
    &&& forall|i: int|
        0 <= i < reqs.len() ==> payload_view(#[trigger] truth(i)) == batch_answer(job, reqs[i])
}

/// However many batches two streams may have under way, and in whatever order
/// their batches finish, the same requests get the same answers, to the byte,
/// and those that single requests get. Every request is answered if all can be;
/// otherwise both streams end with the failure of the first that cannot.
///
/// The jobs are what the first request settled for each stream; all requests ask
/// for the same element type and compression.
pub proof fn law_streams_answer_as_single_requests(
    reqs: Seq<EmbedArrowRequest>,
    default: ArrowOutputDtype,
    one_job: ArrowStreamJob,
    other_job: ArrowStreamJob,
    one_run: Seq<Event<Vec<u8>>>,
    other_run: Seq<Event<Vec<u8>>>,
    one: spec_fn(int) -> Result<Vec<u8>, Status>,
    other: spec_fn(int) -> Result<Vec<u8>, Status>,
)
    requires
        asks_for_the_same(one_job, reqs, default),
        asks_for_the_same(other_job, reqs, default),
        made_up_run(one_job, reqs, one_run, one),
        made_up_run(other_job, reqs, other_run, other),
    ensures
        payloads(one_job, one_run) == payloads(other_job, other_run),
        ({
            let answers = payloads(one_job, one_run);
            &&& answers.len() <= reqs.len()
            &&& forall|i: int|
                0 <= i < answers.len() ==> #[trigger] answers[i] == batch_answer(one_job, reqs[i])
            &&& forall|i: int, plan: BatchPlan|
                0 <= i < answers.len() && #[trigger] plan.serves(reqs[i], default) ==> answers[i]
                    == made_up_payload(plan.rows@.len(), plan.output_dtype, reqs[i].compression)
            &&& forall|i: int| 0 <= i < answers.len() - 1 ==> #[trigger] answers[i] is Ok
            &&& answers.len() < reqs.len() ==> answers.len() > 0 && answers.last() is Err
        }),
        (forall|i: int| 0 <= i < reqs.len() ==> batch_answer(one_job, #[trigger] reqs[i]) is Ok)
            ==> payloads(one_job, one_run).len() == reqs.len(),
{
    lemma_answers(one_job, reqs, one_run, one);
    lemma_answers(other_job, reqs, other_run, other);
    let p = payloads(one_job, one_run);
    let q = payloads(other_job, other_run);
    if p.len() < q.len() {
        assert(p[p.len() - 1] is Err);
        assert(q[p.len() - 1] is Ok);
    }
    if q.len() < p.len() {
        assert(q[q.len() - 1] is Err);
        assert(p[q.len() - 1] is Ok);
    }
    assert forall|i: int| 0 <= i < p.len() && i < q.len() implies p[i] == q[i] by {
        assert(p[i] == batch_answer(one_job, reqs[i]));
        assert(q[i] == batch_answer(other_job, reqs[i]));
    }
    assert(p =~= q);
    assert forall|i: int, plan: BatchPlan|
        0 <= i < p.len() && #[trigger] plan.serves(reqs[i], default) implies p[i]
        == made_up_payload(plan.rows@.len(), plan.output_dtype, reqs[i].compression) by {
        assert(p[i] == batch_answer(one_job, reqs[i]));
        assert(texts_view(plan.rows@).len() == plan.rows@.len());
    }
    if p.len() < reqs.len() {
        let last = p.len() - 1;
        assert(p[last] == batch_answer(one_job, reqs[last]));
    }
}

proof fn lemma_answers(
    job: ArrowStreamJob,
    reqs: Seq<EmbedArrowRequest>,
    events: Seq<Event<Vec<u8>>>,
    truth: spec_fn(int) -> Result<Vec<u8>, Status>,
)
    requires
        made_up_run(job, reqs, events, truth),
    ensures
        ({
            let answers = payloads(job, events);
            &&& answers.len() <= reqs.len()
            &&& forall|i: int|
                0 <= i < answers.len() ==> #[trigger] answers[i] == batch_answer(job, reqs[i])
            &&& forall|i: int| 0 <= i < answers.len() - 1 ==> #[trigger] answers[i] is Ok
            &&& answers.len() < reqs.len() ==> answers.len() > 0 && answers.last() is Err
        }),
{
    let limit = job.max_concurrent as int;
    law_closed_streams_end_in_a_failure(limit, events, truth);
    law_answers_are_in_order_and_end_at_the_lowest_failure(limit, events, truth);
    law_finished_stream_owes_nothing(limit, events, truth);
    let a = PipelineView::<Vec<u8>>::start(limit).answers(events);
    let answers = payloads(job, events);
    assert forall|i: int| 0 <= i < answers.len() implies #[trigger] answers[i] == batch_answer(
        job,
        reqs[i],
    ) by {
        assert(a[i] == truth(i));
    }
    assert forall|i: int| 0 <= i < answers.len() - 1 implies #[trigger] answers[i] is Ok by {
        assert(a[i] == truth(i));
        assert(truth(i) is Ok);
    }
}

/// An answer that is made up has one row for each row asked for, each of 384 noughts
/// and without an error, in the precision asked for; and it fails only for a
/// compression that there is not.
pub proof fn law_made_up_answers_have_a_row_for_each(
    n: nat,
    dtype: ArrowOutputDtype,
    compression: i32,
    i: int,
)
    requires
        0 <= i < n,
    ensures
        made_up_columns(n, dtype)[0].1 matches ColumnView::Vectors { half, dim, bits, valid } && {
            &&& dim == 384
            &&& valid.len() == n && valid[i]
            &&& bits.len() == n * 384
            &&& half == (dtype == ArrowOutputDtype::F16)
            &&& !half ==> bits == Seq::new(n * 384, |k: int| 0u32)
        },
        made_up_columns(n, dtype)[1].1 matches ColumnView::Utf8(errors) && errors.len() == n
            && errors[i] is None,
        made_up_columns(n, dtype).len() == 2,
        made_up_columns(n, dtype)[0].0 == "embeddings"@ && made_up_columns(n, dtype)[0].2,
        made_up_columns(n, dtype)[1].0 == "error"@ && made_up_columns(n, dtype)[1].2,
        made_up_payload(n, dtype, compression) is Ok <==> compression == 0 || compression == 1,
        made_up_payload(n, dtype, compression) matches Err(s) ==> s == status(
            Code::InvalidArgument,
            "unknown compression value "@ + signed_decimal(compression as int),
        ),
        made_up_payload(n, dtype, 0) == Ok::<_, StatusView>(
            written(made_up_columns(n, dtype), false),
        ),
        made_up_payload(n, dtype, 1) == Ok::<_, StatusView>(
            written(made_up_columns(n, dtype), true),
        ),
{
    assert(i < n * 384);
}

} // verus!
