//! A client that measures how fast texts are embedded.

use vstd::prelude::*;

use crate::grpc::arrow_batch::{
    as_rows, batch_row_count, column_len, create_arrow_ipc, first_batch, row_bytes, row_count,
    stream_rows, ReadFault, ReadFaultView, COMPRESSION_LZ4,
};
use crate::grpc::ipc::lz4_frames;
use crate::grpc::request::{EmbedArrowRequest, EmbedRequest, Routing, RoutingView, Target};
use crate::grpc::status::{Status, StatusView};
use crate::text::{
    after_prefix, chars_of, contains, decimal, decimal_string, is_digit,
    law_decimals_stand_for_their_numbers, stands_at, strip_prefix,
};

verus! {

/// How texts are sent.
#[derive(Debug, Clone, Copy, PartialEq, Eq, Structural)]
pub enum BenchMode {
    /// One in each request, several requests at a time.
    Standard,
    /// Many in each request, as a batch.
    Arrow,
}

impl BenchMode {
    /// The name that results give the mode.
    pub fn name(&self) -> (s: &'static str)
        ensures
            s@ == (match *self {
                BenchMode::Standard => "standard"@,
                BenchMode::Arrow => "arrow"@,
            }),
    {
        match self {
            BenchMode::Standard => "standard",
            BenchMode::Arrow => "arrow",
        }
    }
}

/// How a connection is made.
#[derive(Debug, Clone, Copy, PartialEq, Eq, Structural)]
pub enum ChannelPlan {
    /// Without encryption.
    Plain,
    /// Encrypted, with the server's certificate only.
    ServerTls,
    /// Encrypted, with a client certificate too.
    MutualTls,
}

/// Whether an endpoint asks for encryption.
pub open spec fn wants_tls(endpoint: Seq<char>) -> bool {
    strip_prefix(endpoint, "https://"@) is Some
}

/// How to connect, by the endpoint and whether a client certificate and its key
/// are given; one of them alone is no good where the connection is encrypted.
pub fn channel_plan(endpoint: &str, has_cert: bool, has_key: bool) -> (r: Result<
    ChannelPlan,
    String,
>)
    ensures
        !wants_tls(endpoint@) ==> r == Ok::<ChannelPlan, String>(ChannelPlan::Plain),
        wants_tls(endpoint@) && has_cert && has_key ==> r == Ok::<ChannelPlan, String>(
            ChannelPlan::MutualTls,
        ),
        wants_tls(endpoint@) && !has_cert && !has_key ==> r == Ok::<ChannelPlan, String>(
            ChannelPlan::ServerTls,
        ),
        wants_tls(endpoint@) && has_cert != has_key ==> (r matches Err(e) && e@
            == "Both --cert and --key must be provided for mTLS"@),
{
    let v = chars_of(endpoint);
    if after_prefix(&v, "https://").is_none() {
        return Ok(ChannelPlan::Plain);
    }
    if has_cert && has_key {
        Ok(ChannelPlan::MutualTls)
    } else if has_cert || has_key {
        Err("Both --cert and --key must be provided for mTLS".to_owned())
    } else {
        Ok(ChannelPlan::ServerTls)
    }
}

/// One of the ten sentences that texts are made of.
pub open spec fn template(i: int) -> Seq<char> {
    if i == 0 {
        "The quick brown fox jumps over the lazy dog"@
    } else if i == 1 {
        "Machine learning models can process natural language efficiently"@
    } else if i == 2 {
        "Embedding vectors capture semantic meaning in high-dimensional space"@
    } else if i == 3 {
        "Text retrieval systems rely on similarity search algorithms"@
    } else if i == 4 {
        "Neural networks transform input data through multiple layers"@
    } else if i == 5 {
        "Vector databases enable fast approximate nearest neighbor search"@
    } else if i == 6 {
        "Semantic search improves information retrieval accuracy"@
    } else if i == 7 {
        "Language models understand context and generate coherent text"@
    } else if i == 8 {
        "Transformers revolutionized natural language processing"@
    } else {
        "Attention mechanisms help models focus on relevant information"@
    }
}

fn template_text(i: usize) -> (s: &'static str)
    ensures
        s@ == template(i as int),
{
    if i == 0 {
        "The quick brown fox jumps over the lazy dog"
    } else if i == 1 {
        "Machine learning models can process natural language efficiently"
    } else if i == 2 {
        "Embedding vectors capture semantic meaning in high-dimensional space"
    } else if i == 3 {
        "Text retrieval systems rely on similarity search algorithms"
    } else if i == 4 {
        "Neural networks transform input data through multiple layers"
    } else if i == 5 {
        "Vector databases enable fast approximate nearest neighbor search"
    } else if i == 6 {
        "Semantic search improves information retrieval accuracy"
    } else if i == 7 {
        "Language models understand context and generate coherent text"
    } else if i == 8 {
        "Transformers revolutionized natural language processing"
    } else {
        "Attention mechanisms help models focus on relevant information"
    }
}

/// The text at place `i`: a sentence, its number counted from 1, and something
/// more on every third.
pub open spec fn test_text(i: int) -> Seq<char> {
    let text = template(i % 10) + " - sample "@ + decimal((i + 1) as nat);
    if i % 3 == 0 {
        text + " with additional context for testing variable length inputs"@
    } else {
        text
    }
}

/// The texts at the first `count` places.
pub open spec fn test_texts(count: nat) -> Seq<Seq<char>> {
    Seq::new(count, |i: int| test_text(i))
}

/// Whether `c` is nowhere followed by `d` in `s`, from place `from` on.
spec fn lacks_pair(s: Seq<char>, c: char, d: char, from: int) -> bool
    decreases s.len() - from,
{
    from + 1 < s.len() ==> !(s[from] == c && s[from + 1] == d) && lacks_pair(s, c, d, from + 1)
}

proof fn lemma_lacks_pair(s: Seq<char>, c: char, d: char, from: int, k: int)
    requires
        lacks_pair(s, c, d, from),
        from <= k,
        k + 1 < s.len(),
    ensures
        !(s[k] == c && s[k + 1] == d),
    decreases k - from,
{
    if from < k {
        lemma_lacks_pair(s, c, d, from + 1, k);
    }
}

proof fn lemma_template_lacks(i: int)
    requires
        0 <= i < 10,
    ensures
        lacks_pair(template(i), 'a', 'd', 0),
{
    reveal_with_fuel(lacks_pair, 80);
    if i == 0 {
        reveal_strlit("The quick brown fox jumps over the lazy dog");
        assert(lacks_pair("The quick brown fox jumps over the lazy dog"@, 'a', 'd', 0));
    } else if i == 1 {
        reveal_strlit("Machine learning models can process natural language efficiently");
        assert(lacks_pair("Machine learning models can process natural language efficiently"@, 'a', 'd', 0));
    } else if i == 2 {
        reveal_strlit("Embedding vectors capture semantic meaning in high-dimensional space");
        assert(lacks_pair("Embedding vectors capture semantic meaning in high-dimensional space"@, 'a', 'd', 0));
    } else if i == 3 {
        reveal_strlit("Text retrieval systems rely on similarity search algorithms");
        assert(lacks_pair("Text retrieval systems rely on similarity search algorithms"@, 'a', 'd', 0));
    } else if i == 4 {
        reveal_strlit("Neural networks transform input data through multiple layers");
        assert(lacks_pair("Neural networks transform input data through multiple layers"@, 'a', 'd', 0));
    } else if i == 5 {
        reveal_strlit("Vector databases enable fast approximate nearest neighbor search");
        assert(lacks_pair("Vector databases enable fast approximate nearest neighbor search"@, 'a', 'd', 0));
    } else if i == 6 {
        reveal_strlit("Semantic search improves information retrieval accuracy");
        assert(lacks_pair("Semantic search improves information retrieval accuracy"@, 'a', 'd', 0));
    } else if i == 7 {
        reveal_strlit("Language models understand context and generate coherent text");
        assert(lacks_pair("Language models understand context and generate coherent text"@, 'a', 'd', 0));
    } else if i == 8 {
        reveal_strlit("Transformers revolutionized natural language processing");
        assert(lacks_pair("Transformers revolutionized natural language processing"@, 'a', 'd', 28));
        assert(lacks_pair("Transformers revolutionized natural language processing"@, 'a', 'd', 0));
    } else {
        reveal_strlit("Attention mechanisms help models focus on relevant information");
        assert(lacks_pair("Attention mechanisms help models focus on relevant information"@, 'a', 'd', 0));
    }
}

/// The sentences begin differently.
proof fn lemma_openings(i: int, j: int)
    requires
        0 <= i < 10,
        0 <= j < 10,
        i != j,
    ensures
        template(i).len() > 1,
        template(j).len() > 1,
        template(i)[0] != template(j)[0] || template(i)[1] != template(j)[1],
{
    reveal_strlit("The quick brown fox jumps over the lazy dog");
    reveal_strlit("Machine learning models can process natural language efficiently");
    reveal_strlit("Embedding vectors capture semantic meaning in high-dimensional space");
    reveal_strlit("Text retrieval systems rely on similarity search algorithms");
    reveal_strlit("Neural networks transform input data through multiple layers");
    reveal_strlit("Vector databases enable fast approximate nearest neighbor search");
    reveal_strlit("Semantic search improves information retrieval accuracy");
    reveal_strlit("Language models understand context and generate coherent text");
    reveal_strlit("Transformers revolutionized natural language processing");
    reveal_strlit("Attention mechanisms help models focus on relevant information");
}

/// What stands before the number, and the number.
spec fn numbered(i: int) -> Seq<char> {
    template(i % 10) + " - sample "@ + decimal((i + 1) as nat)
}

proof fn lemma_numbered_lacks(i: int, k: int)
    requires
        0 <= i,
        0 <= k,
        k + 1 < numbered(i).len(),
    ensures
        !(numbered(i)[k] == 'a' && numbered(i)[k + 1] == 'd'),
{
    let head = template(i % 10);
    let number = decimal((i + 1) as nat);
    reveal_strlit(" - sample ");
    law_decimals_stand_for_their_numbers((i + 1) as nat);
    lemma_template_lacks(i % 10);
    let s = numbered(i);
    if k + 1 < head.len() {
        lemma_lacks_pair(head, 'a', 'd', 0, k);
    } else if k + 1 >= head.len() + 10 {
        assert(is_digit(number[k + 1 - head.len() - 10]));
        assert(s[k + 1] == number[k + 1 - head.len() - 10]);
    } else {
        assert(s[k + 1] == " - sample "@[k + 1 - head.len()]);
    }
}

/// Every text holds its number, counted from 1; every third, and no other, holds
/// more context.
pub proof fn law_texts_say_their_numbers(i: int)
    requires
        0 <= i,
    ensures
        contains(test_text(i), "sample "@ + decimal((i + 1) as nat)),
        contains(test_text(i), "additional context"@) <==> i % 3 == 0,
{
    let head = template(i % 10);
    let number = decimal((i + 1) as nat);
    let s = test_text(i);
    reveal_strlit(" - sample ");
    reveal_strlit("sample ");
    reveal_strlit("additional context");
    let at = head.len() as int + 3;
    let pattern = "sample "@ + number;
    assert(s.subrange(at, at + pattern.len()) =~= pattern);
    assert(stands_at(s, pattern, at));
    if i % 3 == 0 {
        reveal_strlit(" with additional context for testing variable length inputs");
        let after = numbered(i).len() as int + 6;
        assert(s.subrange(after, after + 18) =~= "additional context"@);
        assert(stands_at(s, "additional context"@, after));
    } else if contains(s, "additional context"@) {
        let k = choose|k: int| stands_at(s, "additional context"@, k);
        let found = s.subrange(k, k + 18);
        assert(found[0] == 'a' && found[1] == 'd');
        lemma_numbered_lacks(i, k);
    }
}

/// No two texts are alike.
pub proof fn law_texts_differ(i: int, j: int)
    requires
        0 <= i,
        0 <= j,
        i != j,
    ensures
        test_text(i) != test_text(j),
{
    let s = test_text(i);
    let t = test_text(j);
    if i % 10 != j % 10 {
        lemma_openings(i % 10, j % 10);
        assert(s[0] == template(i % 10)[0] && s[1] == template(i % 10)[1]);
        assert(t[0] == template(j % 10)[0] && t[1] == template(j % 10)[1]);
    } else if s == t {
        lemma_same_number(i, j);
        law_decimals_stand_for_their_numbers((i + 1) as nat);
        law_decimals_stand_for_their_numbers((j + 1) as nat);
    }
}

proof fn lemma_numbers_are_as_long(i: int, j: int)
    requires
        0 <= i,
        0 <= j,
        i % 10 == j % 10,
        test_text(i) == test_text(j),
    ensures
        decimal((i + 1) as nat).len() >= decimal((j + 1) as nat).len(),
{
    let a = decimal((i + 1) as nat);
    let b = decimal((j + 1) as nat);
    let s = test_text(i);
    let t = test_text(j);
    let from = template(i % 10).len() as int + " - sample "@.len();
    reveal_strlit(" with additional context for testing variable length inputs");
    law_decimals_stand_for_their_numbers((j + 1) as nat);
    if a.len() < b.len() {
        assert(is_digit(b[a.len() as int]));
        assert(t[from + a.len()] == b[a.len() as int]);
        let more = " with additional context for testing variable length inputs"@;
        assert(from + b.len() <= t.len());
        if i % 3 == 0 {
            assert(s == numbered(i) + more);
            assert(s[from + a.len()] == more[0]);
        } else {
            assert(s.len() == from + a.len());
        }
    }
}

proof fn lemma_same_number(i: int, j: int)
    requires
        0 <= i,
        0 <= j,
        i % 10 == j % 10,
        test_text(i) == test_text(j),
    ensures
        decimal((i + 1) as nat) == decimal((j + 1) as nat),
{
    let a = decimal((i + 1) as nat);
    let b = decimal((j + 1) as nat);
    let s = test_text(i);
    let t = test_text(j);
    let from = template(i % 10).len() as int + " - sample "@.len();
    if a.len() < b.len() {
        lemma_numbers_are_as_long(i, j);
    } else if b.len() < a.len() {
        lemma_numbers_are_as_long(j, i);
    } else {
        assert forall|k: int| 0 <= k < a.len() implies a[k] == b[k] by {
            assert(s[from + k] == a[k]);
            assert(t[from + k] == b[k]);
        }
        assert(a =~= b);
    }
}

/// Fewer texts are the first of more.
pub proof fn law_fewer_texts_are_the_first_of_more(few: nat, many: nat)
    requires
        few <= many,
    ensures
        test_texts(few) == test_texts(many).take(few as int),
{
    assert(test_texts(few) =~= test_texts(many).take(few as int));
}

/// So many texts to embed.
pub fn generate_test_texts(count: usize) -> (texts: Vec<String>)
    ensures
        crate::text::texts(texts@) == test_texts(count as nat),
{
    let mut texts: Vec<String> = Vec::new();
    let mut i: usize = 0;
    while i < count
        invariant
            i <= count,
            texts@.len() == i,
            forall|k: int| 0 <= k < i ==> (#[trigger] texts@[k])@ == test_text(k),
        decreases count - i,
    {
        let text = template_text(i % 10).to_owned().concat(" - sample ").concat(
            decimal_string((i + 1) as u64).as_str(),
        );
        if i % 3 == 0 {
            texts.push(
                text.concat(" with additional context for testing variable length inputs"),
            );
        } else {
            texts.push(text);
        }
        i = i + 1;
    }
    assert(crate::text::texts(texts@) =~= test_texts(count as nat));
    texts
}

/// Where the chunk ends that begins at `start`, of `total` texts in chunks of
/// `size`.
pub open spec fn next_end(start: int, size: int, total: int) -> int {
    if start + size < total {
        start + size
    } else {
        total
    }
}

/// The chunks from `start` on, each by where it begins and ends.
pub open spec fn chunks(start: int, size: int, total: int) -> Seq<(int, int)>
    decreases total - start,
{
    if size <= 0 || start >= total {
        Seq::empty()
    } else {
        let end = next_end(start, size, total);
        seq![(start, end)] + chunks(end, size, total)
    }
}

/// The items of `texts` that lie in `parts`, one part after the other.
pub open spec fn in_parts<T>(texts: Seq<T>, parts: Seq<(int, int)>) -> Seq<T>
    decreases parts.len(),
{
    if parts.len() == 0 {
        Seq::empty()
    } else {
        texts.subrange(parts[0].0, parts[0].1) + in_parts(texts, parts.drop_first())
    }
}

/// Going on from the end of each chunk to the next takes in every text, each once
/// and in order. All chunks are full but the last, which is not empty.
pub proof fn law_chunks_cover_all_texts<T>(texts: Seq<T>, start: int, size: int)
    requires
        0 <= start <= texts.len(),
        size > 0,
    ensures
        ({
            let parts = chunks(start, size, texts.len() as int);
            &&& in_parts(texts, parts) == texts.skip(start)
            &&& parts.len() == (texts.len() - start + size - 1) / size
            &&& forall|k: int|
                0 <= k < parts.len() ==> (#[trigger] parts[k]).0 == start + k * size && 0
                    < parts[k].1 - parts[k].0 <= size && (k < parts.len() - 1 ==> parts[k].1
                    - parts[k].0 == size)
        }),
    decreases texts.len() - start,
{
    let total = texts.len() as int;
    let parts = chunks(start, size, total);
    if start >= total {
        assert((size - 1) / size == 0) by (nonlinear_arith)
            requires
                size > 0,
        ;
        assert(in_parts(texts, parts) =~= texts.skip(start));
    } else {
        let end = next_end(start, size, total);
        law_chunks_cover_all_texts(texts, end, size);
        let rest = chunks(end, size, total);
        assert(parts.drop_first() =~= rest);
        assert(texts.subrange(start, end) + texts.skip(end) =~= texts.skip(start));
        if end == total {
            assert(rest.len() == 0);
            assert((total - start + size - 1) / size == 1) by (nonlinear_arith)
                requires
                    0 < total - start <= size,
            ;
        } else {
            assert((total - start + size - 1) / size == (total - end + size - 1) / size + 1)
                by (nonlinear_arith)
                requires
                    end == start + size,
                    size > 0,
            ;
        }
        assert forall|k: int| 0 <= k < parts.len() implies (#[trigger] parts[k]).0 == start + k
            * size && 0 < parts[k].1 - parts[k].0 <= size && (k < parts.len() - 1 ==> parts[k].1
            - parts[k].0 == size) by {
            if k > 0 {
                assert(parts[k] == rest[k - 1]);
                assert(end + (k - 1) * size == start + k * size) by (nonlinear_arith)
                    requires
                        end == start + size,
                ;
            }
        }
    }
}

/// Where the next chunk ends, of `total` texts in chunks of `size`.
pub fn chunk_end(start: usize, size: usize, total: usize) -> (end: usize)
    requires
        start < total,
        size > 0,
    ensures
        end == next_end(start as int, size as int, total as int),
        start < end <= total,
        end - start <= size,
        end - start == size || end == total,
{
    if total - start <= size {
        total
    } else {
        start + size
    }
}

/// A message size in bytes.
pub fn message_size(megabytes: usize) -> (r: Option<usize>)
    ensures
        match r {
            Some(n) => n == megabytes * 1024 * 1024,
            None => megabytes * 1024 * 1024 > usize::MAX,
        },
{
    match megabytes.checked_mul(1024) {
        Some(kilobytes) => kilobytes.checked_mul(1024),
        None => None,
    }
}

/// The request for one text.
pub fn standard_request(instance_name: &str, text: String) -> (r: (Target, EmbedRequest))
    ensures
        r.0@ == Some(RoutingView::InstanceName(instance_name@)),
        r.1.inputs == text,
        r.1.truncate,
        r.1.normalize == Some(true),
        r.1.truncation_direction == 0,
        r.1.prompt_name is None,
        r.1.dimensions is None,
{
    (
        Target { routing: Some(Routing::InstanceName(instance_name.to_owned())) },
        EmbedRequest {
            inputs: text,
            truncate: true,
            normalize: Some(true),
            truncation_direction: 0,
            prompt_name: None,
            dimensions: None,
        },
    )
}

/// The request for many texts, compressed, which the receiving side reads back as
/// they are.
pub fn arrow_request(instance_name: &str, texts: &Vec<String>, noop: bool) -> (r: Result<
    EmbedArrowRequest,
    Status,
>)
    requires
        row_bytes(as_rows(texts@)) <= i32::MAX,
    ensures
        r matches Ok(req) && {
            &&& req.target matches Some(t) && t@ == Some(RoutingView::InstanceName(instance_name@))
            &&& stream_rows(req.arrow_ipc@) == Ok::<_, StatusView>(as_rows(texts@))
            &&& lz4_frames(req.arrow_ipc@)
            &&& req.truncate
            &&& req.normalize
            &&& req.noop == noop
            &&& req.truncation_direction == 0
            &&& req.prompt_name is None
            &&& req.dimensions is None
            &&& req.compression == 0
            &&& req.output_dtype == 0
            &&& req.max_concurrent_batches == 0
        },
{
    match create_arrow_ipc(texts, COMPRESSION_LZ4) {
        Ok(arrow_ipc) => Ok(
            EmbedArrowRequest {
                target: Some(
                    Target { routing: Some(Routing::InstanceName(instance_name.to_owned())) },
                ),
                arrow_ipc,
                truncate: true,
                normalize: true,
                truncation_direction: 0,
                prompt_name: None,
                dimensions: None,
                noop,
                compression: 0,
                output_dtype: 0,
                max_concurrent_batches: 0,
            },
        ),
        Err(s) => Err(s),
    }
}

/// How a run went so far.
#[derive(Debug, Clone, Copy)]
pub struct BenchTally {
    pub num_requests: usize,
    pub successful: usize,
    pub failed: usize,
}

impl BenchTally {
    /// Nothing was done yet.
    pub fn new() -> (t: Self)
        ensures
            t.num_requests == 0,
            t.successful == 0,
            t.failed == 0,
    {
        BenchTally { num_requests: 0, successful: 0, failed: 0 }
    }

    /// How many texts were answered.
    pub open spec fn answered(self) -> int {
        self.successful + self.failed
    }

    /// One text was answered. Whether it is the first that failed.
    pub fn on_text(&mut self, ok: bool) -> (first_failure: bool)
        requires
            old(self).num_requests < usize::MAX,
            old(self).answered() < usize::MAX,
        ensures
            final(self).num_requests == old(self).num_requests + 1,
            final(self).successful == old(self).successful + (if ok {
                1int
            } else {
                0
            }),
            final(self).failed == old(self).failed + (if ok {
                0int
            } else {
                1
            }),
            first_failure == (!ok && old(self).failed == 0),
    {
        self.num_requests = self.num_requests + 1;
        if ok {
            self.successful = self.successful + 1;
            false
        } else {
            let first: bool = self.failed == 0;
            self.failed = self.failed + 1;
            first
        }
    }

    /// A batch of texts was answered with `rows` rows, or not at all.
    pub fn on_batch(&mut self, texts: usize, rows: Option<usize>)
        requires
            old(self).num_requests < usize::MAX,
            rows matches Some(n) ==> old(self).successful + n <= usize::MAX,
            rows is None ==> old(self).failed + texts <= usize::MAX,
        ensures
            final(self).num_requests == old(self).num_requests + 1,
            match rows {
                Some(n) => final(self).successful == old(self).successful + n && final(self).failed
                    == old(self).failed,
                None => final(self).failed == old(self).failed + texts && final(self).successful
                    == old(self).successful,
            },
    {
        self.num_requests = self.num_requests + 1;
        match rows {
            Some(n) => {
                self.successful = self.successful + n;
            },
            None => {
                self.failed = self.failed + texts;
            },
        }
    }

    /// Whether to tell how far the run has come, after a text: at every
    /// thousandth.
    pub fn text_progress(&self) -> (r: bool)
        requires
            self.answered() <= usize::MAX,
        ensures
            r == (self.answered() % 1000 == 0),
    {
        (self.successful + self.failed) % 1000 == 0
    }

    /// Whether to tell how far the run has come, after a batch: at every tenth.
    pub fn batch_progress(&self) -> (r: bool)
        ensures
            r == (self.num_requests % 10 == 0),
    {
        self.num_requests % 10 == 0
    }
}

/// How many rows an answer holds: nothing when it ends without a batch, and the
/// fault when it cannot be read.
pub fn answered_rows(read: Result<usize, ReadFault>) -> (r: Result<Option<usize>, ReadFault>)
    ensures
        match read {
            Ok(n) => r == Ok::<Option<usize>, ReadFault>(Some(n)),
            Err(ReadFault::NoBatch) => r == Ok::<Option<usize>, ReadFault>(None),
            Err(fault) => r == Err::<Option<usize>, ReadFault>(fault),
        },
{
    match read {
        Ok(n) => Ok(Some(n)),
        Err(ReadFault::NoBatch) => Ok(None),
        Err(fault) => Err(fault),
    }
}

/// How many rows the answer in `ipc` holds, by its first batch.
pub fn read_answer(ipc: &[u8]) -> (r: Result<Option<usize>, ReadFault>)
    ensures
        match row_count(ipc@) {
            Ok(rows) => r matches Ok(Some(n)) && n == rows,
            Err(ReadFaultView::NoBatch) => r matches Ok(None),
            Err(fault) => r matches Err(f) && f@ == fault,
        },
        r matches Ok(Some(n)) ==> (first_batch(ipc@) matches Ok(columns) && (columns.len() > 0 ==> n
            == column_len(columns[0].1))),
{
    answered_rows(batch_row_count(ipc))
}

/// An endpoint is connected to with encryption exactly when it begins with
/// `https://`.
pub proof fn law_https_is_encrypted(host: Seq<char>, endpoint: Seq<char>)
    ensures
        wants_tls("https://"@ + host),
        wants_tls(endpoint) <==> endpoint.len() >= "https://"@.len() && endpoint.take(
            "https://"@.len() as int,
        ) == "https://"@,
{
    crate::text::law_prefixes_are_taken_off(host, "https://"@);
    crate::text::law_prefixes_are_taken_off(endpoint, "https://"@);
    if wants_tls(endpoint) {
        let rest = strip_prefix(endpoint, "https://"@)->0;
        assert(endpoint.take("https://"@.len() as int) =~= "https://"@);
    }
}

} // verus!
