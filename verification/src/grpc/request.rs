//! The Arrow batch request and its options.

use vstd::prelude::*;

verus! {

/// How a request says where it should go.
#[derive(Debug, Clone, PartialEq)]
pub enum Routing {
    /// To the instance of this name.
    InstanceName(String),
    /// To any running instance that serves this model.
    ModelId(String),
    /// To the instance at this position; not offered yet.
    InstanceIndex(u32),
}

/// Where a request should go.
#[derive(Debug, Clone, PartialEq)]
pub struct Target {
    pub routing: Option<Routing>,
}

/// A routing as a mathematical value.
pub enum RoutingView {
    InstanceName(Seq<char>),
    ModelId(Seq<char>),
    InstanceIndex(u32),
}

impl View for Routing {
    type V = RoutingView;

    open spec fn view(&self) -> RoutingView {
        match *self {
            Routing::InstanceName(s) => RoutingView::InstanceName(s@),
            Routing::ModelId(s) => RoutingView::ModelId(s@),
            Routing::InstanceIndex(i) => RoutingView::InstanceIndex(i),
        }
    }
}

impl View for Target {
    type V = Option<RoutingView>;

    open spec fn view(&self) -> Option<RoutingView> {
        match self.routing {
            Some(r) => Some(r@),
            None => None,
        }
    }
}

/// A request's target, if it has one.
pub open spec fn target_view(t: Option<Target>) -> Option<Option<RoutingView>> {
    match t {
        Some(t) => Some(t@),
        None => None,
    }
}

/// An optional text.
pub open spec fn option_text(s: Option<String>) -> Option<Seq<char>> {
    match s {
        Some(s) => Some(s@),
        None => None,
    }
}

/// One batch of texts to embed, with the options for doing so. On a stream the
/// options of the first request hold for all.
#[derive(Debug, Clone)]
pub struct EmbedArrowRequest {
    pub target: Option<Target>,
    /// The texts, as an Arrow IPC stream.
    pub arrow_ipc: Vec<u8>,
    pub truncate: bool,
    pub normalize: bool,
    pub truncation_direction: i32,
    pub prompt_name: Option<String>,
    pub dimensions: Option<u32>,
    /// Make rows up instead of asking a backend.
    pub noop: bool,
    pub compression: i32,
    pub output_dtype: i32,
    pub max_concurrent_batches: u32,
}

/// The options applied to every row of a job.
#[derive(Debug, Clone)]
pub struct EmbedArrowOptions {
    pub truncate: bool,
    pub normalize: bool,
    pub truncation_direction: i32,
    pub prompt_name: Option<String>,
    pub dimensions: Option<u32>,
}

/// What a backend is asked for one row.
#[derive(Debug, Clone)]
pub struct EmbedRequest {
    pub inputs: String,
    pub truncate: bool,
    pub normalize: Option<bool>,
    pub truncation_direction: i32,
    pub prompt_name: Option<String>,
    pub dimensions: Option<u32>,
}

/// A request for the sparse vectors of a batch of texts.
#[derive(Debug, Clone)]
pub struct EmbedSparseArrowRequest {
    pub target: Option<Target>,
    pub arrow_ipc: Vec<u8>,
    pub truncate: bool,
    pub truncation_direction: i32,
    pub prompt_name: Option<String>,
    /// Make rows up instead of asking a backend.
    pub noop: bool,
    pub compression: i32,
}

/// What a backend is asked for the sparse vector of one text.
#[derive(Debug, Clone)]
pub struct EmbedSparseRequest {
    pub inputs: String,
    pub truncate: bool,
    pub truncation_direction: i32,
    pub prompt_name: Option<String>,
}

impl EmbedSparseArrowRequest {
    /// The backend request for one row's text.
    pub fn build(&self, text: &str) -> (r: EmbedSparseRequest)
        ensures
            r.inputs@ == text@,
            r.truncate == self.truncate,
            r.truncation_direction == self.truncation_direction,
            option_text(r.prompt_name) == option_text(self.prompt_name),
    {
        EmbedSparseRequest {
            inputs: text.to_owned(),
            truncate: self.truncate,
            truncation_direction: self.truncation_direction,
            prompt_name: clone_text(&self.prompt_name),
        }
    }
}

impl EmbedArrowOptions {
    /// The options that `req` carries.
    pub fn from_request(req: &EmbedArrowRequest) -> (o: Self)
        ensures
            o.truncate == req.truncate,
            o.normalize == req.normalize,
            o.truncation_direction == req.truncation_direction,
            option_text(o.prompt_name) == option_text(req.prompt_name),
            o.dimensions == req.dimensions,
    {
        EmbedArrowOptions {
            truncate: req.truncate,
            normalize: req.normalize,
            truncation_direction: req.truncation_direction,
            prompt_name: clone_text(&req.prompt_name),
            dimensions: req.dimensions,
        }
    }

    /// The backend request for one row's text.
    pub fn build(&self, text: &str) -> (r: EmbedRequest)
        ensures
            r.inputs@ == text@,
            r.truncate == self.truncate,
            r.normalize == Some(self.normalize),
            r.truncation_direction == self.truncation_direction,
            option_text(r.prompt_name) == option_text(self.prompt_name),
            r.dimensions == self.dimensions,
    {
        EmbedRequest {
            inputs: text.to_owned(),
            truncate: self.truncate,
            normalize: Some(self.normalize),
            truncation_direction: self.truncation_direction,
            prompt_name: clone_text(&self.prompt_name),
            dimensions: self.dimensions,
        }
    }
}

/// A copy of an optional text.
pub(crate) fn clone_text(s: &Option<String>) -> (r: Option<String>)
    ensures
        r == *s,
{
    match s {
        Some(s) => Some(s.clone()),
        None => None,
    }
}

fn same_text(a: &Option<String>, b: &Option<String>) -> (r: bool)
    ensures
        r == (option_text(*a) == option_text(*b)),
{
    match (a, b) {
        (Some(a), Some(b)) => *a == *b,
        (None, None) => true,
        _ => false,
    }
}

fn same_target(a: &Option<Target>, b: &Option<Target>) -> (r: bool)
    ensures
        r == (target_view(*a) == target_view(*b)),
{
    match (a, b) {
        (Some(a), Some(b)) => match (&a.routing, &b.routing) {
            (Some(Routing::InstanceName(a)), Some(Routing::InstanceName(b))) => *a == *b,
            (Some(Routing::ModelId(a)), Some(Routing::ModelId(b))) => *a == *b,
            (Some(Routing::InstanceIndex(a)), Some(Routing::InstanceIndex(b))) => *a == *b,
            (None, None) => true,
            _ => false,
        },
        (None, None) => true,
        _ => false,
    }
}

/// `name` alone if `set`, else nothing.
pub open spec fn named_if(set: bool, name: &str) -> Seq<Seq<char>> {
    if set {
        seq![name@]
    } else {
        Seq::empty()
    }
}

/// The names of the options that `req` sets to something else than `pinned`
/// does. A plain value left at its default counts as unset, since the two
/// cannot be told apart.
pub open spec fn ignored_options(pinned: EmbedArrowRequest, req: EmbedArrowRequest) -> Seq<
    Seq<char>,
> {
    named_if(req.target is Some && target_view(req.target) != target_view(pinned.target), "target")
        + named_if(req.truncate && !pinned.truncate, "truncate") + named_if(
        req.normalize && !pinned.normalize,
        "normalize",
    ) + named_if(req.noop && !pinned.noop, "noop") + named_if(
        req.truncation_direction != 0 && req.truncation_direction != pinned.truncation_direction,
        "truncation_direction",
    ) + named_if(
        req.prompt_name is Some && option_text(req.prompt_name) != option_text(pinned.prompt_name),
        "prompt_name",
    ) + named_if(
        req.dimensions is Some && req.dimensions != pinned.dimensions,
        "dimensions",
    ) + named_if(
        req.compression != 0 && req.compression != pinned.compression,
        "compression",
    ) + named_if(
        req.output_dtype != 0 && req.output_dtype != pinned.output_dtype,
        "output_dtype",
    ) + named_if(
        req.max_concurrent_batches != 0 && req.max_concurrent_batches
            != pinned.max_concurrent_batches,
        "max_concurrent_batches",
    )
}

/// The texts behind a list of string slices.
pub open spec fn names_view(names: Seq<&'static str>) -> Seq<Seq<char>> {
    Seq::new(names.len(), |i: int| names[i]@)
}

fn name_if(names: &mut Vec<&'static str>, set: bool, name: &'static str)
    ensures
        names_view(final(names)@) == names_view(old(names)@) + named_if(set, name),
{
    if set {
        names.push(name);
    }
    assert(names_view(names@) =~= names_view(old(names)@) + named_if(set, name));
}

/// The names of the option fields that a later request of a stream sets to
/// something other than the first request did.
pub fn ignored_option_fields(pinned: &EmbedArrowRequest, req: &EmbedArrowRequest) -> (names: Vec<
    &'static str,
>)
    ensures
        names_view(names@) == ignored_options(*pinned, *req),
        req.truncate && !pinned.truncate ==> names_view(names@).contains("truncate"@),
        req.normalize && !pinned.normalize ==> names_view(names@).contains("normalize"@),
{
    proof {
        law_changed_options_are_named(*pinned, *req);
    }
    let mut ignored: Vec<&'static str> = Vec::new();
    assert(names_view(ignored@) =~= Seq::<Seq<char>>::empty());
    let target_set: bool = match &req.target {
        Some(_) => true,
        None => false,
    };
    name_if(&mut ignored, target_set && !same_target(&req.target, &pinned.target), "target");
    assert(names_view(ignored@) =~= named_if(
        req.target is Some && target_view(req.target) != target_view(pinned.target),
        "target",
    ));
    name_if(&mut ignored, req.truncate && !pinned.truncate, "truncate");
    name_if(&mut ignored, req.normalize && !pinned.normalize, "normalize");
    name_if(&mut ignored, req.noop && !pinned.noop, "noop");
    name_if(
        &mut ignored,
        req.truncation_direction != 0 && req.truncation_direction != pinned.truncation_direction,
        "truncation_direction",
    );
    name_if(
        &mut ignored,
        req.prompt_name.is_some() && !same_text(&req.prompt_name, &pinned.prompt_name),
        "prompt_name",
    );
    let dimensions_differ: bool = match (req.dimensions, pinned.dimensions) {
        (Some(a), Some(b)) => a != b,
        (Some(_), None) => true,
        _ => false,
    };
    name_if(&mut ignored, dimensions_differ, "dimensions");
    name_if(
        &mut ignored,
        req.compression != 0 && req.compression != pinned.compression,
        "compression",
    );
    name_if(
        &mut ignored,
        req.output_dtype != 0 && req.output_dtype != pinned.output_dtype,
        "output_dtype",
    );
    name_if(
        &mut ignored,
        req.max_concurrent_batches != 0 && req.max_concurrent_batches
            != pinned.max_concurrent_batches,
        "max_concurrent_batches",
    );
    ignored
}

/// Nothing is ignored of a request that repeats the options of the first, nor
/// of one that sets no option at all.
pub proof fn law_repeated_or_unset_options_are_not_ignored(
    pinned: EmbedArrowRequest,
    req: EmbedArrowRequest,
)
    requires
        ({
            &&& req.target is None || target_view(req.target) == target_view(pinned.target)
            &&& req.truncate ==> pinned.truncate
            &&& req.normalize ==> pinned.normalize
            &&& req.noop ==> pinned.noop
            &&& req.truncation_direction == 0 || req.truncation_direction
                == pinned.truncation_direction
            &&& req.prompt_name is None || option_text(req.prompt_name) == option_text(
                pinned.prompt_name,
            )
            &&& req.dimensions is None || req.dimensions == pinned.dimensions
            &&& req.compression == 0 || req.compression == pinned.compression
            &&& req.output_dtype == 0 || req.output_dtype == pinned.output_dtype
            &&& req.max_concurrent_batches == 0 || req.max_concurrent_batches
                == pinned.max_concurrent_batches
        }),
    ensures
        ignored_options(pinned, req) == Seq::<Seq<char>>::empty(),
{
    assert(ignored_options(pinned, req) =~= Seq::<Seq<char>>::empty());
}

/// One where something is so, and else none.
pub open spec fn one_if(b: bool) -> nat {
    if b {
        1
    } else {
        0
    }
}

/// What a part of a list holds, the whole holds.
proof fn lemma_either(a: Seq<Seq<char>>, b: Seq<Seq<char>>)
    ensures
        forall|x: Seq<char>| #[trigger] a.contains(x) ==> (a + b).contains(x),
        forall|x: Seq<char>| #[trigger] b.contains(x) ==> (a + b).contains(x),
        (a + b).len() == a.len() + b.len(),
{
    assert forall|x: Seq<char>| #[trigger] a.contains(x) implies (a + b).contains(x) by {
        let k = choose|k: int| 0 <= k < a.len() && a[k] == x;
        assert((a + b)[k] == x);
    }
    assert forall|x: Seq<char>| #[trigger] b.contains(x) implies (a + b).contains(x) by {
        let k = choose|k: int| 0 <= k < b.len() && b[k] == x;
        assert((a + b)[a.len() + k] == x);
    }
}

/// Each option that a later request sets to something other than the first did is
/// named, and no other is.
pub proof fn law_changed_options_are_named(pinned: EmbedArrowRequest, req: EmbedArrowRequest)
    ensures
        ({
            let names = ignored_options(pinned, req);
            let target = req.target is Some && target_view(req.target) != target_view(
                pinned.target,
            );
            let truncate = req.truncate && !pinned.truncate;
            let normalize = req.normalize && !pinned.normalize;
            let noop = req.noop && !pinned.noop;
            let direction = req.truncation_direction != 0 && req.truncation_direction
                != pinned.truncation_direction;
            let prompt = req.prompt_name is Some && option_text(req.prompt_name) != option_text(
                pinned.prompt_name,
            );
            let dimensions = req.dimensions is Some && req.dimensions != pinned.dimensions;
            let compression = req.compression != 0 && req.compression != pinned.compression;
            let dtype = req.output_dtype != 0 && req.output_dtype != pinned.output_dtype;
            let concurrency = req.max_concurrent_batches != 0 && req.max_concurrent_batches
                != pinned.max_concurrent_batches;
            &&& target ==> names.contains("target"@)
            &&& truncate ==> names.contains("truncate"@)
            &&& normalize ==> names.contains("normalize"@)
            &&& noop ==> names.contains("noop"@)
            &&& direction ==> names.contains("truncation_direction"@)
            &&& prompt ==> names.contains("prompt_name"@)
            &&& dimensions ==> names.contains("dimensions"@)
            &&& compression ==> names.contains("compression"@)
            &&& dtype ==> names.contains("output_dtype"@)
            &&& concurrency ==> names.contains("max_concurrent_batches"@)
            &&& names.len() == one_if(target) + one_if(truncate) + one_if(normalize) + one_if(noop)
                + one_if(direction) + one_if(prompt) + one_if(dimensions) + one_if(compression)
                + one_if(dtype) + one_if(concurrency)
        }),
{
    let a = named_if(
        req.target is Some && target_view(req.target) != target_view(pinned.target),
        "target",
    );
    let b = named_if(req.truncate && !pinned.truncate, "truncate");
    let c = named_if(req.normalize && !pinned.normalize, "normalize");
    let d = named_if(req.noop && !pinned.noop, "noop");
    let e = named_if(
        req.truncation_direction != 0 && req.truncation_direction != pinned.truncation_direction,
        "truncation_direction",
    );
    let f = named_if(
        req.prompt_name is Some && option_text(req.prompt_name) != option_text(pinned.prompt_name),
        "prompt_name",
    );
    let g = named_if(
        req.dimensions is Some && req.dimensions != pinned.dimensions,
        "dimensions",
    );
    let h = named_if(
        req.compression != 0 && req.compression != pinned.compression,
        "compression",
    );
    let i = named_if(
        req.output_dtype != 0 && req.output_dtype != pinned.output_dtype,
        "output_dtype",
    );
    let j = named_if(
        req.max_concurrent_batches != 0 && req.max_concurrent_batches
            != pinned.max_concurrent_batches,
        "max_concurrent_batches",
    );
    lemma_either(a, b);
    lemma_either(a + b, c);
    lemma_either(a + b + c, d);
    lemma_either(a + b + c + d, e);
    lemma_either(a + b + c + d + e, f);
    lemma_either(a + b + c + d + e + f, g);
    lemma_either(a + b + c + d + e + f + g, h);
    lemma_either(a + b + c + d + e + f + g + h, i);
    lemma_either(a + b + c + d + e + f + g + h + i, j);
    lemma_named(req.target is Some && target_view(req.target) != target_view(pinned.target), "target");
    lemma_named(req.truncate && !pinned.truncate, "truncate");
    lemma_named(req.normalize && !pinned.normalize, "normalize");
    lemma_named(req.noop && !pinned.noop, "noop");
    lemma_named(
        req.truncation_direction != 0 && req.truncation_direction != pinned.truncation_direction,
        "truncation_direction",
    );
    lemma_named(
        req.prompt_name is Some && option_text(req.prompt_name) != option_text(pinned.prompt_name),
        "prompt_name",
    );
    lemma_named(req.dimensions is Some && req.dimensions != pinned.dimensions, "dimensions");
    lemma_named(req.compression != 0 && req.compression != pinned.compression, "compression");
    lemma_named(req.output_dtype != 0 && req.output_dtype != pinned.output_dtype, "output_dtype");
    lemma_named(
        req.max_concurrent_batches != 0 && req.max_concurrent_batches
            != pinned.max_concurrent_batches,
        "max_concurrent_batches",
    );
}

/// A name that is set is there, alone.
proof fn lemma_named(set: bool, name: &str)
    ensures
        set ==> named_if(set, name).contains(name@),
        named_if(set, name).len() == one_if(set),
{
    if set {
        assert(named_if(set, name)[0] == name@);
    }
}

} // verus!
