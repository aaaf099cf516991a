//! The frames of an Arrow IPC stream: where its messages lie, and whether the
//! first record batch, and the dictionaries before it, keep to the messages that
//! they came in. Arrow's own reader relies on that.

use arrow::ipc::{root_as_message, Field, MessageHeader};
use vstd::prelude::*;
use vstd::slice::slice_subrange;

verus! {

/// What a message carries.
#[derive(Debug, Clone, Copy, PartialEq, Eq, Structural)]
pub enum MessageKind {
    Schema,
    Dictionary,
    Batch,
    Other,
}

/// The header of a record batch.
#[derive(Debug)]
pub struct BatchHeader {
    /// The version of the format.
    pub version: i16,
    pub rows: i64,
    /// How many values each field has, in the order of the schema.
    pub nodes: Vec<i64>,
    /// Where each buffer begins in the body, and how long it is.
    pub buffers: Vec<(i64, i64)>,
    /// How many buffers of its own each field with views has.
    pub variadic: Vec<i64>,
    /// How buffers are compressed, if they are.
    pub codec: Option<i8>,
}

/// A header as a mathematical value.
pub struct BatchHeaderView {
    pub version: i16,
    pub rows: i64,
    pub nodes: Seq<i64>,
    pub buffers: Seq<(i64, i64)>,
    pub variadic: Seq<i64>,
    pub codec: Option<i8>,
}

impl View for BatchHeader {
    type V = BatchHeaderView;

    open spec fn view(&self) -> BatchHeaderView {
        BatchHeaderView {
            version: self.version,
            rows: self.rows,
            nodes: self.nodes@,
            buffers: self.buffers@,
            variadic: self.variadic@,
            codec: self.codec,
        }
    }
}

/// The codec number of LZ4 frames.
pub const CODEC_LZ4: i8 = 0;

/// The first version in which unions have no marks of their own.
pub const UNIONS_WITHOUT_MARKS: i16 = 4;

/// The length of a message's body, and what the message carries.
pub uninterp spec fn message_of(meta: Seq<u8>) -> Option<(i64, MessageKind)>;

/// `root_as_message`, with `Message::bodyLength` and `Message::header_type`: what
/// the metadata of a message says, which depends on the bytes alone and is named,
/// not described. Nothing when they are no message.
#[verifier::external_body]
fn read_message(meta: &[u8]) -> (r: Option<(i64, MessageKind)>)
    ensures
        r == message_of(meta@),
{
    let message = root_as_message(meta).ok()?;
    let kind = match message.header_type() {
        MessageHeader::Schema => MessageKind::Schema,
        MessageHeader::DictionaryBatch => MessageKind::Dictionary,
        MessageHeader::RecordBatch => MessageKind::Batch,
        _ => MessageKind::Other,
    };
    Some((message.bodyLength(), kind))
}

/// What reading a header gave.
pub open spec fn header_view(r: Option<BatchHeader>) -> Option<BatchHeaderView> {
    match r {
        Some(h) => Some(h@),
        None => None,
    }
}

/// The record batch header in a message's metadata.
pub uninterp spec fn batch_header_of(meta: Seq<u8>) -> Option<BatchHeaderView>;

/// `Message::header_as_record_batch` of what `root_as_message` reads: the header's
/// fields, which depend on the bytes alone and are named, not described. Nothing
/// when there is no such header, or it lacks its lists of nodes and buffers.
#[verifier::external_body]
fn read_batch_header(meta: &[u8]) -> (r: Option<BatchHeader>)
    ensures
        header_view(r) == batch_header_of(meta@),
{
    let message = root_as_message(meta).ok()?;
    let batch = message.header_as_record_batch()?;
    Some(BatchHeader {
        version: message.version().0,
        rows: batch.length(),
        nodes: batch.nodes()?.iter().map(|n| n.length()).collect(),
        buffers: batch.buffers()?.iter().map(|b| (b.offset(), b.length())).collect(),
        variadic: batch.variadicBufferCounts().into_iter().flatten().collect(),
        codec: batch.compression().map(|c| c.codec().0),
    })
}

/// A dictionary's header: its number, whether it adds to the one before, and the
/// header of its values.
pub open spec fn dictionary_view(r: Option<(i64, bool, BatchHeader)>) -> Option<
    (i64, bool, BatchHeaderView),
> {
    match r {
        Some((id, delta, h)) => Some((id, delta, h@)),
        None => None,
    }
}

/// The dictionary header in a message's metadata.
pub uninterp spec fn dictionary_header_of(meta: Seq<u8>) -> Option<(i64, bool, BatchHeaderView)>;

/// `Message::header_as_dictionary_batch` of what `root_as_message` reads, with
/// `DictionaryBatch::data`: the header's fields, which depend on the bytes alone and
/// are named, not described. Nothing when there is no such header, or it lacks its
/// data or its lists of nodes and buffers.
#[verifier::external_body]
fn read_dictionary_header(meta: &[u8]) -> (r: Option<(i64, bool, BatchHeader)>)
    ensures
        dictionary_view(r) == dictionary_header_of(meta@),
{
    let message = root_as_message(meta).ok()?;
    let dictionary = message.header_as_dictionary_batch()?;
    let batch = dictionary.data()?;
    Some((dictionary.id(), dictionary.isDelta(), BatchHeader {
        version: message.version().0,
        rows: batch.length(),
        nodes: batch.nodes()?.iter().map(|n| n.length()).collect(),
        buffers: batch.buffers()?.iter().map(|b| (b.offset(), b.length())).collect(),
        variadic: batch.variadicBufferCounts().into_iter().flatten().collect(),
        codec: batch.compression().map(|c| c.codec().0),
    }))
}

/// What a schema says of a field.
#[derive(Debug, Clone, Copy, PartialEq, Eq)]
pub struct Shape {
    /// The number of its type.
    pub tag: u8,
    /// How many fields it has itself.
    pub children: usize,
    /// The number of its dictionary and the bits of an index into it, if it has one.
    pub dictionary: Option<(i64, i32)>,
}

/// What a schema says of the type of a field.
#[derive(Debug, Clone, Copy, PartialEq, Eq)]
pub struct Size {
    /// The bits of an integer, the bytes of a binary value of one size, or the length
    /// of a list of one length.
    pub size: i32,
    /// Whether it is an integer with a sign.
    pub signed: bool,
}

/// The numbers of types.
pub const TAG_NULL: u8 = 1;

pub const TAG_INT: u8 = 2;

pub const TAG_BINARY: u8 = 4;

pub const TAG_UTF8: u8 = 5;

pub const TAG_LIST: u8 = 12;

pub const TAG_STRUCT: u8 = 13;

pub const TAG_UNION: u8 = 14;

pub const TAG_FIXED_SIZE_BINARY: u8 = 15;

pub const TAG_FIXED_SIZE_LIST: u8 = 16;

pub const TAG_MAP: u8 = 17;

pub const TAG_LARGE_BINARY: u8 = 19;

pub const TAG_LARGE_UTF8: u8 = 20;

pub const TAG_LARGE_LIST: u8 = 21;

pub const TAG_RUNS: u8 = 22;

pub const TAG_BINARY_VIEW: u8 = 23;

pub const TAG_UTF8_VIEW: u8 = 24;

pub const TAG_LIST_VIEW: u8 = 25;

pub const TAG_LARGE_LIST_VIEW: u8 = 26;

/// The mode of a union whose fields hold only the values that are theirs.
pub const MODE_DENSE: i16 = 1;

/// The most fields that a union numbers by itself.
pub const MAX_UNION_FIELDS: usize = 128;

/// What listing shapes gave.
pub open spec fn shapes_view(r: Option<Vec<Shape>>) -> Option<Seq<Shape>> {
    match r {
        Some(v) => Some(v@),
        None => None,
    }
}

/// What listing sizes gave.
pub open spec fn sizes_view(r: Option<Vec<Size>>) -> Option<Seq<Size>> {
    match r {
        Some(v) => Some(v@),
        None => None,
    }
}

/// What listing unions gave.
pub open spec fn unions_view(r: Option<Vec<Option<(i16, bool)>>>) -> Option<
    Seq<Option<(i16, bool)>>,
> {
    match r {
        Some(v) => Some(v@),
        None => None,
    }
}

/// The shapes of the fields of the schema in a message's metadata, each followed by
/// those of the fields inside it.
pub uninterp spec fn shapes_of(meta: Seq<u8>) -> Option<Seq<Shape>>;

/// `Message::header_as_schema` of what `root_as_message` reads, with
/// `Field::type_type`, `Field::children` and `Field::dictionary` of its fields at
/// every depth, a field before those inside it. What they say depends on the bytes
/// alone and is named, not described. Nothing when there is no schema, or it lacks
/// its list of fields.
#[verifier::external_body]
fn list_shapes(meta: &[u8]) -> (r: Option<Vec<Shape>>)
    ensures
        shapes_view(r) == shapes_of(meta@),
{
    let message = root_as_message(meta).ok()?;
    let mut left: Vec<Field> = message.header_as_schema()?.fields()?.iter().rev().collect();
    Some(std::iter::from_fn(|| {
        let f = left.pop()?;
        left.extend(f.children().into_iter().flatten().rev());
        let dictionary = f.dictionary().map(|d| {
            (d.id(), d.indexType().map(|i| i.bitWidth()).unwrap_or(0))
        });
        let children = f.children().map(|c| c.len()).unwrap_or(0);
        Some(Shape { tag: f.type_type().0, children, dictionary })
    }).collect())
}

/// The sizes of the fields of the schema in a message's metadata, in the order of
/// their shapes.
pub uninterp spec fn sizes_of(meta: Seq<u8>) -> Option<Seq<Size>>;

/// `Message::header_as_schema` of what `root_as_message` reads, with
/// `Field::type_as_int`, `Field::type_as_fixed_size_binary` and
/// `Field::type_as_fixed_size_list` of its fields at every depth, a field before
/// those inside it. What they say depends on the bytes alone and is named, not
/// described. Nothing when there is no schema, or it lacks its list of fields.
#[verifier::external_body]
fn list_sizes(meta: &[u8]) -> (r: Option<Vec<Size>>)
    ensures
        sizes_view(r) == sizes_of(meta@),
{
    let message = root_as_message(meta).ok()?;
    let mut left: Vec<Field> = message.header_as_schema()?.fields()?.iter().rev().collect();
    Some(std::iter::from_fn(|| {
        let f = left.pop()?;
        left.extend(f.children().into_iter().flatten().rev());
        let size = f.type_as_int().map(|t| t.bitWidth())
            .or(f.type_as_fixed_size_binary().map(|t| t.byteWidth()))
            .or(f.type_as_fixed_size_list().map(|t| t.listSize())).unwrap_or(0);
        let signed = f.type_as_int().is_some_and(|t| t.is_signed());
        Some(Size { size, signed })
    }).collect())
}

/// The unions among the fields of the schema in a message's metadata, in the order
/// of their shapes: the mode of each, and whether it leaves it to the reader to
/// number its fields.
pub uninterp spec fn unions_of(meta: Seq<u8>) -> Option<Seq<Option<(i16, bool)>>>;

/// `Message::header_as_schema` of what `root_as_message` reads, with
/// `Field::type_as_union` of its fields at every depth, a field before those inside
/// it. What it says depends on the bytes alone and is named, not described. Nothing
/// when there is no schema, or it lacks its list of fields.
#[verifier::external_body]
fn list_unions(meta: &[u8]) -> (r: Option<Vec<Option<(i16, bool)>>>)
    ensures
        unions_view(r) == unions_of(meta@),
{
    let message = root_as_message(meta).ok()?;
    let mut left: Vec<Field> = message.header_as_schema()?.fields()?.iter().rev().collect();
    Some(std::iter::from_fn(|| {
        let f = left.pop()?;
        left.extend(f.children().into_iter().flatten().rev());
        Some(f.type_as_union().map(|t| (t.mode().0, t.typeIds().is_none())))
    }).collect())
}

/// The fields of a schema, each followed by those inside it.
pub struct TreeView {
    pub shapes: Seq<Shape>,
    pub sizes: Seq<Size>,
    pub unions: Seq<Option<(i16, bool)>>,
}

/// The fields of the schema in a message's metadata.
pub open spec fn tree_of(meta: Seq<u8>) -> Option<TreeView> {
    match (shapes_of(meta), sizes_of(meta), unions_of(meta)) {
        (Some(shapes), Some(sizes), Some(unions)) => Some(TreeView { shapes, sizes, unions }),
        _ => None,
    }
}

/// Whether Arrow can make a schema of these fields, or say what is wrong with them:
/// no union has more fields than can be numbered.
pub open spec fn convertible(t: TreeView) -> bool {
    &&& t.sizes.len() == t.shapes.len()
    &&& t.unions.len() == t.shapes.len()
    &&& forall|i: int|
        0 <= i < t.shapes.len() ==> numbers_fields(#[trigger] t.unions[i]) ==> t.shapes[i].children
            <= MAX_UNION_FIELDS
}

/// Whether a field is a union that leaves it to the reader to number its fields.
pub open spec fn numbers_fields(form: Option<(i16, bool)>) -> bool {
    form matches Some(u) && u.1
}

/// Whether a field is a union whose fields hold only the values that are theirs.
pub open spec fn is_dense(form: Option<(i16, bool)>) -> bool {
    form matches Some(u) && u.0 == MODE_DENSE
}

/// The place after the next `pending` fields from `i` on and all that is inside
/// them.
pub open spec fn after(shapes: Seq<Shape>, i: int, pending: int) -> int
    decreases shapes.len() - i,
{
    if pending <= 0 || i < 0 || i >= shapes.len() {
        i
    } else {
        after(shapes, i + 1, pending - 1 + shapes[i].children)
    }
}

/// Whether a type has fields of its own that are read.
pub open spec fn is_nested(tag: u8) -> bool {
    ||| tag == TAG_LIST
    ||| tag == TAG_STRUCT
    ||| tag == TAG_UNION
    ||| tag == TAG_FIXED_SIZE_LIST
    ||| tag == TAG_MAP
    ||| tag == TAG_LARGE_LIST
    ||| tag == TAG_RUNS
    ||| tag == TAG_LIST_VIEW
    ||| tag == TAG_LARGE_LIST_VIEW
}

/// The number that four bytes at `p` are, the lowest first, with a sign.
pub open spec fn le32(b: Seq<u8>, p: int) -> int {
    let n = b[p] + b[p + 1] * 0x100 + b[p + 2] * 0x1_0000 + b[p + 3] * 0x100_0000;
    if n < 0x8000_0000 {
        n
    } else {
        n - 0x1_0000_0000
    }
}

/// The number that eight bytes at `p` are, the lowest first.
pub open spec fn le64(b: Seq<u8>, p: int) -> int {
    b[p] + b[p + 1] * 0x100 + b[p + 2] * 0x1_0000 + b[p + 3] * 0x100_0000 + b[p + 4]
        * 0x1_0000_0000 + b[p + 5] * 0x100_0000_0000 + b[p + 6] * 0x1_0000_0000_0000 + b[p + 7]
        * 0x100_0000_0000_0000
}

/// A message in a stream: where its metadata lies, where its body ends, and what
/// it carries. The body follows the metadata.
pub struct FrameView {
    pub start: int,
    pub meta: int,
    pub body: int,
    pub end: int,
    pub kind: MessageKind,
}

/// Whether the four bytes at `p` mark a continuation.
pub open spec fn is_marker(b: Seq<u8>, p: int) -> bool {
    b[p] == 0xff && b[p + 1] == 0xff && b[p + 2] == 0xff && b[p + 3] == 0xff
}

/// The message at `p`. Nothing when the stream ends there, or is cut short or
/// malformed.
pub open spec fn frame_at(ipc: Seq<u8>, p: int) -> Option<FrameView> {
    if p < 0 || p + 4 > ipc.len() {
        None
    } else {
        let q = if is_marker(ipc, p) {
            p + 4
        } else {
            p
        };
        if q + 4 > ipc.len() || le32(ipc, q) <= 0 || q + 4 + le32(ipc, q) > ipc.len() {
            None
        } else {
            let body = q + 4 + le32(ipc, q);
            match message_of(ipc.subrange(q + 4, body)) {
                None => None,
                Some((len, kind)) => if len < 0 || body + len > ipc.len() {
                    None
                } else {
                    Some(FrameView { start: p, meta: q + 4, body, end: body + len, kind })
                },
            }
        }
    }
}

/// The first record batch message from `p` on, past dictionaries only.
pub open spec fn batch_frame(ipc: Seq<u8>, p: int) -> Option<FrameView>
    decreases ipc.len() - p,
{
    match frame_at(ipc, p) {
        None => None,
        Some(f) => match f.kind {
            MessageKind::Batch => Some(f),
            MessageKind::Dictionary => batch_frame(ipc, f.end),
            _ => None,
        },
    }
}

/// The first record batch of a stream: its header and its body.
pub struct FoundView {
    pub header: BatchHeaderView,
    pub body: Seq<u8>,
}

/// The message with the schema, which is the first.
pub open spec fn schema_frame(ipc: Seq<u8>) -> Option<FrameView> {
    match frame_at(ipc, 0) {
        Some(s) if s.kind == MessageKind::Schema => Some(s),
        _ => None,
    }
}

/// The fields of a stream.
pub open spec fn stream_tree(ipc: Seq<u8>) -> Option<TreeView> {
    match schema_frame(ipc) {
        Some(s) => tree_of(ipc.subrange(s.meta, s.body)),
        None => None,
    }
}

/// The first record batch in a stream, past dictionaries, if there is any.
pub open spec fn found(ipc: Seq<u8>) -> Option<FoundView> {
    match schema_frame(ipc) {
        Some(s) => match batch_frame(ipc, s.end) {
            Some(f) => match batch_header_of(ipc.subrange(f.meta, f.body)) {
                Some(header) => Some(FoundView { header, body: ipc.subrange(f.body, f.end) }),
                None => None,
            },
            None => None,
        },
        None => None,
    }
}

/// Whether the buffers of the first record batch are LZ4 frames.
pub open spec fn lz4_frames(ipc: Seq<u8>) -> bool {
    found(ipc) matches Some(f) && f.header.codec == Some(CODEC_LZ4)
}

/// How long a buffer is once it is no longer compressed. A compressed one says so
/// in its first eight bytes: all ones when it was left as it is.
pub open spec fn plain_len(body: Seq<u8>, buffer: (i64, i64), compressed: bool) -> int {
    if !compressed || buffer.1 == 0 {
        buffer.1 as int
    } else if buffer.1 < 8 {
        0
    } else if le64(body, buffer.0 as int) == u64::MAX {
        buffer.1 - 8
    } else {
        le64(body, buffer.0 as int)
    }
}

/// How many bytes one byte can stand for: LZ4 makes no more than 255 of it, and
/// Zstandard, whose blocks take four bytes and hold 128 KiB, no more than 0x8000.
pub open spec fn growth(codec: Option<i8>) -> int {
    match codec {
        None => 1,
        Some(c) => if c == CODEC_LZ4 {
            0x100
        } else {
            0x8000
        },
    }
}

/// Whether a buffer lies in the body, and does not claim to hold more than its
/// bytes can stand for.
pub open spec fn in_body(body: Seq<u8>, buffer: (i64, i64), codec: Option<i8>) -> bool {
    &&& 0 <= buffer.0
    &&& 0 <= buffer.1
    &&& buffer.0 + buffer.1 <= body.len()
    &&& plain_len(body, buffer, codec is Some) <= growth(codec) * buffer.1
}

/// Whether buffer `k`, if there is such a one, lies in the body.
pub open spec fn buffer_fits(f: FoundView, k: int) -> bool {
    k < f.header.buffers.len() ==> in_body(f.body, f.header.buffers[k], f.header.codec)
}

/// Whether buffer `k`, if there is such a one, holds a whole number of items of
/// this width.
pub open spec fn whole_items(f: FoundView, k: int, width: int) -> bool {
    k < f.header.buffers.len() ==> plain_len(f.body, f.header.buffers[k], f.header.codec is Some)
        % width == 0
}

/// Whether buffer `k`, if there is such a one, holds at least `n` bytes.
pub open spec fn holds_bytes(f: FoundView, k: int, n: int) -> bool {
    k < f.header.buffers.len() ==> n <= plain_len(
        f.body,
        f.header.buffers[k],
        f.header.codec is Some,
    )
}

/// Whether the bytes of buffer `k`, if there is such a one, are read where they lie,
/// at a multiple of four. Arrow takes them for numbers without moving them, and
/// panics where they lie elsewhere. Bytes that it unpacks lie where the allocator
/// puts them.
pub open spec fn lies_even(f: FoundView, k: int) -> bool {
    k < f.header.buffers.len() ==> {
        let buffer = f.header.buffers[k];
        &&& buffer.0 % 4 == 0
        &&& f.header.codec is None || buffer.1 == 0 || (buffer.1 >= 8 && le64(
            f.body,
            buffer.0 as int,
        ) == u64::MAX)
    }
}

/// The most values that a field may have whose values take no room of their own:
/// as many as LZ4 can make bits of the body, or as many as 32 bits with a sign
/// count.
pub open spec fn room(f: FoundView) -> int {
    if 0x800 * f.body.len() < i32::MAX {
        i32::MAX as int
    } else {
        0x800 * f.body.len() as int
    }
}

/// How many values the field of node `m` has.
pub open spec fn values(f: FoundView, m: int) -> int {
    if 0 <= m < f.header.nodes.len() {
        f.header.nodes[m] as int
    } else {
        0
    }
}

/// How the data of a field is laid out in buffers.
pub struct Layout {
    /// How many buffers.
    pub buffers: int,
    /// The width of the items of the second.
    pub second: int,
    /// The width of the items of the third.
    pub third: int,
}

/// How many bytes an integer of so many bits takes.
pub open spec fn byte_width(bits: i32) -> int {
    if bits == 16 {
        2
    } else if bits == 32 {
        4
    } else if bits == 64 {
        8
    } else {
        1
    }
}

/// How the values of a type are laid out that takes buffers, apart from views.
pub open spec fn layout(f: FoundView, tag: u8, dense: bool) -> Layout {
    if tag == TAG_RUNS {
        Layout { buffers: 0, second: 1, third: 1 }
    } else if tag == TAG_STRUCT || tag == TAG_FIXED_SIZE_LIST {
        Layout { buffers: 1, second: 1, third: 1 }
    } else if tag == TAG_BINARY || tag == TAG_UTF8 {
        Layout { buffers: 3, second: 4, third: 1 }
    } else if tag == TAG_LARGE_BINARY || tag == TAG_LARGE_UTF8 {
        Layout { buffers: 3, second: 8, third: 1 }
    } else if tag == TAG_LIST || tag == TAG_MAP {
        Layout { buffers: 2, second: 4, third: 1 }
    } else if tag == TAG_LARGE_LIST {
        Layout { buffers: 2, second: 8, third: 1 }
    } else if tag == TAG_LIST_VIEW {
        Layout { buffers: 3, second: 4, third: 4 }
    } else if tag == TAG_LARGE_LIST_VIEW {
        Layout { buffers: 3, second: 8, third: 8 }
    } else if tag == TAG_UNION {
        Layout {
            buffers: union_marks(f) + (if dense {
                2int
            } else {
                1int
            }),
            second: 1,
            third: 1,
        }
    } else {
        Layout { buffers: 2, second: 1, third: 1 }
    }
}

/// How many buffers with marks a union has.
pub open spec fn union_marks(f: FoundView) -> int {
    if f.header.version < UNIONS_WITHOUT_MARKS {
        1
    } else {
        0
    }
}

/// Whether a type holds views.
pub open spec fn has_views(tag: u8) -> bool {
    tag == TAG_BINARY_VIEW || tag == TAG_UTF8_VIEW
}

/// What else must hold of a field of this type: sizes are not negative, values that
/// take no room are not too many, the items of lists of one length can be counted,
/// ends of runs are whole numbers, and a union has a type for each value, and an
/// offset that can be read.
pub open spec fn type_fits(t: TreeView, f: FoundView, i: int, m: int, b: int) -> bool {
    let tag = t.shapes[i].tag;
    let size = t.sizes[i].size;
    if tag == TAG_FIXED_SIZE_BINARY {
        size >= 0
    } else if tag == TAG_STRUCT {
        0 <= values(f, m) <= room(f)
    } else if tag == TAG_FIXED_SIZE_LIST {
        0 <= values(f, m) <= room(f) && values(f, m) * size <= usize::MAX
    } else if tag == TAG_RUNS {
        &&& 0 <= values(f, m) <= room(f)
        &&& i + 1 < t.shapes.len() && t.shapes[i + 1].tag == TAG_INT ==> buffer_fits(f, b + 1)
            && whole_items(f, b + 1, byte_width(t.sizes[i + 1].size))
    } else if tag == TAG_UNION {
        let ids = b + union_marks(f);
        &&& 0 <= values(f, m)
        &&& holds_bytes(f, ids, values(f, m))
        &&& is_dense(t.unions[i]) ==> holds_bytes(f, ids + 1, 4 * values(f, m)) && lies_even(
            f,
            ids + 1,
        )
    } else {
        true
    }
}

/// Whether a field keeps to its buffers, `taken` of them from `b` on.
pub open spec fn field_fits(
    f: FoundView,
    b: int,
    taken: int,
    second: int,
    third: int,
) -> bool {
    &&& forall|k: int| b <= k < b + taken ==> #[trigger] buffer_fits(f, k)
    &&& taken >= 2 ==> whole_items(f, b + 1, second)
    &&& taken >= 3 ==> whole_items(f, b + 2, third)
}

/// Whether an array of no values can be made of a field's type.
pub open spec fn buildable(t: TreeView, k: int) -> bool {
    let tag = t.shapes[k].tag;
    if tag == TAG_FIXED_SIZE_BINARY || tag == TAG_FIXED_SIZE_LIST {
        t.sizes[k].size >= 0
    } else if tag == TAG_MAP {
        k + 1 < t.shapes.len() && t.shapes[k + 1].tag == TAG_STRUCT && t.shapes[k + 1].children == 2
            && t.shapes[k + 1].dictionary is None
    } else if tag == TAG_RUNS {
        k + 1 < t.shapes.len() && t.shapes[k + 1].tag == TAG_INT && t.sizes[k + 1].signed
            && byte_width(t.sizes[k + 1].size) > 1 && t.shapes[k + 1].dictionary is None
    } else {
        true
    }
}

/// Whether arrays of no values can be made of the fields from `i` up to `n`.
pub open spec fn all_buildable(t: TreeView, i: int, n: int) -> bool {
    forall|k: int| i <= k < n && k < t.shapes.len() ==> #[trigger] buildable(t, k)
}

/// How many bytes an index into a field's dictionary takes.
pub open spec fn index_width(s: Shape) -> int {
    match s.dictionary {
        Some((_, bits)) => byte_width(bits),
        None => 1,
    }
}

/// Whether the fields from `i` up to `n` keep to the nodes from `m` on, the buffers
/// from `b` on and the counts of views from `v` on. Field `top` is taken for what
/// its dictionary holds.
pub open spec fn fits(
    t: TreeView,
    f: FoundView,
    top: int,
    n: int,
    i: int,
    m: int,
    b: int,
    v: int,
) -> bool
    decreases
            if i < n {
                n - i
            } else {
                0
            },
{
    if i < 0 || i >= n || i >= t.shapes.len() || b > f.header.buffers.len() {
        true
    } else {
        let s = t.shapes[i];
        let keyed = s.dictionary is Some && i != top;
        let next = if keyed || !is_nested(s.tag) {
            past(t.shapes, i)
        } else {
            i + 1
        };
        if s.tag == TAG_NULL && !keyed {
            &&& 0 <= values(f, m) <= room(f)
            &&& fits(t, f, top, n, next, m + 1, b, v)
        } else if b >= f.header.buffers.len() {
            true
        } else if keyed {
            &&& field_fits(f, b, 2, index_width(s), 1)
            &&& all_buildable(t, i, next)
            &&& fits(t, f, top, n, next, m + 1, b + 2, v)
        } else if has_views(s.tag) {
            if v < 0 || v >= f.header.variadic.len() || f.header.variadic[v] < 0 {
                true
            } else {
                let taken = 2 + f.header.variadic[v];
                &&& field_fits(f, b, taken, 16, 1)
                &&& fits(t, f, top, n, next, m + 1, b + taken, v + 1)
            }
        } else {
            let l = layout(f, s.tag, is_dense(t.unions[i]));
            &&& field_fits(f, b, l.buffers, l.second, l.third)
            &&& type_fits(t, f, i, m, b)
            &&& fits(t, f, top, n, next, m + 1, b + l.buffers, v)
        }
    }
}

/// The place after a field and all that is inside it.
pub open spec fn past(shapes: Seq<Shape>, i: int) -> int {
    let p = after(shapes, i, 1);
    if p > i {
        p
    } else {
        i + 1
    }
}

/// Whether a type holds its values in buffers of its own.
pub open spec fn is_flat(t: TreeView, i: int) -> bool {
    let tag = t.shapes[i].tag;
    !is_nested(tag) && tag != TAG_NULL && (tag == TAG_FIXED_SIZE_BINARY ==> t.sizes[i].size > 0)
}

/// Whether a dictionary keeps to its message, for each field that may use it. One
/// that adds to another has values in buffers of their own: Arrow joins others by
/// adding up their counts, and panics where a sum gets too large.
pub open spec fn dictionary_fits(t: TreeView, d: (i64, bool, BatchHeaderView), body: Seq<u8>) -> bool {
    forall|i: int|
        0 <= i < t.shapes.len() && uses(#[trigger] t.shapes[i], d.0) ==> (d.1 ==> is_flat(t, i))
            && fits(t, FoundView { header: d.2, body }, i, past(t.shapes, i), i, 0, 0, 0)
}

/// Whether a field has the dictionary of this number.
pub open spec fn uses(s: Shape, id: i64) -> bool {
    s.dictionary matches Some(d) && d.0 == id
}

/// Whether the messages from `p` on, up to the first record batch, can be read.
pub open spec fn messages_fit(ipc: Seq<u8>, p: int, t: TreeView) -> bool
    decreases ipc.len() - p,
{
    match frame_at(ipc, p) {
        None => true,
        Some(f) => {
            let meta = ipc.subrange(f.meta, f.body);
            let body = ipc.subrange(f.body, f.end);
            match f.kind {
                MessageKind::Batch => batch_header_of(meta) matches Some(header) ==> {
                    &&& 0 <= header.rows
                    &&& fits(
                        t,
                        FoundView { header, body },
                        -1,
                        t.shapes.len() as int,
                        0,
                        0,
                        0,
                        0,
                    )
                },
                MessageKind::Dictionary => {
                    &&& dictionary_header_of(meta) matches Some(d) ==> dictionary_fits(t, d, body)
                    &&& messages_fit(ipc, f.end, t)
                },
                _ => true,
            }
        },
    }
}

/// Whether Arrow can make a schema of the first message of a stream, or say what
/// is wrong with it.
pub open spec fn schema_fits(ipc: Seq<u8>) -> bool {
    stream_tree(ipc) matches Some(t) ==> convertible(t)
}

/// Whether Arrow's reader can be let loose on a stream: it can make a schema, and
/// what it then reads keeps to its messages.
pub open spec fn readable(ipc: Seq<u8>) -> bool {
    &&& schema_fits(ipc)
    &&& schema_frame(ipc) matches Some(s) ==> (stream_tree(ipc) matches Some(t) ==> messages_fit(
        ipc,
        s.end,
        t,
    ))
}

/// A message in a stream.
#[derive(Debug, Clone, Copy)]
pub struct Frame {
    pub start: usize,
    pub meta: usize,
    pub body: usize,
    pub end: usize,
    pub kind: MessageKind,
}

impl View for Frame {
    type V = FrameView;

    open spec fn view(&self) -> FrameView {
        FrameView {
            start: self.start as int,
            meta: self.meta as int,
            body: self.body as int,
            end: self.end as int,
            kind: self.kind,
        }
    }
}

/// A message, if one was found.
pub open spec fn frame_view(r: Option<Frame>) -> Option<FrameView> {
    match r {
        Some(f) => Some(f@),
        None => None,
    }
}

fn read_le32(b: &[u8], p: usize) -> (n: i64)
    requires
        p + 4 <= b@.len(),
    ensures
        n == le32(b@, p as int),
{
    let n: i64 = b[p] as i64 + b[p + 1] as i64 * 0x100 + b[p + 2] as i64 * 0x1_0000 + b[p + 3] as i64
        * 0x100_0000;
    if n < 0x8000_0000 {
        n
    } else {
        n - 0x1_0000_0000
    }
}

fn read_le64(b: &[u8], p: usize) -> (n: u64)
    requires
        p + 8 <= b@.len(),
    ensures
        n == le64(b@, p as int),
{
    b[p] as u64 + b[p + 1] as u64 * 0x100 + b[p + 2] as u64 * 0x1_0000 + b[p + 3] as u64 * 0x100_0000
        + b[p + 4] as u64 * 0x1_0000_0000 + b[p + 5] as u64 * 0x100_0000_0000 + b[p + 6] as u64
        * 0x1_0000_0000_0000 + b[p + 7] as u64 * 0x100_0000_0000_0000
}

/// Look for the message at `p`.
fn frame(ipc: &[u8], p: usize) -> (r: Option<Frame>)
    requires
        p <= ipc@.len(),
    ensures
        frame_view(r) == frame_at(ipc@, p as int),
        r matches Some(f) ==> p < f.end <= ipc@.len() && p <= f.meta <= f.body <= f.end,
{
    let len: usize = ipc.len();
    if len - p < 4 {
        return None;
    }
    let marked: bool = ipc[p] == 0xff && ipc[p + 1] == 0xff && ipc[p + 2] == 0xff && ipc[p + 3]
        == 0xff;
    let q: usize = if marked {
        p + 4
    } else {
        p
    };
    if len - q < 4 {
        return None;
    }
    let n: i64 = read_le32(ipc, q);
    if n <= 0 || n as u64 > (len - q - 4) as u64 {
        return None;
    }
    let body: usize = q + 4 + n as usize;
    match read_message(slice_subrange(ipc, q + 4, body)) {
        None => None,
        Some((size, kind)) => {
            if size < 0 || size as u64 > (len - body) as u64 {
                None
            } else {
                Some(Frame { start: p, meta: q + 4, body, end: body + size as usize, kind })
            }
        },
    }
}

/// What a header and a body are of.
pub open spec fn in_message(header: BatchHeader, body: Seq<u8>) -> FoundView {
    FoundView { header: header@, body }
}

impl BatchHeader {
    /// How many bytes one byte can stand for.
    fn growth(&self) -> (n: u64)
        ensures
            n == growth(self.codec),
            1 <= n <= 0x8000,
    {
        match self.codec {
            None => 1,
            Some(c) => if c == CODEC_LZ4 {
                0x100
            } else {
                0x8000
            },
        }
    }

    /// How long buffer `k` is once it is no longer compressed.
    fn plain_len(&self, body: &[u8], k: usize) -> (n: u64)
        requires
            k < self.buffers@.len(),
            0 <= self.buffers@[k as int].0,
            0 <= self.buffers@[k as int].1,
            self.buffers@[k as int].0 + self.buffers@[k as int].1 <= body@.len(),
        ensures
            n == plain_len(body@, self.buffers@[k as int], self.codec is Some),
    {
        let (from, len) = self.buffers[k];
        if self.codec.is_none() || len == 0 {
            return len as u64;
        }
        if len < 8 {
            return 0;
        }
        assert(from <= body.len());
        let n: u64 = read_le64(body, from as usize);
        if n == u64::MAX {
            (len - 8) as u64
        } else {
            n
        }
    }

    /// Whether buffer `k`, if there is such a one, lies in the body.
    fn buffer_fits(&self, body: &[u8], k: usize) -> (r: bool)
        ensures
            r == buffer_fits(in_message(*self, body@), k as int),
    {
        if k >= self.buffers.len() {
            return true;
        }
        let (from, len) = self.buffers[k];
        if from < 0 || len < 0 || from as u64 > body.len() as u64 || len as u64 > body.len() as u64
            - from as u64 {
            return false;
        }
        let n: u64 = self.plain_len(body, k);
        let each: u64 = self.growth();
        assert(each * len <= 0x8000 * 0x8000_0000_0000_0000) by (nonlinear_arith)
            requires
                0 <= each <= 0x8000,
                0 <= len <= 0x8000_0000_0000_0000,
        ;
        n as u128 <= each as u128 * len as u128
    }

    /// Whether buffer `k`, if there is such a one, holds a whole number of items of
    /// this width.
    fn whole_items(&self, body: &[u8], k: usize, width: u64) -> (r: bool)
        requires
            buffer_fits(in_message(*self, body@), k as int),
            width > 0,
        ensures
            r == whole_items(in_message(*self, body@), k as int, width as int),
    {
        k >= self.buffers.len() || self.plain_len(body, k) % width == 0
    }

    /// Whether buffer `k`, if there is such a one, holds at least `n` bytes.
    fn holds_bytes(&self, body: &[u8], k: usize, n: u128) -> (r: bool)
        requires
            buffer_fits(in_message(*self, body@), k as int),
        ensures
            r == holds_bytes(in_message(*self, body@), k as int, n as int),
    {
        k >= self.buffers.len() || n <= self.plain_len(body, k) as u128
    }

    /// Whether the bytes of buffer `k`, if there is such a one, are read where they
    /// lie, at a multiple of four.
    fn lies_even(&self, body: &[u8], k: usize) -> (r: bool)
        requires
            buffer_fits(in_message(*self, body@), k as int),
        ensures
            r == lies_even(in_message(*self, body@), k as int),
    {
        if k >= self.buffers.len() {
            return true;
        }
        let (from, len) = self.buffers[k];
        assert(from <= body.len());
        from % 4 == 0 && (self.codec.is_none() || len == 0 || (len >= 8 && read_le64(
            body,
            from as usize,
        ) == u64::MAX))
    }

    /// Whether `n` values that take no room of their own are not too many.
    fn has_room(body: &[u8], n: i64) -> (r: bool)
        ensures
            forall|header: BatchHeader|
                r == (0 <= n <= #[trigger] room(in_message(header, body@))),
    {
        n >= 0 && (n <= i32::MAX as i64 || n as u128 <= 0x800 * (body.len() as u128))
    }

    /// How many values the field of node `m` has.
    fn values(&self, m: usize) -> (n: i64)
        ensures
            forall|body: Seq<u8>| n == #[trigger] values(in_message(*self, body), m as int),
    {
        if m < self.nodes.len() {
            self.nodes[m]
        } else {
            0
        }
    }

    /// Whether a field keeps to its buffers, `taken` of them from `b` on.
    fn field_fits(&self, body: &[u8], b: usize, taken: u64, second: u64, third: u64) -> (r: bool)
        requires
            b < self.buffers@.len(),
            second > 0,
            third > 0,
        ensures
            r == field_fits(
                in_message(*self, body@),
                b as int,
                taken as int,
                second as int,
                third as int,
            ),
    {
        let ghost f = in_message(*self, body@);
        let total: usize = self.buffers.len();
        let end: usize = if taken >= (total - b) as u64 {
            total
        } else {
            b + taken as usize
        };
        let mut k: usize = b;
        while k < end
            invariant
                f == in_message(*self, body@),
                b <= k <= end <= total,
                end <= b + taken,
                total == self.buffers@.len(),
                forall|j: int| b <= j < k ==> #[trigger] buffer_fits(f, j),
            decreases end - k,
        {
            if !self.buffer_fits(body, k) {
                assert(!buffer_fits(f, k as int));
                return false;
            }
            k = k + 1;
        }
        assert forall|j: int| b <= j < b + taken implies #[trigger] buffer_fits(f, j) by {
            if j >= end {
                assert(j >= total);
            }
        }
        if taken >= 2 && b < total - 1 {
            assert(buffer_fits(f, b + 1));
            if !self.whole_items(body, b + 1, second) {
                return false;
            }
        }
        if taken >= 3 && total >= 2 && b < total - 2 {
            assert(buffer_fits(f, b + 2));
            if !self.whole_items(body, b + 2, third) {
                return false;
            }
        }
        true
    }
}

/// The fields of a schema, each followed by those inside it.
#[derive(Debug)]
pub struct Tree {
    pub shapes: Vec<Shape>,
    pub sizes: Vec<Size>,
    pub unions: Vec<Option<(i16, bool)>>,
}

impl View for Tree {
    type V = TreeView;

    open spec fn view(&self) -> TreeView {
        TreeView { shapes: self.shapes@, sizes: self.sizes@, unions: self.unions@ }
    }
}

/// Fields, if there are any.
pub open spec fn tree_view(r: Option<Tree>) -> Option<TreeView> {
    match r {
        Some(t) => Some(t@),
        None => None,
    }
}

/// More pending fields than there are take in all of them.
proof fn lemma_after(shapes: Seq<Shape>, i: int, pending: int)
    requires
        0 <= i <= shapes.len(),
        pending >= shapes.len() - i,
    ensures
        after(shapes, i, pending) == shapes.len(),
    decreases shapes.len() - i,
{
    if i < shapes.len() {
        lemma_after(shapes, i + 1, pending - 1 + shapes[i].children);
    }
}

fn byte_width_of(bits: i32) -> (n: u64)
    ensures
        n == byte_width(bits),
        n > 0,
{
    if bits == 16 {
        2
    } else if bits == 32 {
        4
    } else if bits == 64 {
        8
    } else {
        1
    }
}

fn nested(tag: u8) -> (r: bool)
    ensures
        r == is_nested(tag),
{
    tag == TAG_LIST || tag == TAG_STRUCT || tag == TAG_UNION || tag == TAG_FIXED_SIZE_LIST || tag
        == TAG_MAP || tag == TAG_LARGE_LIST || tag == TAG_RUNS || tag == TAG_LIST_VIEW || tag
        == TAG_LARGE_LIST_VIEW
}

/// How the values of a type are laid out: how many buffers, and the widths of the
/// items of the second and the third.
fn layout_of(header: &BatchHeader, tag: u8, dense: bool) -> (l: (u64, u64, u64))
    ensures
        forall|body: Seq<u8>|
            (#[trigger] layout(in_message(*header, body), tag, dense)) == (Layout {
                buffers: l.0 as int,
                second: l.1 as int,
                third: l.2 as int,
            }),
        l.0 <= 3,
        l.1 > 0,
        l.2 > 0,
{
    if tag == TAG_RUNS {
        (0, 1, 1)
    } else if tag == TAG_STRUCT || tag == TAG_FIXED_SIZE_LIST {
        (1, 1, 1)
    } else if tag == TAG_BINARY || tag == TAG_UTF8 {
        (3, 4, 1)
    } else if tag == TAG_LARGE_BINARY || tag == TAG_LARGE_UTF8 {
        (3, 8, 1)
    } else if tag == TAG_LIST || tag == TAG_MAP {
        (2, 4, 1)
    } else if tag == TAG_LARGE_LIST {
        (2, 8, 1)
    } else if tag == TAG_LIST_VIEW {
        (3, 4, 4)
    } else if tag == TAG_LARGE_LIST_VIEW {
        (3, 8, 8)
    } else if tag == TAG_UNION {
        let marks: u64 = if header.version < UNIONS_WITHOUT_MARKS {
            1
        } else {
            0
        };
        if dense {
            (marks + 2, 1, 1)
        } else {
            (marks + 1, 1, 1)
        }
    } else {
        (2, 1, 1)
    }
}

impl Tree {
    /// The place after a field and all that is inside it.
    fn past(&self, i: usize) -> (p: usize)
        requires
            i < self.shapes@.len(),
        ensures
            p == past(self@.shapes, i as int),
            i < p <= self.shapes@.len(),
    {
        let len: usize = self.shapes.len();
        let mut at: usize = i;
        let mut pending: usize = 1;
        while pending > 0 && at < len
            invariant
                len == self.shapes@.len(),
                i <= at <= len,
                at == i ==> pending == 1,
                pending <= len - at || at == len,
                i < len,
                after(self.shapes@, i as int, 1) == after(self.shapes@, at as int, pending as int),
            decreases len - at,
        {
            let more: usize = self.shapes[at].children;
            at = at + 1;
            if more >= len - at || pending - 1 >= len - at - more {
                proof {
                    lemma_after(self.shapes@, at as int, pending - 1 + more);
                }
                return len;
            }
            pending = pending - 1 + more;
        }
        at
    }

    /// Whether Arrow can make a schema of these fields, or say what is wrong with
    /// them.
    fn convertible(&self) -> (r: bool)
        ensures
            r == convertible(self@),
    {
        if self.sizes.len() != self.shapes.len() || self.unions.len() != self.shapes.len() {
            return false;
        }
        let mut i: usize = 0;
        while i < self.shapes.len()
            invariant
                i <= self.shapes@.len(),
                self.sizes@.len() == self.shapes@.len(),
                self.unions@.len() == self.shapes@.len(),
                forall|j: int|
                    0 <= j < i ==> numbers_fields(#[trigger] self@.unions[j])
                        ==> self@.shapes[j].children <= MAX_UNION_FIELDS,
            decreases self.shapes@.len() - i,
        {
            let numbers: bool = match self.unions[i] {
                Some((_, numbers)) => numbers,
                None => false,
            };
            if numbers && self.shapes[i].children > MAX_UNION_FIELDS {
                assert(numbers_fields(self@.unions[i as int]));
                return false;
            }
            i = i + 1;
        }
        true
    }

    /// Whether a field is a union whose fields hold only the values that are theirs.
    fn dense(&self, i: usize) -> (r: bool)
        requires
            i < self.unions@.len(),
        ensures
            r == is_dense(self@.unions[i as int]),
    {
        match self.unions[i] {
            Some((mode, _)) => mode == MODE_DENSE,
            None => false,
        }
    }

    /// Whether an array of no values can be made of a field's type.
    fn buildable(&self, k: usize) -> (r: bool)
        requires
            k < self.shapes@.len(),
            self.sizes@.len() == self.shapes@.len(),
            self.unions@.len() == self.shapes@.len(),
        ensures
            r == buildable(self@, k as int),
    {
        let tag: u8 = self.shapes[k].tag;
        let len: usize = self.shapes.len();
        if tag == TAG_FIXED_SIZE_BINARY || tag == TAG_FIXED_SIZE_LIST {
            self.sizes[k].size >= 0
        } else if tag == TAG_MAP {
            k + 1 < len && self.shapes[k + 1].tag == TAG_STRUCT && self.shapes[k
                + 1].children == 2 && self.shapes[k + 1].dictionary.is_none()
        } else if tag == TAG_RUNS {
            k + 1 < len && self.shapes[k + 1].tag == TAG_INT && self.sizes[k
                + 1].signed && byte_width_of(self.sizes[k + 1].size) > 1 && self.shapes[k
                + 1].dictionary.is_none()
        } else {
            true
        }
    }

    /// Whether arrays of no values can be made of the fields from `i` up to `n`.
    fn all_buildable(&self, i: usize, n: usize) -> (r: bool)
        requires
            i <= n <= self.shapes@.len(),
            self.sizes@.len() == self.shapes@.len(),
            self.unions@.len() == self.shapes@.len(),
        ensures
            r == all_buildable(self@, i as int, n as int),
    {
        let mut k: usize = i;
        while k < n
            invariant
                i <= k <= n <= self.shapes@.len(),
                self.sizes@.len() == self.shapes@.len(),
                self.unions@.len() == self.shapes@.len(),
                forall|j: int| i <= j < k ==> #[trigger] buildable(self@, j),
            decreases n - k,
        {
            if !self.buildable(k) {
                assert(!buildable(self@, k as int));
                return false;
            }
            k = k + 1;
        }
        true
    }

    /// Whether what else must hold of a field of its type does.
    fn type_fits(&self, header: &BatchHeader, body: &[u8], i: usize, m: usize, b: usize) -> (r: bool)
        requires
            i < self.shapes@.len(),
            self.sizes@.len() == self.shapes@.len(),
            self.unions@.len() == self.shapes@.len(),
            b < header.buffers@.len(),
            self@.shapes[i as int].tag == TAG_UNION ==> {
                let taken = layout(
                    in_message(*header, body@),
                    TAG_UNION,
                    is_dense(self@.unions[i as int]),
                ).buffers;
                forall|k: int| b <= k < b + taken ==> #[trigger] buffer_fits(in_message(*header, body@), k)
            },
        ensures
            r == type_fits(self@, in_message(*header, body@), i as int, m as int, b as int),
    {
        let ghost f = in_message(*header, body@);
        let len: usize = self.shapes.len();
        let total: usize = header.buffers.len();
        let tag: u8 = self.shapes[i].tag;
        let size: i32 = self.sizes[i].size;
        let n: i64 = header.values(m);
        assert(n == values(f, m as int));
        if tag == TAG_FIXED_SIZE_BINARY {
            size >= 0
        } else if tag == TAG_STRUCT {
            BatchHeader::has_room(body, n)
        } else if tag == TAG_FIXED_SIZE_LIST {
            if !BatchHeader::has_room(body, n) {
                return false;
            }
            assert(-0x8000_0000 * 0x8000_0000_0000_0000 <= n * size <= 0x8000_0000
                * 0x8000_0000_0000_0000) by (nonlinear_arith)
                requires
                    0 <= n <= 0x8000_0000_0000_0000,
                    -0x8000_0000 <= size <= 0x8000_0000,
            ;
            n as i128 * size as i128 <= usize::MAX as i128
        } else if tag == TAG_RUNS {
            if !BatchHeader::has_room(body, n) {
                return false;
            }
            i + 1 >= len || self.shapes[i + 1].tag != TAG_INT || (header.buffer_fits(
                body,
                b + 1,
            ) && header.whole_items(body, b + 1, byte_width_of(self.sizes[i + 1].size)))
        } else if tag == TAG_UNION {
            let ids: usize = if header.version < UNIONS_WITHOUT_MARKS {
                b + 1
            } else {
                b
            };
            assert(buffer_fits(f, ids as int));
            if n < 0 || !header.holds_bytes(body, ids, n as u128) {
                return false;
            }
            if !self.dense(i) {
                return true;
            }
            if ids >= total {
                return true;
            }
            assert(buffer_fits(f, ids + 1));
            header.holds_bytes(body, ids + 1, 4 * n as u128) && header.lies_even(body, ids + 1)
        } else {
            true
        }
    }

    /// Whether the fields from `from` up to `n` keep to a message. Field `top` is
    /// taken for what its dictionary holds.
    fn fits(&self, header: &BatchHeader, body: &[u8], top: Option<usize>, from: usize, n: usize) -> (r:
        bool)
        requires
            from <= n <= self.shapes@.len(),
            self.sizes@.len() == self.shapes@.len(),
            self.unions@.len() == self.shapes@.len(),
        ensures
            r == fits(
                self@,
                in_message(*header, body@),
                match top {
                    Some(k) => k as int,
                    None => -1,
                },
                n as int,
                from as int,
                0,
                0,
                0,
            ),
    {
        let ghost f = in_message(*header, body@);
        let ghost root: int = match top {
            Some(k) => k as int,
            None => -1,
        };
        let total: usize = header.buffers.len();
        let mut i: usize = from;
        let mut m: usize = 0;
        let mut b: usize = 0;
        let mut v: usize = 0;
        while i < n
            invariant
                f == in_message(*header, body@),
                root == (match top {
                    Some(k) => k as int,
                    None => -1,
                }),
                total == header.buffers@.len(),
                i <= n <= self.shapes@.len(),
                self.sizes@.len() == self.shapes@.len(),
                self.unions@.len() == self.shapes@.len(),
                v <= m <= i,
                b <= total,
                fits(self@, f, root, n as int, from as int, 0, 0, 0) == fits(
                    self@,
                    f,
                    root,
                    n as int,
                    i as int,
                    m as int,
                    b as int,
                    v as int,
                ),
            decreases n - i,
        {
            let s: Shape = self.shapes[i];
            let is_top: bool = match top {
                Some(k) => k == i,
                None => false,
            };
            let keyed: bool = s.dictionary.is_some() && !is_top;
            let inside: bool = nested(s.tag) && !keyed;
            let next: usize = if inside {
                i + 1
            } else {
                self.past(i)
            };
            let mut taken: u64 = 2;
            if s.tag == TAG_NULL && !keyed {
                taken = 0;
                let count: i64 = header.values(m);
                assert(count == values(f, m as int));
                if !BatchHeader::has_room(body, count) {
                    assert(!(0 <= count <= room(f)));
                    return false;
                }
            } else if b >= total {
                return true;
            } else if keyed {
                let width: u64 = match s.dictionary {
                    Some((_, bits)) => byte_width_of(bits),
                    None => 1,
                };
                if !header.field_fits(body, b, 2, width, 1) || !self.all_buildable(i, next) {
                    return false;
                }
            } else if s.tag == TAG_BINARY_VIEW || s.tag == TAG_UTF8_VIEW {
                if v >= header.variadic.len() || header.variadic[v] < 0 {
                    return true;
                }
                taken = header.variadic[v] as u64 + 2;
                if !header.field_fits(body, b, taken, 16, 1) {
                    return false;
                }
                v = v + 1;
            } else {
                let (buffers, second, third) = layout_of(header, s.tag, self.dense(i));
                assert(layout(f, s.tag, is_dense(self@.unions[i as int])) == (Layout {
                    buffers: buffers as int,
                    second: second as int,
                    third: third as int,
                }));
                taken = buffers;
                if !header.field_fits(body, b, buffers, second, third) || !self.type_fits(
                    header,
                    body,
                    i,
                    m,
                    b,
                ) {
                    return false;
                }
            }
            assert(fits(self@, f, root, n as int, from as int, 0, 0, 0) == fits(
                self@,
                f,
                root,
                n as int,
                next as int,
                m + 1,
                b + taken,
                v as int,
            ));
            if next >= n || taken > (total - b) as u64 {
                return true;
            }
            i = next;
            m = m + 1;
            b = b + taken as usize;
        }
        true
    }

    /// Whether a dictionary keeps to its message, for each field that may use it.
    fn dictionary_fits(&self, id: i64, delta: bool, header: &BatchHeader, body: &[u8]) -> (r: bool)
        requires
            self.sizes@.len() == self.shapes@.len(),
            self.unions@.len() == self.shapes@.len(),
        ensures
            r == dictionary_fits(self@, (id, delta, header@), body@),
    {
        let mut i: usize = 0;
        while i < self.shapes.len()
            invariant
                i <= self.shapes@.len(),
                self.sizes@.len() == self.shapes@.len(),
                self.unions@.len() == self.shapes@.len(),
                forall|j: int|
                    0 <= j < i && uses(#[trigger] self@.shapes[j], id) ==> (delta ==> is_flat(self@, j))
                        && fits(
                        self@,
                        in_message(*header, body@),
                        j,
                        past(self@.shapes, j),
                        j,
                        0,
                        0,
                        0,
                    ),
            decreases self.shapes@.len() - i,
        {
            let s: Shape = self.shapes[i];
            let used: bool = match s.dictionary {
                Some((number, _)) => number == id,
                None => false,
            };
            if used {
                let flat: bool = !nested(s.tag) && s.tag != TAG_NULL && (s.tag
                    != TAG_FIXED_SIZE_BINARY || self.sizes[i].size > 0);
                let end: usize = self.past(i);
                if (delta && !flat) || !self.fits(header, body, Some(i), i, end) {
                    assert(uses(self@.shapes[i as int], id));
                    return false;
                }
            }
            i = i + 1;
        }
        true
    }

    /// Whether the messages from `p` on, up to the first record batch, can be read.
    fn messages_fit(&self, ipc: &[u8], p: usize) -> (r: bool)
        requires
            self.sizes@.len() == self.shapes@.len(),
            self.unions@.len() == self.shapes@.len(),
            p <= ipc@.len(),
        ensures
            r == messages_fit(ipc@, p as int, self@),
    {
        let mut at: usize = p;
        loop
            invariant
                self.sizes@.len() == self.shapes@.len(),
                self.unions@.len() == self.shapes@.len(),
                p <= at <= ipc@.len(),
                messages_fit(ipc@, p as int, self@) == messages_fit(ipc@, at as int, self@),
            decreases ipc@.len() - at,
        {
            let f = match frame(ipc, at) {
                Some(f) => f,
                None => {
                    return true;
                },
            };
            let meta = slice_subrange(ipc, f.meta, f.body);
            let body = slice_subrange(ipc, f.body, f.end);
            match f.kind {
                MessageKind::Batch => {
                    return match read_batch_header(meta) {
                        Some(header) => header.rows >= 0 && self.fits(
                            &header,
                            body,
                            None,
                            0,
                            self.shapes.len(),
                        ),
                        None => true,
                    };
                },
                MessageKind::Dictionary => {
                    if let Some((id, delta, header)) = read_dictionary_header(meta) {
                        if !self.dictionary_fits(id, delta, &header, body) {
                            return false;
                        }
                    }
                    at = f.end;
                },
                _ => {
                    return true;
                },
            }
        }
    }
}

/// Look for the message with the schema.
fn find_schema(ipc: &[u8]) -> (r: Option<Frame>)
    ensures
        frame_view(r) == schema_frame(ipc@),
        r matches Some(f) ==> f.meta <= f.body <= f.end <= ipc@.len(),
{
    match frame(ipc, 0) {
        Some(s) => if s.kind == MessageKind::Schema {
            Some(s)
        } else {
            None
        },
        None => None,
    }
}

/// List the fields of the schema in a message's metadata.
fn read_tree(meta: &[u8]) -> (r: Option<Tree>)
    ensures
        tree_view(r) == tree_of(meta@),
{
    match (list_shapes(meta), list_sizes(meta), list_unions(meta)) {
        (Some(shapes), Some(sizes), Some(unions)) => Some(Tree { shapes, sizes, unions }),
        _ => None,
    }
}

/// Whether Arrow's reader can be let loose on a stream.
#[derive(Debug, Clone, Copy, PartialEq, Eq, Structural)]
pub enum Look {
    /// It can.
    Readable,
    /// It can make no schema.
    BadSchema,
    /// What it would read does not keep to its messages.
    BadMessage,
}

/// Look whether Arrow's reader can be let loose on a stream.
pub fn look(ipc: &[u8]) -> (r: Look)
    ensures
        r == (if !schema_fits(ipc@) {
            Look::BadSchema
        } else if !readable(ipc@) {
            Look::BadMessage
        } else {
            Look::Readable
        }),
{
    let schema = match find_schema(ipc) {
        Some(s) => s,
        None => {
            return Look::Readable;
        },
    };
    let tree = match read_tree(slice_subrange(ipc, schema.meta, schema.body)) {
        Some(t) => t,
        None => {
            return Look::Readable;
        },
    };
    if !tree.convertible() {
        Look::BadSchema
    } else if !tree.messages_fit(ipc, schema.end) {
        Look::BadMessage
    } else {
        Look::Readable
    }
}

/// A message is a marker, which may be left out, the length of its metadata, the
/// metadata, and a body of the length that the metadata says; it is found exactly
/// when all of that is there, and the next one follows it.
pub proof fn law_messages_follow_each_other(ipc: Seq<u8>, p: int)
    requires
        0 <= p,
        p + 8 <= ipc.len(),
    ensures
        ({
            let marked = ipc[p] == 0xff && ipc[p + 1] == 0xff && ipc[p + 2] == 0xff && ipc[p + 3]
                == 0xff;
            let meta = if marked {
                p + 8
            } else {
                p + 4
            };
            let n = le32(ipc, meta - 4);
            let said = message_of(ipc.subrange(meta, meta + n));
            &&& frame_at(ipc, p) is Some <==> 0 < n && meta + n <= ipc.len() && (said matches Some(m)
                && 0 <= m.0 && meta + n + m.0 <= ipc.len())
            &&& frame_at(ipc, p) matches Some(f) ==> f.start == p && f.meta == meta && f.body == meta
                + n && Some(((f.end - f.body) as i64, f.kind)) == said
        }),
{
}

/// Numbers are read with their lowest byte first.
pub proof fn law_numbers_are_read_lowest_byte_first(b: Seq<u8>, p: int)
    requires
        0 <= p,
        p + 8 <= b.len(),
    ensures
        0 <= le64(b, p) <= u64::MAX,
        le64(b, p) % 0x100 == b[p],
        le64(b, p) / 0x100 % 0x100 == b[p + 1],
        le64(b, p) / 0x100_0000_0000_0000 == b[p + 7],
        b[p + 3] < 0x80 && b[p + 4] == 0 && b[p + 5] == 0 && b[p + 6] == 0 && b[p + 7] == 0
            ==> le32(b, p) == le64(b, p),
        b[p + 3] >= 0x80 ==> le32(b, p) < 0,
{
}

/// A buffer that is not compressed lies in the body exactly when it begins and ends
/// there; one that is compressed must also claim no more than its bytes can stand
/// for, and claims eight less than it has where it was left as it is.
pub proof fn law_buffers_lie_in_the_body(body: Seq<u8>, buffer: (i64, i64), codec: Option<i8>)
    ensures
        in_body(body, buffer, None) <==> 0 <= buffer.0 && 0 <= buffer.1 && buffer.0 + buffer.1
            <= body.len(),
        in_body(body, buffer, codec) ==> in_body(body, buffer, None),
        plain_len(body, buffer, false) == buffer.1,
        in_body(body, buffer, None) && buffer.1 >= 8 && (forall|i: int|
            buffer.0 <= i < buffer.0 + 8 ==> #[trigger] body[i] == 0xff) ==> plain_len(
            body,
            buffer,
            true,
        ) == buffer.1 - 8 && in_body(body, buffer, codec),
{
    if in_body(body, buffer, None) && buffer.1 >= 8 && (forall|i: int|
        buffer.0 <= i < buffer.0 + 8 ==> #[trigger] body[i] == 0xff) {
        let p = buffer.0 as int;
        assert(body[p] == 0xff && body[p + 1] == 0xff && body[p + 2] == 0xff && body[p + 3] == 0xff
            && body[p + 4] == 0xff && body[p + 5] == 0xff && body[p + 6] == 0xff && body[p + 7]
            == 0xff);
        assert(le64(body, p) == u64::MAX);
        assert(growth(codec) * buffer.1 >= buffer.1) by (nonlinear_arith)
            requires
                growth(codec) >= 1,
                buffer.1 >= 0,
        ;
    }
}

/// Whether a schema is of columns of texts alone.
pub open spec fn texts_alone(t: TreeView) -> bool {
    &&& t.sizes.len() == t.shapes.len() && t.unions.len() == t.shapes.len()
    &&& forall|i: int|
        0 <= i < t.shapes.len() ==> (#[trigger] t.shapes[i]).tag == 5 && t.shapes[i].children == 0
            && t.shapes[i].dictionary is None
    &&& forall|i: int| 0 <= i < t.unions.len() ==> #[trigger] t.unions[i] is None
}

/// Whether the three buffers of column `k` lie in the body, and its offsets are whole
/// numbers of four bytes.
pub open spec fn column_lies_in(h: BatchHeaderView, body: Seq<u8>, k: int) -> bool {
    &&& in_body(body, h.buffers[3 * k], None)
    &&& in_body(body, h.buffers[3 * k + 1], None)
    &&& in_body(body, h.buffers[3 * k + 2], None)
    &&& h.buffers[3 * k + 1].1 % 4 == 0
}

/// A batch of text columns without compression can be handed to Arrow exactly when
/// it does not count rows below nought and the buffers of its columns lie in the
/// body, with whole offsets. However many rows and columns there are, nothing else
/// matters.
pub proof fn law_batches_of_texts_are_readable(
    ipc: Seq<u8>,
    s: FrameView,
    f: FrameView,
    t: TreeView,
    h: BatchHeaderView,
)
    requires
        schema_frame(ipc) == Some(s),
        stream_tree(ipc) == Some(t),
        texts_alone(t),
        frame_at(ipc, s.end) == Some(f),
        f.kind == MessageKind::Batch,
        batch_header_of(ipc.subrange(f.meta, f.body)) == Some(h),
        h.codec is None,
        h.buffers.len() >= 3 * t.shapes.len(),
    ensures
        readable(ipc) <==> 0 <= h.rows && forall|k: int|
            0 <= k < t.shapes.len() ==> #[trigger] column_lies_in(
                h,
                ipc.subrange(f.body, f.end),
                k,
            ),
{
    let body = ipc.subrange(f.body, f.end);
    let v = FoundView { header: h, body };
    lemma_texts_fit(t, v, 0);
    assert(convertible(t)) by {
        assert forall|i: int| 0 <= i < t.shapes.len() implies numbers_fields(#[trigger] t.unions[i])
            ==> t.shapes[i].children <= MAX_UNION_FIELDS by {
            assert(t.unions[i] is None);
        }
    }
    assert(schema_fits(ipc));
}

/// The columns of texts from the `i`th on fit exactly when their buffers do.
proof fn lemma_texts_fit(t: TreeView, f: FoundView, i: int)
    requires
        texts_alone(t),
        f.header.codec is None,
        f.header.buffers.len() >= 3 * t.shapes.len(),
        0 <= i <= t.shapes.len(),
    ensures
        fits(t, f, -1, t.shapes.len() as int, i, i, 3 * i, 0) <==> forall|k: int|
            i <= k < t.shapes.len() ==> #[trigger] column_lies_in(f.header, f.body, k),
    decreases t.shapes.len() - i,
{
    let n = t.shapes.len() as int;
    if i < n {
        lemma_texts_fit(t, f, i + 1);
        let s = t.shapes[i];
        assert(s.tag == 5 && s.children == 0 && s.dictionary is None);
        assert(t.unions[i] is None);
        reveal_with_fuel(after, 3);
        assert(past(t.shapes, i) == i + 1);
        let b = 3 * i;
        assert(layout(f, s.tag, is_dense(t.unions[i])) == (Layout {
            buffers: 3,
            second: 4,
            third: 1,
        }));
        assert(field_fits(f, b, 3, 4, 1) <==> column_lies_in(f.header, f.body, i)) by {
            if field_fits(f, b, 3, 4, 1) {
                assert(buffer_fits(f, b) && buffer_fits(f, b + 1) && buffer_fits(f, b + 2));
            }
            if column_lies_in(f.header, f.body, i) {
                assert forall|k: int| b <= k < b + 3 implies #[trigger] buffer_fits(f, k) by {
                    assert(k == b || k == b + 1 || k == b + 2);
                }
            }
        }
        assert(fits(t, f, -1, n, i, i, b, 0) == (field_fits(f, b, 3, 4, 1) && fits(
            t,
            f,
            -1,
            n,
            i + 1,
            i + 1,
            b + 3,
            0,
        )));
    }
}

} // verus!
