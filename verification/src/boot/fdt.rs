//! Device trees as lists of operations, and the blobs that the `vm_fdt` crate
//! makes of them.

use crate::boot::BootError;
use crate::bytes;
use vm_fdt::{FdtWriter, FdtWriterNode};
use vstd::prelude::*;

verus! {

/// Declares `vm_fdt::FdtWriter`. Nothing is seen inside a value of it.
#[verifier::external_type_specification]
#[verifier::external_body]
pub struct ExFdtWriter(vm_fdt::FdtWriter);

/// Declares `vm_fdt::FdtWriterNode`. Nothing is seen inside a value of it.
#[verifier::external_type_specification]
#[verifier::external_body]
pub struct ExFdtWriterNode(vm_fdt::FdtWriterNode);

/// Declares `vm_fdt::Error`. Nothing is seen inside a value of it.
#[verifier::external_type_specification]
#[verifier::external_body]
pub struct ExFdtError(vm_fdt::Error);

/// A part of a device tree: the start of a node, its end, or a property of the
/// node that was started last.
#[verifier::ext_equal]
pub enum FdtItem {
    Begin(Seq<char>),
    End,
    Prop(Seq<char>, Seq<u8>),
}

/// A character of node names.
pub open spec fn node_char(c: char) -> bool {
    ('0' <= c <= '9') || ('a' <= c <= 'z') || ('A' <= c <= 'Z') || c == ',' || c == '.' || c == '_'
        || c == '+' || c == '-'
}

/// Whether a node can have a name: it is empty, or it starts with a letter, has
/// at most 31 characters before an `@` or its end, at most one `@`, and no other
/// characters but those of node names.
pub open spec fn node_name_ok(name: Seq<char>) -> bool {
    name.len() == 0 || {
        &&& ('a' <= name[0] <= 'z') || ('A' <= name[0] <= 'Z')
        &&& forall|i: int| 0 <= i < name.len() ==> node_char(#[trigger] name[i]) || name[i] == '@'
        &&& forall|i: int, j: int|
            0 <= i < j < name.len() ==> !(#[trigger] name[i] == '@' && #[trigger] name[j] == '@')
        &&& name.len() <= 31 || exists|i: int|
            0 <= i <= 31 && i < name.len() && #[trigger] name[i] == '@'
    }
}

/// Whether a property can have a name.
pub open spec fn property_name_ok(name: Seq<char>) -> bool {
    &&& 0 < name.len() <= 31
    &&& forall|i: int|
        0 <= i < name.len() ==> node_char(#[trigger] name[i]) || name[i] == '?' || name[i] == '#'
}

/// Where a writer of items stands: how many nodes are open, and whether the
/// last item ended one.
pub struct FdtPlace {
    pub depth: int,
    pub ended: bool,
}

/// Where an item leads, if it can stand there.
pub open spec fn fdt_step(p: FdtPlace, item: FdtItem) -> Option<FdtPlace> {
    match item {
        FdtItem::Begin(name) => if p.depth < 64 && node_name_ok(name) {
            Some(FdtPlace { depth: p.depth + 1, ended: false })
        } else {
            None
        },
        FdtItem::End => if p.depth > 0 {
            Some(FdtPlace { depth: p.depth - 1, ended: true })
        } else {
            None
        },
        FdtItem::Prop(name, _) => if p.depth > 0 && !p.ended && property_name_ok(name) {
            Some(p)
        } else {
            None
        },
    }
}

/// Where items lead, if all of them can stand.
pub open spec fn fdt_run(p: FdtPlace, items: Seq<FdtItem>) -> Option<FdtPlace>
    decreases items.len(),
{
    if items.len() == 0 {
        Some(p)
    } else {
        match fdt_step(p, items[0]) {
            None => None,
            Some(q) => fdt_run(q, items.skip(1)),
        }
    }
}

/// The place before any item.
pub open spec fn fdt_start() -> FdtPlace {
    FdtPlace { depth: 0, ended: false }
}

/// Whether items make up whole nodes, each of which can stand.
pub open spec fn whole(items: Seq<FdtItem>) -> bool {
    fdt_run(fdt_start(), items) matches Some(p) && p.depth == 0
}

/// Items in two parts lead where the second leads from where the first did.
pub proof fn lemma_run_parts(p: FdtPlace, a: Seq<FdtItem>, b: Seq<FdtItem>)
    ensures
        fdt_run(p, a + b) == match fdt_run(p, a) {
            None => None,
            Some(q) => fdt_run(q, b),
        },
    decreases a.len(),
{
    if a.len() == 0 {
        assert(a + b =~= b);
    } else {
        assert((a + b)[0] == a[0]);
        assert((a + b).skip(1) =~= a.skip(1) + b);
        match fdt_step(p, a[0]) {
            None => {},
            Some(q) => lemma_run_parts(q, a.skip(1), b),
        }
    }
}

/// Whether items are a node without nodes in it, whose names can stand.
pub open spec fn leaf_node(items: Seq<FdtItem>) -> bool {
    &&& items.len() >= 2
    &&& items[0] matches FdtItem::Begin(name) && node_name_ok(name)
    &&& items.last() is End
    &&& forall|i: int|
        0 < i < items.len() - 1 ==> ((#[trigger] items[i]) matches FdtItem::Prop(name, _)
            && property_name_ok(name))
}

/// Properties lead nowhere else.
proof fn lemma_props_run(p: FdtPlace, items: Seq<FdtItem>)
    requires
        p.depth > 0,
        !p.ended,
        forall|i: int|
            0 <= i < items.len() ==> ((#[trigger] items[i]) matches FdtItem::Prop(name, _)
                && property_name_ok(name)),
    ensures
        fdt_run(p, items) == Some(p),
    decreases items.len(),
{
    if items.len() > 0 {
        assert(items[0] is Prop);
        assert forall|i: int| 0 <= i < items.skip(1).len() implies ((#[trigger] items.skip(
            1,
        )[i]) matches FdtItem::Prop(name, _) && property_name_ok(name)) by {
            assert(items.skip(1)[i] == items[i + 1]);
        }
        lemma_props_run(p, items.skip(1));
    }
}

/// A node without nodes in it can stand in any node, and leads behind itself.
pub proof fn lemma_leaf_run(p: FdtPlace, items: Seq<FdtItem>)
    requires
        leaf_node(items),
        0 <= p.depth < 64,
    ensures
        fdt_run(p, items) == Some(FdtPlace { depth: p.depth, ended: true }),
{
    let props = items.subrange(1, items.len() - 1);
    let q = FdtPlace { depth: p.depth + 1, ended: false };
    assert forall|i: int| 0 <= i < props.len() implies ((#[trigger] props[i]) matches FdtItem::Prop(
        name,
        _,
    ) && property_name_ok(name)) by {
        assert(props[i] == items[i + 1]);
    }
    lemma_props_run(q, props);
    assert(items.skip(1) =~= props + seq![FdtItem::End]);
    lemma_run_parts(q, props, seq![FdtItem::End]);
    assert(seq![FdtItem::End].skip(1) =~= Seq::<FdtItem>::empty());
    reveal_with_fuel(fdt_run, 2);
}

/// The items that a writer holds.
pub uninterp spec fn fdt_items(w: FdtWriter) -> Seq<FdtItem>;

/// How many nodes were open when a node had been started, itself included.
pub uninterp spec fn fdt_node_depth(n: FdtWriterNode) -> nat;

/// The blob that a writer makes of the items that it holds, if it can.
pub uninterp spec fn fdt_blob(items: Seq<FdtItem>) -> Option<Seq<u8>>;

/// A text as the value of a property: its bytes and a NUL.
pub open spec fn text_value(s: Seq<char>) -> Seq<u8> {
    vstd::utf8::encode_utf8(s).push(0)
}

/// Texts as the value of a property, one behind the other.
pub open spec fn texts_value(v: Seq<String>) -> Seq<u8>
    decreases v.len(),
{
    if v.len() == 0 {
        Seq::empty()
    } else {
        texts_value(v.drop_last()) + text_value(v.last()@)
    }
}

/// 32-bit integers as the value of a property.
pub open spec fn cells_value(v: Seq<u32>) -> Seq<u8>
    decreases v.len(),
{
    if v.len() == 0 {
        Seq::empty()
    } else {
        cells_value(v.drop_last()) + bytes::be32_bytes(v.last())
    }
}

/// 64-bit integers as the value of a property.
pub open spec fn wide_cells_value(v: Seq<u64>) -> Seq<u8>
    decreases v.len(),
{
    if v.len() == 0 {
        Seq::empty()
    } else {
        wide_cells_value(v.drop_last()) + bytes::be64_bytes(v.last())
    }
}

/// Whether a text holds a NUL.
pub open spec fn has_nul(s: Seq<char>) -> bool {
    s.contains('\0')
}

/// Whether the size of an item's value fits into 32 bits.
pub open spec fn value_fits(item: FdtItem) -> bool {
    item matches FdtItem::Prop(_, v) ==> v.len() <= u32::MAX
}

/// What a call that adds an item does: on success the writer holds the item
/// behind the others, on failure it holds what it held. A value whose size does
/// not fit into 32 bits is refused. A writer with fewer than 2^26 items takes
/// every other item that can stand where it stands.
pub open spec fn adds(w0: FdtWriter, w1: FdtWriter, item: FdtItem, ok: bool) -> bool {
    let items = fdt_items(w0);
    &&& fdt_items(w1) == if ok {
        items.push(item)
    } else {
        items
    }
    &&& ok ==> value_fits(item)
    &&& (items.len() < 0x400_0000 && value_fits(item) && fdt_run(
        fdt_start(),
        items.push(item),
    ) is Some) ==> ok
}

/// Calls `vm_fdt::FdtWriter::new`, which succeeds and gives a writer that holds
/// no items.
#[verifier::external_body]
fn writer_new() -> (r: Result<FdtWriter, vm_fdt::Error>)
    ensures
        r is Ok,
        fdt_items(r->Ok_0) == Seq::<FdtItem>::empty(),
{
    FdtWriter::new()
}

/// Calls `vm_fdt::FdtWriter::begin_node`, which starts a node. It succeeds
/// exactly where the name can be a node's and fewer than 64 nodes are open.
#[verifier::external_body]
fn writer_begin(w: &mut FdtWriter, name: &str) -> (r: Result<FdtWriterNode, vm_fdt::Error>)
    ensures
        adds(*old(w), *final(w), FdtItem::Begin(name@), r is Ok),
        r matches Ok(n) ==> (fdt_run(fdt_start(), fdt_items(*old(w))) matches Some(p)
            ==> fdt_node_depth(n) == p.depth + 1),
        r is Ok ==> node_name_ok(name@),
{
    w.begin_node(name)
}

/// Calls `vm_fdt::FdtWriter::end_node`, which ends the node that was started
/// last, and fails if it is given another.
#[verifier::external_body]
fn writer_end(w: &mut FdtWriter, n: FdtWriterNode) -> (r: Result<(), vm_fdt::Error>)
    ensures
        fdt_items(*final(w)) == if r is Ok {
            fdt_items(*old(w)).push(FdtItem::End)
        } else {
            fdt_items(*old(w))
        },
        fdt_run(fdt_start(), fdt_items(*old(w))) matches Some(p) ==> (r is Ok <==> fdt_node_depth(n)
            == p.depth),
{
    w.end_node(n)
}

/// Calls `vm_fdt::FdtWriter::property_null`, which adds a property without a
/// value.
#[verifier::external_body]
fn writer_null(w: &mut FdtWriter, name: &str) -> (r: Result<(), vm_fdt::Error>)
    ensures
        adds(*old(w), *final(w), FdtItem::Prop(name@, Seq::empty()), r is Ok),
{
    w.property_null(name)
}

/// Calls `vm_fdt::FdtWriter::property_string`, which adds a property that is a
/// text, and fails if the text holds a NUL.
#[verifier::external_body]
fn writer_text(w: &mut FdtWriter, name: &str, value: &str) -> (r: Result<(), vm_fdt::Error>)
    ensures
        !has_nul(value@) ==> adds(
            *old(w),
            *final(w),
            FdtItem::Prop(name@, text_value(value@)),
            r is Ok,
        ),
        has_nul(value@) ==> r is Err && fdt_items(*final(w)) == fdt_items(*old(w)),
{
    w.property_string(name, value)
}

/// Calls `vm_fdt::FdtWriter::property_string_list`, which adds a property that
/// is a list of texts, and fails if one of them holds a NUL.
#[verifier::external_body]
fn writer_texts(w: &mut FdtWriter, name: &str, values: &Vec<String>) -> (r: Result<
    (),
    vm_fdt::Error,
>)
    ensures
        (forall|i: int| 0 <= i < values@.len() ==> !has_nul((#[trigger] values@[i])@)) ==> adds(
            *old(w),
            *final(w),
            FdtItem::Prop(name@, texts_value(values@)),
            r is Ok,
        ),
        (exists|i: int| 0 <= i < values@.len() && has_nul((#[trigger] values@[i])@)) ==> r is Err
            && fdt_items(*final(w)) == fdt_items(*old(w)),
{
    w.property_string_list(name, values.clone())
}

/// Calls `vm_fdt::FdtWriter::property_u32`, which adds a property that is a
/// 32-bit integer.
#[verifier::external_body]
fn writer_u32(w: &mut FdtWriter, name: &str, value: u32) -> (r: Result<(), vm_fdt::Error>)
    ensures
        adds(*old(w), *final(w), FdtItem::Prop(name@, bytes::be32_bytes(value)), r is Ok),
{
    w.property_u32(name, value)
}

/// Calls `vm_fdt::FdtWriter::property_u64`, which adds a property that is a
/// 64-bit integer.
#[verifier::external_body]
fn writer_u64(w: &mut FdtWriter, name: &str, value: u64) -> (r: Result<(), vm_fdt::Error>)
    ensures
        adds(*old(w), *final(w), FdtItem::Prop(name@, bytes::be64_bytes(value)), r is Ok),
{
    w.property_u64(name, value)
}

/// Calls `vm_fdt::FdtWriter::property_array_u32`, which adds a property that is
/// a list of 32-bit integers.
#[verifier::external_body]
fn writer_cells(w: &mut FdtWriter, name: &str, values: &[u32]) -> (r: Result<(), vm_fdt::Error>)
    ensures
        adds(*old(w), *final(w), FdtItem::Prop(name@, cells_value(values@)), r is Ok),
{
    w.property_array_u32(name, values)
}

/// Calls `vm_fdt::FdtWriter::property_array_u64`, which adds a property that is
/// a list of 64-bit integers.
#[verifier::external_body]
fn writer_wide_cells(w: &mut FdtWriter, name: &str, values: &[u64]) -> (r: Result<
    (),
    vm_fdt::Error,
>)
    ensures
        adds(*old(w), *final(w), FdtItem::Prop(name@, wide_cells_value(values@)), r is Ok),
{
    w.property_array_u64(name, values)
}

/// A number of bytes that an item does not take more than in a blob: its tag,
/// its name and its value with their padding.
pub open spec fn item_room(item: FdtItem) -> nat {
    match item {
        FdtItem::Begin(name) => 8 + vstd::utf8::encode_utf8(name).len(),
        FdtItem::End => 4,
        FdtItem::Prop(_, value) => 48 + value.len(),
    }
}

/// A number of bytes that items do not take more than in a blob.
pub open spec fn room(items: Seq<FdtItem>) -> nat
    decreases items.len(),
{
    if items.len() == 0 {
        0
    } else {
        room(items.drop_last()) + item_room(items.last())
    }
}

/// The room of items in two parts.
pub proof fn lemma_room_parts(a: Seq<FdtItem>, b: Seq<FdtItem>)
    ensures
        room(a + b) == room(a) + room(b),
    decreases b.len(),
{
    if b.len() == 0 {
        assert(a + b =~= a);
    } else {
        assert((a + b).drop_last() =~= a + b.drop_last());
        lemma_room_parts(a, b.drop_last());
    }
}

/// The room of items each of which has a limit.
pub proof fn lemma_room_limit(items: Seq<FdtItem>, limit: nat)
    requires
        forall|i: int| 0 <= i < items.len() ==> item_room(#[trigger] items[i]) <= limit,
    ensures
        room(items) <= limit * items.len(),
    decreases items.len(),
{
    if items.len() > 0 {
        lemma_room_limit(items.drop_last(), limit);
        assert(limit * items.len() == limit * (items.len() - 1) + limit) by (nonlinear_arith)
            requires
                items.len() > 0,
        ;
    }
}

/// Calls `vm_fdt::FdtWriter::finish`, which makes the blob of the items that the
/// writer holds, or fails. A blob starts with the magic number of device trees.
/// With a node still open there is no blob; otherwise there is one if its size
/// fits into 32 bits.
#[verifier::external_body]
fn writer_finish(w: FdtWriter) -> (r: Result<Vec<u8>, vm_fdt::Error>)
    ensures
        match r {
            Ok(b) => fdt_blob(fdt_items(w)) == Some(b@),
            Err(_) => fdt_blob(fdt_items(w)) is None,
        },
        r matches Ok(b) ==> b@.len() >= 4 && b@.subrange(0, 4) == bytes::be32_bytes(0xd00d_feed),
        fdt_run(fdt_start(), fdt_items(w)) matches Some(p) ==> (p.depth > 0 ==> r is Err),
        whole(fdt_items(w)) && room(fdt_items(w)) <= 0xffff_0000 ==> r is Ok,
{
    w.finish()
}

/// Calls the `to_string` that `vm_fdt::Error` has from its `Display`. Nothing is
/// said of the text.
#[verifier::external_body]
fn error_text(e: &vm_fdt::Error) -> (r: String) {
    e.to_string()
}

/// An operation on a device tree that is being written.
#[derive(Debug)]
pub enum FdtOp {
    /// Starts a node.
    Begin(String),
    /// Ends the node that was started last.
    End,
    /// A property without a value.
    Null(&'static str),
    /// A text.
    Text(&'static str, String),
    /// A list of texts.
    Texts(&'static str, Vec<String>),
    /// A 32-bit integer.
    Cell(&'static str, u32),
    /// A 64-bit integer.
    WideCell(&'static str, u64),
    /// A list of 32-bit integers.
    Cells(&'static str, Vec<u32>),
    /// A list of 64-bit integers.
    WideCells(&'static str, Vec<u64>),
}

impl View for FdtOp {
    type V = FdtItem;

    open spec fn view(&self) -> FdtItem {
        match *self {
            FdtOp::Begin(name) => FdtItem::Begin(name@),
            FdtOp::End => FdtItem::End,
            FdtOp::Null(name) => FdtItem::Prop(name@, Seq::empty()),
            FdtOp::Text(name, v) => FdtItem::Prop(name@, text_value(v@)),
            FdtOp::Texts(name, v) => FdtItem::Prop(name@, texts_value(v@)),
            FdtOp::Cell(name, v) => FdtItem::Prop(name@, bytes::be32_bytes(v)),
            FdtOp::WideCell(name, v) => FdtItem::Prop(name@, bytes::be64_bytes(v)),
            FdtOp::Cells(name, v) => FdtItem::Prop(name@, cells_value(v@)),
            FdtOp::WideCells(name, v) => FdtItem::Prop(name@, wide_cells_value(v@)),
        }
    }
}

impl FdtOp {
    /// Whether the operation's value fits, and no text of it holds a NUL.
    pub open spec fn clean(self) -> bool {
        value_fits(self@) && match self {
            FdtOp::Text(_, v) => !has_nul(v@),
            FdtOp::Texts(_, v) => forall|i: int|
                0 <= i < v@.len() ==> !has_nul((#[trigger] v@[i])@),
            _ => true,
        }
    }
}

/// The items of operations.
#[verifier::opaque]
pub open spec fn op_items(ops: Seq<FdtOp>) -> Seq<FdtItem> {
    Seq::new(ops.len(), |i: int| ops[i]@)
}

/// Whether every value of operations fits and holds no NUL in a text.
#[verifier::opaque]
pub open spec fn all_clean(ops: Seq<FdtOp>) -> bool {
    forall|i: int| 0 <= i < ops.len() ==> (#[trigger] ops[i]).clean()
}

/// The part of a run that ends before an item, and the step of that item.
proof fn lemma_run_at(items: Seq<FdtItem>, i: int)
    requires
        fdt_run(fdt_start(), items) is Some,
        0 <= i < items.len(),
    ensures
        fdt_run(fdt_start(), items.take(i)) is Some,
        fdt_run(fdt_start(), items.take(i + 1)) is Some,
        fdt_run(fdt_start(), items.take(i + 1)) == fdt_step(
            fdt_run(fdt_start(), items.take(i))->0,
            items[i],
        ),
        items.take(i + 1) == items.take(i).push(items[i]),
{
    assert(items =~= items.take(i + 1) + items.skip(i + 1));
    assert(items.take(i + 1) =~= items.take(i) + seq![items[i]]);
    lemma_run_parts(fdt_start(), items.take(i + 1), items.skip(i + 1));
    lemma_run_parts(fdt_start(), items.take(i), seq![items[i]]);
    reveal_with_fuel(fdt_run, 2);
    assert(seq![items[i]].skip(1) =~= Seq::<FdtItem>::empty());
}

/// Writes one operation that is neither the start nor the end of a node.
fn write_property(w: &mut FdtWriter, op: &FdtOp) -> (r: Result<(), vm_fdt::Error>)
    requires
        !(op is Begin) && !(op is End),
    ensures
        op.clean() ==> adds(*old(w), *final(w), op@, r is Ok),
        !op.clean() ==> r is Err,
{
    match op {
        FdtOp::Null(name) => writer_null(w, name),
        FdtOp::Text(name, v) => writer_text(w, name, v.as_str()),
        FdtOp::Texts(name, v) => writer_texts(w, name, v),
        FdtOp::Cell(name, v) => writer_u32(w, name, *v),
        FdtOp::WideCell(name, v) => writer_u64(w, name, *v),
        FdtOp::Cells(name, v) => writer_cells(w, name, v.as_slice()),
        FdtOp::WideCells(name, v) => writer_wide_cells(w, name, v.as_slice()),
        _ => Ok(()),
    }
}

/// No operations.
pub fn no_ops() -> (r: Vec<FdtOp>)
    ensures
        op_items(r@) == Seq::<FdtItem>::empty(),
        all_clean(r@),
{
    let r: Vec<FdtOp> = Vec::new();
    reveal(op_items);
    reveal(all_clean);
    assert(op_items(r@) =~= Seq::<FdtItem>::empty());
    r
}

/// Appends an operation.
pub fn push_op(ops: &mut Vec<FdtOp>, op: FdtOp)
    ensures
        op_items(final(ops)@) == op_items(old(ops)@).push(op@),
        all_clean(final(ops)@) <==> all_clean(old(ops)@) && op.clean(),
{
    let ghost before = ops@;
    ops.push(op);
    reveal(op_items);
    reveal(all_clean);
    assert(op_items(ops@) =~= op_items(before).push(op@));
    assert(forall|i: int| 0 <= i < before.len() ==> #[trigger] before[i] == ops@[i]);
    assert(ops@[before.len() as int] == op);
}

/// Makes the blob of a device tree that the operations describe. There is none
/// if a text holds a NUL or a value is too large.
pub fn make_blob(ops: &Vec<FdtOp>) -> (r: Result<Vec<u8>, BootError>)
    requires
        whole(op_items(ops@)),
    ensures
        match r {
            Ok(b) => all_clean(ops@) && fdt_blob(op_items(ops@)) == Some(b@) && b@.len() >= 4
                && b@.subrange(0, 4) == bytes::be32_bytes(0xd00d_feed),
            Err(e) => e is Fdt,
        },
        all_clean(ops@) && ops@.len() <= 0x400_0000 ==> (r is Ok <==> fdt_blob(
            op_items(ops@),
        ) is Some),
        all_clean(ops@) && ops@.len() <= 0x400_0000 && room(op_items(ops@)) <= 0xffff_0000
            ==> r is Ok,
{
    reveal(op_items);
    reveal(all_clean);
    let mut w = match writer_new() {
        Ok(w) => w,
        Err(e) => return Err(BootError::Fdt(error_text(&e))),
    };
    let mut open: Vec<FdtWriterNode> = Vec::new();
    let ghost items = op_items(ops@);
    assert(items.take(0) =~= Seq::<FdtItem>::empty());
    let mut i: usize = 0;
    while i < ops.len()
        invariant
            i <= ops@.len(),
            items == op_items(ops@),
            whole(items),
            fdt_items(w) == items.take(i as int),
            fdt_run(fdt_start(), items.take(i as int)) is Some,
            fdt_run(fdt_start(), items.take(i as int))->0.depth == open@.len(),
            forall|k: int| 0 <= k < open@.len() ==> fdt_node_depth(#[trigger] open@[k]) == k + 1,
            forall|k: int| 0 <= k < i ==> (#[trigger] ops@[k]).clean(),
        decreases ops@.len() - i,
    {
        reveal(op_items);
        reveal(all_clean);
        proof {
            lemma_run_at(items, i as int);
        }
        assert(items[i as int] == ops@[i as int]@);
        match &ops[i] {
            FdtOp::Begin(name) => match writer_begin(&mut w, name.as_str()) {
                Ok(node) => open.push(node),
                Err(e) => return Err(BootError::Fdt(error_text(&e))),
            },
            FdtOp::End => match open.pop() {
                Some(node) => match writer_end(&mut w, node) {
                    Ok(_) => {},
                    Err(e) => return Err(BootError::Fdt(error_text(&e))),
                },
                None => {
                    assert(false);
                },
            },
            op => match write_property(&mut w, op) {
                Ok(_) => {},
                Err(e) => return Err(BootError::Fdt(error_text(&e))),
            },
        }
        i = i + 1;
    }
    assert(items.take(i as int) =~= items);
    match writer_finish(w) {
        Ok(b) => Ok(b),
        Err(e) => Err(BootError::Fdt(error_text(&e))),
    }
}

} // verus!
