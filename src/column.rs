use vstd::prelude::*;

use crate::bits::{bytes_for_bits, ceil_div8, get_bit, push_bit, tail_clear};
use crate::error::EngineError;

verus! {

/// Integer types that a dictionary column may use for its indices.
#[derive(Debug, Clone, Copy, PartialEq, Eq, Structural)]
pub enum IndexType {
    Int8,
    Int16,
    Int32,
    Int64,
    UInt8,
    UInt16,
    UInt32,
    UInt64,
}

/// Logical type of a column, as far as it decides the column's buffer layout.
#[derive(Debug, Clone, Copy, PartialEq, Eq, Structural)]
pub enum DataType {
    Null,
    Boolean,
    Int8,
    Int16,
    Int32,
    Int64,
    UInt8,
    UInt16,
    UInt32,
    UInt64,
    Float16,
    Float32,
    Float64,
    Date32,
    Date64,
    Time32,
    Time64,
    Duration,
    Timestamp,
    IntervalYearMonth,
    IntervalDayTime,
    IntervalMonthDayNano,
    Decimal128,
    Decimal256,
    Utf8,
    Binary,
    LargeUtf8,
    LargeBinary,
    List,
    KeyValueMap,
    LargeList,
    FixedSizeBinary(u32),
    FixedSizeList,
    Struct,
    Dictionary(IndexType),
    SparseUnion,
    DenseUnion,
}

/// A named, typed column of a schema.
#[derive(Debug, Clone, PartialEq, Eq)]
pub struct Field {
    pub name: String,
    pub data_type: DataType,
    pub nullable: bool,
}

impl Field {
    pub fn new(name: String, data_type: DataType, nullable: bool) -> (r: Field)
        ensures
            r.name@ == name@,
            r.data_type == data_type,
            r.nullable == nullable,
    {
        Field { name, data_type, nullable }
    }
}

/// A value that can be appended to a fixed-width column.
#[derive(Debug, Clone, Copy, PartialEq, Eq, Structural)]
pub enum ScalarValue {
    Boolean(bool),
    Int8(i8),
    Int16(i16),
    Int32(i32),
    Int64(i64),
    UInt8(u8),
    UInt16(u16),
    UInt32(u32),
    UInt64(u64),
}

pub open spec fn index_width(t: IndexType) -> nat {
    match t {
        IndexType::Int8 | IndexType::UInt8 => 1,
        IndexType::Int16 | IndexType::UInt16 => 2,
        IndexType::Int32 | IndexType::UInt32 => 4,
        IndexType::Int64 | IndexType::UInt64 => 8,
    }
}

/// Bytes that one row takes in the first buffer: the value width of a
/// fixed-width type, the offset width of a variable-length or list type, the
/// type id of a union; none where the first buffer is bit-packed or absent.
pub open spec fn slot_width(dt: DataType) -> nat {
    match dt {
        DataType::Null | DataType::Boolean | DataType::FixedSizeList | DataType::Struct => 0,
        DataType::Int8 | DataType::UInt8 => 1,
        DataType::Int16 | DataType::UInt16 | DataType::Float16 => 2,
        DataType::Int32 | DataType::UInt32 | DataType::Float32 | DataType::Date32
        | DataType::Time32 | DataType::IntervalYearMonth => 4,
        DataType::Int64 | DataType::UInt64 | DataType::Float64 | DataType::Date64
        | DataType::Time64 | DataType::Duration | DataType::Timestamp
        | DataType::IntervalDayTime => 8,
        DataType::IntervalMonthDayNano | DataType::Decimal128 => 16,
        DataType::Decimal256 => 32,
        DataType::Utf8 | DataType::Binary | DataType::List | DataType::KeyValueMap => 4,
        DataType::LargeUtf8 | DataType::LargeBinary | DataType::LargeList => 8,
        DataType::FixedSizeBinary(size) => size as nat,
        DataType::Dictionary(t) => index_width(t),
        DataType::SparseUnion | DataType::DenseUnion => 1,
    }
}

/// Bytes that one row takes in the second buffer: the offset of a dense union.
pub open spec fn secondary_slot_width(dt: DataType) -> nat {
    match dt {
        DataType::DenseUnion => 4,
        _ => 0,
    }
}

/// Types whose first buffer holds offsets and starts with a zero offset.
pub open spec fn has_offsets(dt: DataType) -> bool {
    match dt {
        DataType::Utf8 | DataType::Binary | DataType::List | DataType::KeyValueMap
        | DataType::LargeUtf8 | DataType::LargeBinary | DataType::LargeList => true,
        _ => false,
    }
}

/// Types whose second buffer holds a raw byte payload.
pub open spec fn has_payload(dt: DataType) -> bool {
    match dt {
        DataType::Utf8 | DataType::Binary | DataType::LargeUtf8 | DataType::LargeBinary => true,
        _ => false,
    }
}

pub open spec fn zeros(n: nat) -> Seq<u8> {
    Seq::new(n, |i: int| 0u8)
}

/// What the first buffer holds before any row: the leading zero offset.
pub open spec fn leading_bytes(dt: DataType) -> Seq<u8> {
    if has_offsets(dt) {
        zeros(slot_width(dt))
    } else {
        Seq::empty()
    }
}

/// Capacity that the first buffer is allocated with for `capacity` rows.
pub open spec fn primary_capacity(dt: DataType, capacity: nat) -> nat {
    if dt == DataType::Boolean {
        bytes_for_bits(capacity)
    } else if has_offsets(dt) {
        slot_width(dt) * (capacity + 1)
    } else {
        slot_width(dt) * capacity
    }
}

/// Capacity that the second buffer is allocated with for `capacity` rows.
pub open spec fn secondary_capacity(dt: DataType, capacity: nat) -> nat {
    if has_payload(dt) {
        capacity
    } else {
        secondary_slot_width(dt) * capacity
    }
}

/// The buffer sizes for `capacity` rows fit in memory.
pub open spec fn capacity_fits(dt: DataType, capacity: nat) -> bool {
    (slot_width(dt) + 4) * (capacity + 1) <= usize::MAX
}

/// Number of buffers, besides the null bitmap, that a frozen column of this type has.
pub open spec fn buffer_count(dt: DataType) -> nat {
    match dt {
        DataType::Null | DataType::Struct | DataType::FixedSizeList => 0,
        DataType::Utf8 | DataType::Binary | DataType::LargeUtf8 | DataType::LargeBinary
        | DataType::DenseUnion => 2,
        _ => 1,
    }
}

/// The value can be appended to a column of this type.
pub open spec fn value_matches(dt: DataType, v: ScalarValue) -> bool {
    match v {
        ScalarValue::Boolean(_) => dt == DataType::Boolean,
        ScalarValue::Int8(_) => dt == DataType::Int8,
        ScalarValue::Int16(_) => dt == DataType::Int16,
        ScalarValue::Int32(_) => dt == DataType::Int32,
        ScalarValue::Int64(_) => dt == DataType::Int64,
        ScalarValue::UInt8(_) => dt == DataType::UInt8,
        ScalarValue::UInt16(_) => dt == DataType::UInt16,
        ScalarValue::UInt32(_) => dt == DataType::UInt32,
        ScalarValue::UInt64(_) => dt == DataType::UInt64,
    }
}

/// The value's bits, two's complement for the signed types.
pub open spec fn value_bits(v: ScalarValue) -> u64 {
    match v {
        ScalarValue::Boolean(b) => if b { 1 } else { 0 },
        ScalarValue::Int8(x) => x as u64,
        ScalarValue::Int16(x) => x as u64,
        ScalarValue::Int32(x) => x as u64,
        ScalarValue::Int64(x) => x as u64,
        ScalarValue::UInt8(x) => x as u64,
        ScalarValue::UInt16(x) => x as u64,
        ScalarValue::UInt32(x) => x as u64,
        ScalarValue::UInt64(x) => x,
    }
}

/// The lowest `n` bytes of `v`, least significant first.
pub open spec fn le_bytes(v: u64, n: nat) -> Seq<u8> {
    Seq::new(n, |i: int| ((v >> ((8 * i) as u64)) & 0xffu64) as u8)
}

/// The bytes that one row adds to the first buffer of a column that is not bit-packed.
pub open spec fn cell_bytes(dt: DataType, c: Option<ScalarValue>) -> Seq<u8> {
    match c {
        None => zeros(slot_width(dt)),
        Some(v) => le_bytes(value_bits(v), slot_width(dt)),
    }
}

/// The rows' bytes in the first buffer of a column that is not bit-packed.
pub open spec fn encode_cells(dt: DataType, cells: Seq<Option<ScalarValue>>) -> Seq<u8>
    decreases cells.len(),
{
    if cells.len() == 0 {
        Seq::empty()
    } else {
        encode_cells(dt, cells.drop_last()) + cell_bytes(dt, cells.last())
    }
}

/// The second buffer after `n` rows.
pub open spec fn encode_secondary(dt: DataType, n: nat) -> Seq<u8>
    decreases n,
{
    if n == 0 {
        Seq::empty()
    } else {
        encode_secondary(dt, (n - 1) as nat) + zeros(secondary_slot_width(dt))
    }
}

/// Number of null rows.
pub open spec fn count_nulls(cells: Seq<Option<ScalarValue>>) -> nat
    decreases cells.len(),
{
    if cells.len() == 0 {
        0
    } else {
        count_nulls(cells.drop_last()) + if cells.last() is None { 1nat } else { 0nat }
    }
}

/// `bytes` is the first buffer of a column of type `dt` that holds `cells`.
pub open spec fn primary_matches(dt: DataType, cells: Seq<Option<ScalarValue>>, bytes: Seq<u8>) -> bool {
    if dt == DataType::Boolean {
        &&& bytes.len() == bytes_for_bits(cells.len())
        &&& tail_clear(bytes, cells.len())
        &&& forall|i: int|
            0 <= i < cells.len() ==> get_bit(bytes, i) == (cells[i] == Some(
                ScalarValue::Boolean(true),
            ))
    } else {
        bytes == leading_bytes(dt) + encode_cells(dt, cells)
    }
}

/// `bytes` is a null bitmap of `cells`: bit `i` is set where row `i` holds a value.
pub open spec fn validity_matches(cells: Seq<Option<ScalarValue>>, bytes: Seq<u8>) -> bool {
    &&& bytes.len() == bytes_for_bits(cells.len())
    &&& tail_clear(bytes, cells.len())
    &&& forall|i: int| 0 <= i < cells.len() ==> get_bit(bytes, i) == cells[i] is Some
}

pub fn index_width_of(t: IndexType) -> (r: usize)
    ensures
        r as nat == index_width(t),
{
    match t {
        IndexType::Int8 | IndexType::UInt8 => 1,
        IndexType::Int16 | IndexType::UInt16 => 2,
        IndexType::Int32 | IndexType::UInt32 => 4,
        IndexType::Int64 | IndexType::UInt64 => 8,
    }
}

pub fn slot_width_of(dt: DataType) -> (r: usize)
    ensures
        r as nat == slot_width(dt),
{
    match dt {
        DataType::Null | DataType::Boolean | DataType::FixedSizeList | DataType::Struct => 0,
        DataType::Int8 | DataType::UInt8 => 1,
        DataType::Int16 | DataType::UInt16 | DataType::Float16 => 2,
        DataType::Int32 | DataType::UInt32 | DataType::Float32 | DataType::Date32
        | DataType::Time32 | DataType::IntervalYearMonth => 4,
        DataType::Int64 | DataType::UInt64 | DataType::Float64 | DataType::Date64
        | DataType::Time64 | DataType::Duration | DataType::Timestamp
        | DataType::IntervalDayTime => 8,
        DataType::IntervalMonthDayNano | DataType::Decimal128 => 16,
        DataType::Decimal256 => 32,
        DataType::Utf8 | DataType::Binary | DataType::List | DataType::KeyValueMap => 4,
        DataType::LargeUtf8 | DataType::LargeBinary | DataType::LargeList => 8,
        DataType::FixedSizeBinary(size) => size as usize,
        DataType::Dictionary(t) => index_width_of(t),
        DataType::SparseUnion | DataType::DenseUnion => 1,
    }
}

pub fn secondary_slot_width_of(dt: DataType) -> (r: usize)
    ensures
        r as nat == secondary_slot_width(dt),
{
    match dt {
        DataType::DenseUnion => 4,
        _ => 0,
    }
}

pub fn has_offsets_of(dt: DataType) -> (r: bool)
    ensures
        r == has_offsets(dt),
{
    match dt {
        DataType::Utf8 | DataType::Binary | DataType::List | DataType::KeyValueMap
        | DataType::LargeUtf8 | DataType::LargeBinary | DataType::LargeList => true,
        _ => false,
    }
}

pub fn has_payload_of(dt: DataType) -> (r: bool)
    ensures
        r == has_payload(dt),
{
    match dt {
        DataType::Utf8 | DataType::Binary | DataType::LargeUtf8 | DataType::LargeBinary => true,
        _ => false,
    }
}

pub fn buffer_count_of(dt: DataType) -> (r: usize)
    ensures
        r as nat == buffer_count(dt),
{
    match dt {
        DataType::Null | DataType::Struct | DataType::FixedSizeList => 0,
        DataType::Utf8 | DataType::Binary | DataType::LargeUtf8 | DataType::LargeBinary
        | DataType::DenseUnion => 2,
        _ => 1,
    }
}

pub fn value_matches_of(dt: DataType, v: ScalarValue) -> (r: bool)
    ensures
        r == value_matches(dt, v),
{
    match v {
        ScalarValue::Boolean(_) => dt == DataType::Boolean,
        ScalarValue::Int8(_) => dt == DataType::Int8,
        ScalarValue::Int16(_) => dt == DataType::Int16,
        ScalarValue::Int32(_) => dt == DataType::Int32,
        ScalarValue::Int64(_) => dt == DataType::Int64,
        ScalarValue::UInt8(_) => dt == DataType::UInt8,
        ScalarValue::UInt16(_) => dt == DataType::UInt16,
        ScalarValue::UInt32(_) => dt == DataType::UInt32,
        ScalarValue::UInt64(_) => dt == DataType::UInt64,
    }
}

pub fn value_bits_of(v: ScalarValue) -> (r: u64)
    ensures
        r == value_bits(v),
{
    match v {
        ScalarValue::Boolean(b) => if b { 1 } else { 0 },
        ScalarValue::Int8(x) => x as u64,
        ScalarValue::Int16(x) => x as u64,
        ScalarValue::Int32(x) => x as u64,
        ScalarValue::Int64(x) => x as u64,
        ScalarValue::UInt8(x) => x as u64,
        ScalarValue::UInt16(x) => x as u64,
        ScalarValue::UInt32(x) => x as u64,
        ScalarValue::UInt64(x) => x,
    }
}

fn push_zeros(buf: &mut Vec<u8>, n: usize)
    ensures
        final(buf)@ == old(buf)@ + zeros(n as nat),
{
    let mut i: usize = 0;
    while i < n
        invariant
            i <= n,
            buf@ == old(buf)@ + zeros(i as nat),
        decreases n - i,
    {
        buf.push(0u8);
        proof {
            assert(old(buf)@ + zeros((i + 1) as nat) =~= (old(buf)@ + zeros(i as nat)).push(0u8));
        }
        i += 1;
    }
}

fn push_le_bytes(buf: &mut Vec<u8>, v: u64, n: usize)
    requires
        n <= 8,
    ensures
        final(buf)@ == old(buf)@ + le_bytes(v, n as nat),
{
    let mut i: usize = 0;
    while i < n
        invariant
            i <= n,
            n <= 8,
            buf@ == old(buf)@ + le_bytes(v, i as nat),
        decreases n - i,
    {
        let byte: u8 = ((v >> ((8 * i) as u64)) & 0xffu64) as u8;
        buf.push(byte);
        proof {
            assert(old(buf)@ + le_bytes(v, (i + 1) as nat) =~= (old(buf)@ + le_bytes(
                v,
                i as nat,
            )).push(byte));
        }
        i += 1;
    }
}


proof fn lemma_capacity_bounds(dt: DataType, capacity: nat)
    requires
        capacity_fits(dt, capacity),
    ensures
        slot_width(dt) * (capacity + 1) <= usize::MAX,
        slot_width(dt) * capacity <= usize::MAX,
        secondary_slot_width(dt) * capacity <= usize::MAX,
        capacity + 1 <= usize::MAX,
{
    let w = slot_width(dt);
    let c = capacity;
    assert(w * (c + 1) <= (w + 4) * (c + 1)) by (nonlinear_arith);
    assert(w * c <= w * (c + 1)) by (nonlinear_arith);
    assert(4 * c <= (w + 4) * (c + 1)) by (nonlinear_arith);
    assert(c + 1 <= (w + 4) * (c + 1)) by (nonlinear_arith);
    if dt == DataType::DenseUnion {
        assert(secondary_slot_width(dt) * c == 4 * c);
    } else {
        assert(secondary_slot_width(dt) * c == 0 * c);
    }
}

/// Allocation sizes of the two buffers for `capacity` rows.
pub fn buffer_capacities(dt: DataType, capacity: usize) -> (r: (usize, usize))
    requires
        capacity_fits(dt, capacity as nat),
    ensures
        r.0 as nat == primary_capacity(dt, capacity as nat),
        r.1 as nat == secondary_capacity(dt, capacity as nat),
{
    proof {
        lemma_capacity_bounds(dt, capacity as nat);
    }
    let w = slot_width_of(dt);
    let first = if dt == DataType::Boolean {
        ceil_div8(capacity)
    } else if has_offsets_of(dt) {
        w * (capacity + 1)
    } else {
        w * capacity
    };
    let second = if has_payload_of(dt) {
        capacity
    } else {
        secondary_slot_width_of(dt) * capacity
    };
    (first, second)
}

/// The two buffers of an empty column, allocated for `capacity` rows. The
/// first starts with a zero offset where the type has offsets.
pub fn new_buffers(dt: DataType, capacity: usize) -> (r: (Vec<u8>, Vec<u8>))
    requires
        capacity_fits(dt, capacity as nat),
    ensures
        r.0@ == leading_bytes(dt),
        r.1@.len() == 0,
{
    let (first_cap, second_cap) = buffer_capacities(dt, capacity);
    let mut first: Vec<u8> = Vec::with_capacity(first_cap);
    let second: Vec<u8> = Vec::with_capacity(second_cap);
    if has_offsets_of(dt) {
        push_zeros(&mut first, slot_width_of(dt));
        assert(first@ =~= leading_bytes(dt));
    } else {
        assert(first@ =~= leading_bytes(dt));
    }
    (first, second)
}

/// The buffers that a frozen column of type `dt` keeps, in order.
pub fn into_buffers(dt: DataType, buffer1: Vec<u8>, buffer2: Vec<u8>) -> (r: Vec<Vec<u8>>)
    ensures
        r@.len() == buffer_count(dt),
        r@.len() >= 1 ==> r@[0]@ == buffer1@,
        r@.len() == 2 ==> r@[1]@ == buffer2@,
{
    let n = buffer_count_of(dt);
    let mut out: Vec<Vec<u8>> = Vec::new();
    if n >= 1 {
        out.push(buffer1);
    }
    if n == 2 {
        out.push(buffer2);
    }
    out
}

/// An immutable column: its rows' buffers and null bitmap.
#[derive(Debug)]
pub struct ColumnData {
    pub data_type: DataType,
    pub len: usize,
    pub null_count: usize,
    /// Present only where some row is null.
    pub null_buffer: Option<Vec<u8>>,
    pub buffers: Vec<Vec<u8>>,
}

/// `r` is the immutable column of type `dt` that holds `cells`.
pub open spec fn frozen_from(r: ColumnData, dt: DataType, cells: Seq<Option<ScalarValue>>) -> bool {
    &&& r.data_type == dt
    &&& r.len as nat == cells.len()
    &&& r.null_count as nat == count_nulls(cells)
    &&& r.null_buffer is Some <==> count_nulls(cells) > 0
    &&& r.null_buffer is Some ==> validity_matches(cells, r.null_buffer->0@)
    &&& r.buffers@.len() == buffer_count(dt)
    &&& r.buffers@.len() >= 1 ==> primary_matches(dt, cells, r.buffers@[0]@)
    &&& r.buffers@.len() == 2 ==> r.buffers@[1]@ == encode_secondary(dt, cells.len())
}

/// A row value that a column of this type and nullability accepts.
pub open spec fn cell_accepted(dt: DataType, nullable: bool, c: Option<ScalarValue>) -> bool {
    match c {
        None => nullable,
        Some(v) => value_matches(dt, v),
    }
}

/// Builds one column of a batch, a row at a time, straight into its buffers.
pub struct MergedArrayData {
    data_type: DataType,
    nullable: bool,
    null_count: usize,
    len: usize,
    null_buffer: Vec<u8>,
    buffer1: Vec<u8>,
    buffer2: Vec<u8>,
    cells: Ghost<Seq<Option<ScalarValue>>>,
}

impl View for MergedArrayData {
    type V = Seq<Option<ScalarValue>>;

    /// The rows appended so far: `None` for a null row.
    closed spec fn view(&self) -> Seq<Option<ScalarValue>> {
        self.cells@
    }
}

proof fn lemma_encode_push(dt: DataType, cells: Seq<Option<ScalarValue>>, c: Option<ScalarValue>)
    ensures
        encode_cells(dt, cells.push(c)) == encode_cells(dt, cells) + cell_bytes(dt, c),
        count_nulls(cells.push(c)) == count_nulls(cells) + if c is None { 1nat } else { 0nat },
{
    assert(cells.push(c).drop_last() =~= cells);
}

proof fn lemma_count_nulls_bound(cells: Seq<Option<ScalarValue>>)
    ensures
        count_nulls(cells) <= cells.len(),
        (forall|i: int| 0 <= i < cells.len() ==> #[trigger] cells[i] is Some) ==> count_nulls(cells)
            == 0,
    decreases cells.len(),
{
    if cells.len() > 0 {
        lemma_count_nulls_bound(cells.drop_last());
        if forall|i: int| 0 <= i < cells.len() ==> #[trigger] cells[i] is Some {
            assert forall|i: int| 0 <= i < cells.drop_last().len() implies #[trigger] cells.drop_last()[i] is Some by {
                assert(cells[i] is Some);
            }
            assert(cells[cells.len() - 1] is Some);
        }
    }
}

impl MergedArrayData {
    pub closed spec fn spec_data_type(&self) -> DataType {
        self.data_type
    }

    pub closed spec fn spec_nullable(&self) -> bool {
        self.nullable
    }

    pub closed spec fn wf(&self) -> bool {
        let cells = self.cells@;
        let dt = self.data_type;
        &&& self.len as nat == cells.len()
        &&& self.null_count as nat == count_nulls(cells)
        &&& forall|i: int|
            0 <= i < cells.len() && #[trigger] cells[i] is Some ==> value_matches(dt, cells[i]->0)
        &&& !self.nullable ==> self.null_buffer@.len() == 0
        &&& !self.nullable ==> forall|i: int| 0 <= i < cells.len() ==> #[trigger] cells[i] is Some
        &&& self.nullable ==> validity_matches(cells, self.null_buffer@)
        &&& primary_matches(dt, cells, self.buffer1@)
        &&& self.buffer2@ == encode_secondary(dt, cells.len())
    }

    pub fn new(field: &Field, capacity: usize) -> (r: Self)
        requires
            capacity_fits(field.data_type, capacity as nat),
        ensures
            r.wf(),
            r@.len() == 0,
            r.spec_data_type() == field.data_type,
            r.spec_nullable() == field.nullable,
    {
        Self::with_capacities(field, capacity)
    }

    pub fn with_capacities(field: &Field, capacity: usize) -> (r: Self)
        requires
            capacity_fits(field.data_type, capacity as nat),
        ensures
            r.wf(),
            r@.len() == 0,
            r.spec_data_type() == field.data_type,
            r.spec_nullable() == field.nullable,
    {
        let (buffer1, buffer2) = new_buffers(field.data_type, capacity);
        let nullable = field.nullable;
        // a non-nullable column never touches its bitmap, so it gets no room
        let null_buffer: Vec<u8> = if nullable {
            Vec::with_capacity(ceil_div8(capacity))
        } else {
            Vec::with_capacity(0)
        };
        let r = MergedArrayData {
            data_type: field.data_type,
            nullable,
            null_count: 0,
            len: 0,
            null_buffer,
            buffer1,
            buffer2,
            cells: Ghost(Seq::empty()),
        };
        proof {
            assert(r.buffer1@ =~= leading_bytes(r.data_type) + encode_cells(r.data_type, r.cells@));
            assert(count_nulls(r.cells@) == 0);
            assert(r.buffer2@ =~= encode_secondary(r.data_type, 0));
            assert(primary_matches(r.data_type, r.cells@, r.buffer1@));
            assert(nullable ==> validity_matches(r.cells@, r.null_buffer@));
        }
        r
    }

    /// An empty, non-nullable column of type `Null` that allocates nothing.
    pub fn empty() -> (r: Self)
        ensures
            r.wf(),
            r@.len() == 0,
            r.spec_data_type() == DataType::Null,
            !r.spec_nullable(),
    {
        let r = MergedArrayData {
            data_type: DataType::Null,
            nullable: false,
            null_count: 0,
            len: 0,
            null_buffer: Vec::new(),
            buffer1: Vec::new(),
            buffer2: Vec::new(),
            cells: Ghost(Seq::empty()),
        };
        proof {
            assert(r.buffer1@ =~= leading_bytes(r.data_type) + encode_cells(r.data_type, r.cells@));
            assert(r.buffer2@ =~= encode_secondary(r.data_type, 0));
        }
        r
    }

    /// Appends a null row or a row that holds a value.
    pub fn push_cell(&mut self, c: Option<ScalarValue>) -> (r: Result<(), EngineError>)
        requires
            old(self).wf(),
            old(self)@.len() < usize::MAX,
        ensures
            final(self).wf(),
            final(self).spec_data_type() == old(self).spec_data_type(),
            final(self).spec_nullable() == old(self).spec_nullable(),
            cell_accepted(old(self).spec_data_type(), old(self).spec_nullable(), c) ==> r is Ok
                && final(self)@ == old(self)@.push(c),
            !cell_accepted(old(self).spec_data_type(), old(self).spec_nullable(), c) ==> r
                == Err::<(), EngineError>(EngineError::InvariantViolation) && *final(self) == *old(
                self,
            ),
    {
        match c {
            None => self.push_null(),
            Some(v) => self.push_non_null_item(v),
        }
    }

    pub fn len(&self) -> (r: usize)
        requires
            self.wf(),
        ensures
            r as nat == self@.len(),
    {
        self.len
    }

    pub fn null_count(&self) -> (r: usize)
        requires
            self.wf(),
        ensures
            r as nat == count_nulls(self@),
    {
        self.null_count
    }

    pub fn data_type(&self) -> (r: DataType)
        ensures
            r == self.spec_data_type(),
    {
        self.data_type
    }

    pub fn is_nullable(&self) -> (r: bool)
        ensures
            r == self.spec_nullable(),
    {
        self.nullable
    }

    /// Appends a null row. A column that is not nullable refuses it and stays
    /// as it was.
    pub fn push_null(&mut self) -> (r: Result<(), EngineError>)
        requires
            old(self).wf(),
            old(self)@.len() < usize::MAX,
        ensures
            final(self).wf(),
            final(self).spec_data_type() == old(self).spec_data_type(),
            final(self).spec_nullable() == old(self).spec_nullable(),
            old(self).spec_nullable() ==> r is Ok && final(self)@ == old(self)@.push(None),
            !old(self).spec_nullable() ==> r == Err::<(), EngineError>(
                EngineError::InvariantViolation,
            ) && *final(self) == *old(self),
    {
        if !self.nullable {
            return Err(EngineError::InvariantViolation);
        }
        let ghost cells = self.cells@;
        let ghost old_first = self.buffer1@;
        let dt = self.data_type;
        proof {
            lemma_count_nulls_bound(cells);
            lemma_encode_push(dt, cells, None);
        }
        if dt == DataType::Boolean {
            push_bit(&mut self.buffer1, self.len, false);
        } else {
            // a null slot keeps the zeroed width of a value
            push_zeros(&mut self.buffer1, slot_width_of(dt));
        }
        push_zeros(&mut self.buffer2, secondary_slot_width_of(dt));
        push_bit(&mut self.null_buffer, self.len, false);
        self.len = self.len + 1;
        self.null_count = self.null_count + 1;
        self.cells = Ghost(cells.push(None));
        proof {
            let nc = cells.push(None);
            assert(forall|i: int| 0 <= i < cells.len() ==> nc[i] == cells[i]);
            if dt == DataType::Boolean {
                assert forall|i: int| 0 <= i < nc.len() implies get_bit(self.buffer1@, i) == (nc[i]
                    == Some(ScalarValue::Boolean(true))) by {
                    if i < cells.len() {
                        assert(nc[i] == cells[i]);
                    }
                }
            } else {
                assert(self.buffer1@ =~= leading_bytes(dt) + encode_cells(dt, nc));
            }
            assert forall|i: int| 0 <= i < nc.len() implies get_bit(self.null_buffer@, i) == nc[i] is Some by {
                if i < cells.len() {
                    assert(nc[i] == cells[i]);
                }
            }
            assert forall|i: int| 0 <= i < nc.len() && #[trigger] nc[i] is Some implies value_matches(dt, nc[i]->0) by {
                assert(nc[i] == cells[i]);
            }
        }
        Ok(())
    }

    /// Sets the bitmap bit of the row about to be appended.
    fn extend_non_null_bit(&mut self)
        requires
            old(self).nullable,
            validity_matches(old(self).cells@, old(self).null_buffer@),
            old(self).len as nat == old(self).cells@.len(),
            old(self).len < usize::MAX,
        ensures
            final(self).null_buffer@.len() == bytes_for_bits(old(self).len as nat + 1),
            tail_clear(final(self).null_buffer@, old(self).len as nat + 1),
            get_bit(final(self).null_buffer@, old(self).len as int),
            forall|i: int|
                0 <= i < old(self).len ==> get_bit(final(self).null_buffer@, i) == get_bit(
                    old(self).null_buffer@,
                    i,
                ),
            final(self).data_type == old(self).data_type,
            final(self).nullable == old(self).nullable,
            final(self).len == old(self).len,
            final(self).null_count == old(self).null_count,
            final(self).buffer1 == old(self).buffer1,
            final(self).buffer2 == old(self).buffer2,
            final(self).cells == old(self).cells,
    {
        push_bit(&mut self.null_buffer, self.len, true);
    }

    /// Appends a row that holds `item`. A value whose type is not the
    /// column's is refused, and the column stays as it was.
    pub fn push_non_null_item(&mut self, item: ScalarValue) -> (r: Result<(), EngineError>)
        requires
            old(self).wf(),
            old(self)@.len() < usize::MAX,
        ensures
            final(self).wf(),
            final(self).spec_data_type() == old(self).spec_data_type(),
            final(self).spec_nullable() == old(self).spec_nullable(),
            value_matches(old(self).spec_data_type(), item) ==> r is Ok && final(self)@ == old(
                self,
            )@.push(Some(item)),
            !value_matches(old(self).spec_data_type(), item) ==> r == Err::<(), EngineError>(
                EngineError::InvariantViolation,
            ) && *final(self) == *old(self),
    {
        let dt = self.data_type;
        if !value_matches_of(dt, item) {
            return Err(EngineError::InvariantViolation);
        }
        let ghost cells = self.cells@;
        proof {
            lemma_count_nulls_bound(cells);
            lemma_encode_push(dt, cells, Some(item));
        }
        if self.nullable {
            self.extend_non_null_bit();
        }
        let bits = value_bits_of(item);
        if dt == DataType::Boolean {
            push_bit(&mut self.buffer1, self.len, bits == 1);
        } else {
            push_le_bytes(&mut self.buffer1, bits, slot_width_of(dt));
        }
        push_zeros(&mut self.buffer2, secondary_slot_width_of(dt));
        self.len = self.len + 1;
        self.cells = Ghost(cells.push(Some(item)));
        proof {
            let nc = cells.push(Some(item));
            assert(forall|i: int| 0 <= i < cells.len() ==> nc[i] == cells[i]);
            if dt == DataType::Boolean {
                assert forall|i: int| 0 <= i < nc.len() implies get_bit(self.buffer1@, i) == (nc[i]
                    == Some(ScalarValue::Boolean(true))) by {
                    if i < cells.len() {
                        assert(nc[i] == cells[i]);
                    }
                }
            } else {
                assert(self.buffer1@ =~= leading_bytes(dt) + encode_cells(dt, nc));
            }
            if self.nullable {
                assert forall|i: int| 0 <= i < nc.len() implies get_bit(self.null_buffer@, i)
                    == nc[i] is Some by {
                    if i < cells.len() {
                        assert(nc[i] == cells[i]);
                    }
                }
            } else {
                assert forall|i: int| 0 <= i < nc.len() implies #[trigger] nc[i] is Some by {
                    if i < cells.len() {
                        assert(nc[i] == cells[i]);
                    }
                }
            }
            assert forall|i: int| 0 <= i < nc.len() && #[trigger] nc[i] is Some implies value_matches(dt, nc[i]->0) by {
                if i < cells.len() {
                    assert(nc[i] == cells[i]);
                }
            }
        }
        Ok(())
    }

    /// Turns the builder into an immutable column. The null bitmap is kept
    /// only where some row is null.
    pub fn freeze(self) -> (r: ColumnData)
        requires
            self.wf(),
        ensures
            frozen_from(r, self.spec_data_type(), self@),
    {
        proof {
            lemma_count_nulls_bound(self.cells@);
        }
        let dt = self.data_type;
        let buffers = into_buffers(dt, self.buffer1, self.buffer2);
        let null_buffer = if self.null_count > 0 {
            Some(self.null_buffer)
        } else {
            None
        };
        ColumnData { data_type: dt, len: self.len, null_count: self.null_count, null_buffer, buffers }
    }
}

/// Whatever appends a column saw, its frozen form has one row per append and
/// one null per null append: `count_nulls` is the number of `None` rows.
pub proof fn lemma_null_count_is_null_appends(cells: Seq<Option<ScalarValue>>)
    ensures
        count_nulls(cells) == cells.filter(|c: Option<ScalarValue>| c is None).len(),
    decreases cells.len(),
{
    if cells.len() > 0 {
        lemma_null_count_is_null_appends(cells.drop_last());
        reveal(Seq::filter);
    }
}

} // verus!
