//! Columns and the batch: one named, typed storage unit per column, all of
//! equal length whenever no transaction is in flight.

use crate::dict::Dictionary;
use crate::stats::BytesStatValues;
use crate::stats::FloatBits;
use crate::stats::StatValues;
use vstd::prelude::*;

verus! {

/// A column's semantic type. Integer and timestamp columns share a storage
/// variant but are distinct semantic types and never interchangeable.
#[derive(Clone, Copy, PartialEq, Eq, Structural, Debug)]
pub enum ColumnType {
    F64,
    I64,
    U64,
    Bool,
    Str,
    Tag,
    Time,
}

/// A column's value store, paired with its cumulative statistics. The
/// variant is fixed at creation and must match the semantic type. Tag
/// columns own the dictionary their codes index into; a `None` code is a
/// null row.
pub enum ColumnData {
    F64(Vec<FloatBits>, StatValues<FloatBits>),
    I64(Vec<i64>, StatValues<i64>),
    U64(Vec<u64>, StatValues<u64>),
    Bool(Vec<bool>, StatValues<bool>),
    Str(Vec<Vec<u8>>, BytesStatValues),
    Tag(Vec<Option<usize>>, Dictionary, BytesStatValues),
}

/// One named, typed, fixed-row-count storage unit plus its null bitmap.
pub struct Column {
    pub name: Vec<u8>,
    pub influx_type: ColumnType,
    pub valid: Vec<bool>,
    pub data: ColumnData,
}

/// The table: an ordered sequence of uniquely named columns and the current
/// committed row count.
pub struct MutableBatch {
    pub columns: Vec<Column>,
    pub row_count: usize,
}

pub open spec fn data_len(d: ColumnData) -> int {
    match d {
        ColumnData::F64(v, _) => v@.len() as int,
        ColumnData::I64(v, _) => v@.len() as int,
        ColumnData::U64(v, _) => v@.len() as int,
        ColumnData::Bool(v, _) => v@.len() as int,
        ColumnData::Str(v, _) => v@.len() as int,
        ColumnData::Tag(v, _, _) => v@.len() as int,
    }
}

/// Whether the storage variant matches the semantic type.
pub open spec fn type_matches(t: ColumnType, d: ColumnData) -> bool {
    match t {
        ColumnType::F64 => d is F64,
        ColumnType::I64 => d is I64,
        ColumnType::U64 => d is U64,
        ColumnType::Bool => d is Bool,
        ColumnType::Str => d is Str,
        ColumnType::Tag => d is Tag,
        ColumnType::Time => d is I64,
    }
}

/// The cumulative total row count recorded in the column's statistics.
pub open spec fn stats_total(d: ColumnData) -> int {
    match d {
        ColumnData::F64(_, s) => s.total_count as int,
        ColumnData::I64(_, s) => s.total_count as int,
        ColumnData::U64(_, s) => s.total_count as int,
        ColumnData::Bool(_, s) => s.total_count as int,
        ColumnData::Str(_, s) => s.total_count as int,
        ColumnData::Tag(_, _, s) => s.total_count as int,
    }
}

/// The cumulative null count recorded in a store's statistics.
pub open spec fn stats_nulls(d: ColumnData) -> int {
    match d {
        ColumnData::F64(_, s) => s.null_count as int,
        ColumnData::I64(_, s) => s.null_count as int,
        ColumnData::U64(_, s) => s.null_count as int,
        ColumnData::Bool(_, s) => s.null_count as int,
        ColumnData::Str(_, s) => s.null_count as int,
        ColumnData::Tag(_, _, s) => s.null_count as int,
    }
}

/// Invariants of a tag store: codes index live dictionary entries, the
/// dictionary is an interning table, and its highest code is referenced by
/// some row, so that a rollback's truncation restores it exactly.
pub open spec fn tag_wf(codes: Seq<Option<usize>>, dict: Dictionary) -> bool {
    &&& dict.wf()
    &&& dict.entries@.len() <= codes.len()
    &&& forall|r: int|
        0 <= r < codes.len() ==> (#[trigger] codes[r] matches Option::Some(c) ==> (c as int)
            < dict.entries@.len())
    &&& dict.entries@.len() > 0 ==> exists|r: int|
        0 <= r < codes.len() && codes[r] == Option::Some((dict.entries@.len() - 1) as usize)
}

/// A well-formed column of `rows` rows.
pub open spec fn col_wf(c: Column, rows: int) -> bool {
    &&& type_matches(c.influx_type, c.data)
    &&& c.valid@.len() == rows
    &&& data_len(c.data) == rows
    &&& stats_total(c.data) == rows
    &&& stats_nulls(c.data) <= rows
    &&& (c.data matches ColumnData::Tag(codes, dict, _) ==> tag_wf(codes@, dict))
}

/// Distinct column names.
pub open spec fn names_distinct(cols: Seq<Column>) -> bool {
    forall|i: int, j: int| 0 <= i < j < cols.len() ==> cols[i].name@ != cols[j].name@
}

/// A well-formed batch: every column has `row_count` rows and its own
/// invariants hold; names are unique.
pub open spec fn batch_wf(b: MutableBatch) -> bool {
    &&& forall|i: int| 0 <= i < b.columns@.len() ==> col_wf(#[trigger] b.columns@[i], b.row_count as int)
    &&& names_distinct(b.columns@)
}

/// A vector of `rows` copies of `val`.
pub fn filled<T: Copy>(rows: usize, val: T) -> (v: Vec<T>)
    ensures
        v@ == Seq::new(rows as nat, |r: int| val),
{
    let mut v: Vec<T> = Vec::new();
    let mut i: usize = 0;
    while i < rows
        invariant
            i <= rows,
            v@ == Seq::new(i as nat, |r: int| val),
        decreases rows - i,
    {
        v.push(val);
        proof {
            assert(v@ =~= Seq::new((i + 1) as nat, |r: int| val));
        }
        i = i + 1;
    }
    v
}

/// Extends `v` with copies of `val` up to length `target`.
pub fn grow_to<T: Copy>(v: &mut Vec<T>, target: usize, val: T)
    requires
        old(v)@.len() <= target,
    ensures
        final(v)@ == old(v)@ + Seq::new((target - old(v)@.len()) as nat, |r: int| val),
{
    let mut i: usize = v.len();
    while i < target
        invariant
            old(v)@.len() <= i <= target,
            v@ == old(v)@ + Seq::new((i - old(v)@.len()) as nat, |r: int| val),
        decreases target - i,
    {
        v.push(val);
        proof {
            assert(v@ =~= old(v)@ + Seq::new((i + 1 - old(v)@.len()) as nat, |r: int| val));
        }
        i = i + 1;
    }
}

/// A vector of `rows` empty byte strings.
pub fn filled_empty_bytes(rows: usize) -> (v: Vec<Vec<u8>>)
    ensures
        v@.len() == rows,
        forall|r: int| 0 <= r < rows ==> (#[trigger] v@[r])@.len() == 0,
{
    let mut v: Vec<Vec<u8>> = Vec::new();
    let mut i: usize = 0;
    while i < rows
        invariant
            i <= rows,
            v@.len() == i,
            forall|r: int| 0 <= r < i ==> (#[trigger] v@[r])@.len() == 0,
        decreases rows - i,
    {
        v.push(Vec::new());
        i = i + 1;
    }
    v
}

/// Extends `v` with empty byte strings up to length `target`.
pub fn grow_empty_bytes(v: &mut Vec<Vec<u8>>, target: usize)
    requires
        old(v)@.len() <= target,
    ensures
        final(v)@.len() == target,
        final(v)@.subrange(0, old(v)@.len() as int) == old(v)@,
        forall|r: int| old(v)@.len() <= r < target ==> (#[trigger] final(v)@[r])@.len() == 0,
{
    let mut i: usize = v.len();
    while i < target
        invariant
            old(v)@.len() <= i <= target,
            v@.len() == i,
            v@.subrange(0, old(v)@.len() as int) == old(v)@,
            forall|r: int| old(v)@.len() <= r < i ==> (#[trigger] v@[r])@.len() == 0,
        decreases target - i,
    {
        v.push(Vec::new());
        proof {
            assert(v@.subrange(0, old(v)@.len() as int) =~= old(v)@);
        }
        i = i + 1;
    }
}

/// Whether the cumulative statistics of `d` record `rows` rows, all null,
/// with no extremes and no distinct count.
pub open spec fn data_stats_all_null(d: ColumnData, rows: int) -> bool {
    match d {
        ColumnData::F64(_, s) => s == (StatValues::<FloatBits> {
            min: Option::None,
            max: Option::None,
            total_count: rows as u64,
            null_count: rows as u64,
        }),
        ColumnData::I64(_, s) => s == (StatValues::<i64> {
            min: Option::None,
            max: Option::None,
            total_count: rows as u64,
            null_count: rows as u64,
        }),
        ColumnData::U64(_, s) => s == (StatValues::<u64> {
            min: Option::None,
            max: Option::None,
            total_count: rows as u64,
            null_count: rows as u64,
        }),
        ColumnData::Bool(_, s) => s == (StatValues::<bool> {
            min: Option::None,
            max: Option::None,
            total_count: rows as u64,
            null_count: rows as u64,
        }),
        ColumnData::Str(_, s) => s.model() == (
            Option::<Seq<u8>>::None,
            Option::<Seq<u8>>::None,
            rows,
            rows,
        ) && s.distinct_count matches Option::None,
        ColumnData::Tag(_, _, s) => s.model() == (
            Option::<Seq<u8>>::None,
            Option::<Seq<u8>>::None,
            rows,
            rows,
        ) && s.distinct_count matches Option::None,
    }
}

/// Whether every entry of `d` below `upto` is the default: zero, false,
/// empty, or a null code; for a tag store, also that the dictionary is empty
/// when the store has its creation length `upto`.
pub open spec fn data_default_prefix(d: ColumnData, upto: int) -> bool {
    match d {
        ColumnData::F64(v, _) => forall|r: int| 0 <= r < upto ==> (#[trigger] v@[r]).bits == 0,
        ColumnData::I64(v, _) => forall|r: int| 0 <= r < upto ==> #[trigger] v@[r] == 0i64,
        ColumnData::U64(v, _) => forall|r: int| 0 <= r < upto ==> #[trigger] v@[r] == 0u64,
        ColumnData::Bool(v, _) => forall|r: int| 0 <= r < upto ==> #[trigger] v@[r] == false,
        ColumnData::Str(v, _) => forall|r: int| 0 <= r < upto ==> (#[trigger] v@[r])@.len() == 0,
        ColumnData::Tag(v, _, _) => forall|r: int|
            0 <= r < upto ==> #[trigger] v@[r] matches Option::None,
    }
}

/// An all-null column as creation leaves it: `rows` rows, every one null,
/// default storage, all-null statistics, and for a tag column an empty
/// dictionary.
pub open spec fn col_is_all_null(c: Column, name: Seq<u8>, t: ColumnType, rows: int) -> bool {
    &&& c.name@ == name
    &&& c.influx_type == t
    &&& type_matches(c.influx_type, c.data)
    &&& c.valid@.len() == rows
    &&& forall|r: int| 0 <= r < rows ==> #[trigger] c.valid@[r] == false
    &&& data_len(c.data) == rows
    &&& data_default_prefix(c.data, rows)
    &&& data_stats_all_null(c.data, rows)
    &&& (c.data matches ColumnData::Tag(_, d, _) ==> d.entries@.len() == 0 && d.wf())
}

impl Column {
    /// A new all-null column of `rows` rows under the given semantic type.
    pub fn new_all_null(name: Vec<u8>, t: ColumnType, rows: usize) -> (c: Column)
        ensures
            col_is_all_null(c, name@, t, rows as int),
            col_wf(c, rows as int),
            c.name == name,
    {
        let valid = filled(rows, false);
        let data = match t {
            ColumnType::F64 => ColumnData::F64(
                filled(rows, FloatBits { bits: 0 }),
                StatValues::new_all_null(rows as u64),
            ),
            ColumnType::I64 => ColumnData::I64(
                filled(rows, 0i64),
                StatValues::new_all_null(rows as u64),
            ),
            ColumnType::U64 => ColumnData::U64(
                filled(rows, 0u64),
                StatValues::new_all_null(rows as u64),
            ),
            ColumnType::Bool => ColumnData::Bool(
                filled(rows, false),
                StatValues::new_all_null(rows as u64),
            ),
            ColumnType::Str => ColumnData::Str(
                filled_empty_bytes(rows),
                BytesStatValues::new_all_null(rows as u64),
            ),
            ColumnType::Tag => ColumnData::Tag(
                filled(rows, Option::<usize>::None),
                Dictionary::new(),
                BytesStatValues::new_all_null(rows as u64),
            ),
            ColumnType::Time => ColumnData::I64(
                filled(rows, 0i64),
                StatValues::new_all_null(rows as u64),
            ),
        };
        Column { name, influx_type: t, valid, data }
    }
}

impl MutableBatch {
    /// An empty batch: no columns, no rows.
    pub fn new() -> (b: MutableBatch)
        ensures
            batch_wf(b),
            b.columns@.len() == 0,
            b.row_count == 0,
    {
        MutableBatch { columns: Vec::new(), row_count: 0 }
    }

    /// The committed row count.
    pub fn rows(&self) -> (n: usize)
        ensures
            n == self.row_count,
    {
        self.row_count
    }
}

} // verus!
