//! The append transaction: a [`Writer`] takes a batch, accepts one typed
//! write per column for a fixed number of new rows, and is consumed either
//! by [`Writer::commit`], which merges statistics and pads unwritten
//! columns, or by [`Writer::rollback`], which restores the batch to its
//! pre-transaction state.

use crate::batch::batch_wf;
use crate::batch::col_is_all_null;
use crate::batch::col_wf;
use crate::batch::data_default_prefix;
use crate::batch::data_len;
use crate::batch::data_stats_all_null;
use crate::batch::names_distinct;
use crate::batch::stats_nulls;
use crate::batch::stats_total;
use crate::batch::tag_wf;
use crate::batch::type_matches;
use crate::batch::Column;
use crate::batch::ColumnData;
use crate::batch::ColumnType;
use crate::batch::MutableBatch;
use crate::mask::count_set;
use crate::mask::effective_bit;
use crate::mask::opt_mask_view;
use crate::stats::bspec_update_all;
use crate::stats::spec_update_all;
use crate::stats::BytesStatValues;
use crate::stats::BytesStatsModel;
use crate::stats::FloatBits;
use crate::stats::StatOrd;
use crate::stats::StatValues;
use vstd::prelude::*;

verus! {

/// A recoverable failure of one write call. The transaction stays usable
/// for other columns, or can be rolled back.
#[derive(Clone, Copy, PartialEq, Eq, Structural, Debug)]
pub enum Error {
    /// The write targets an existing column of a different semantic type.
    TypeMismatch { existing: ColumnType, inserted: ColumnType },
    /// The value sequence holds fewer items than the mask requires.
    InsufficientValues,
    /// A dictionary-coded write's key falls outside its local value table.
    KeyNotFound { key: usize },
}

/// One pending statistics record, typed like the column it belongs to.
pub enum Statistics {
    F64(StatValues<FloatBits>),
    I64(StatValues<i64>),
    U64(StatValues<u64>),
    Bool(StatValues<bool>),
    Str(BytesStatValues),
}

/// Whether a pending record's type fits a column's semantic type.
pub open spec fn stat_matches(st: Statistics, t: ColumnType) -> bool {
    match st {
        Statistics::F64(_) => t is F64,
        Statistics::I64(_) => t is I64 || t is Time,
        Statistics::U64(_) => t is U64,
        Statistics::Bool(_) => t is Bool,
        Statistics::Str(_) => t is Str || t is Tag,
    }
}

/// The total row count a pending record accounts for.
pub open spec fn stat_rec_total(st: Statistics) -> int {
    match st {
        Statistics::F64(s) => s.total_count as int,
        Statistics::I64(s) => s.total_count as int,
        Statistics::U64(s) => s.total_count as int,
        Statistics::Bool(s) => s.total_count as int,
        Statistics::Str(s) => s.total_count as int,
    }
}

/// Equality of two columns as values: same name, type, validity, stored
/// values, dictionary and cumulative statistics.
pub open spec fn col_eq(a: Column, b: Column) -> bool {
    &&& a.name@ == b.name@
    &&& a.influx_type == b.influx_type
    &&& a.valid@ == b.valid@
    &&& match (a.data, b.data) {
        (ColumnData::F64(v, s), ColumnData::F64(w, t)) => v@ == w@ && s == t,
        (ColumnData::I64(v, s), ColumnData::I64(w, t)) => v@ == w@ && s == t,
        (ColumnData::U64(v, s), ColumnData::U64(w, t)) => v@ == w@ && s == t,
        (ColumnData::Bool(v, s), ColumnData::Bool(w, t)) => v@ == w@ && s == t,
        (ColumnData::Str(v, s), ColumnData::Str(w, t)) => v@ == w@ && s == t,
        (ColumnData::Tag(v, d, s), ColumnData::Tag(w, e, t)) => v@ == w@ && d.entries@
            == e.entries@ && s == t,
        _ => false,
    }
}

/// How a column mid-transaction relates to its pre-transaction state `s`:
/// identity up to row `init`, at most `n` appended rows, untouched
/// cumulative statistics, and an append-only dictionary whose new top entry,
/// if any, is referenced by some stored code.
pub open spec fn col_extends(c: Column, s: Column, init: int, n: int) -> bool {
    &&& c.name@ == s.name@
    &&& c.influx_type == s.influx_type
    &&& type_matches(c.influx_type, c.data)
    &&& (c.valid@.len() == init || c.valid@.len() == init + n)
    &&& c.valid@.subrange(0, init) == s.valid@
    &&& (data_len(c.data) == init || data_len(c.data) == init + n)
    &&& (c.valid@.len() == init + n ==> data_len(c.data) == init + n)
    &&& match (c.data, s.data) {
        (ColumnData::F64(v, st), ColumnData::F64(w, su)) => v@.subrange(0, init) == w@ && st == su,
        (ColumnData::I64(v, st), ColumnData::I64(w, su)) => v@.subrange(0, init) == w@ && st == su,
        (ColumnData::U64(v, st), ColumnData::U64(w, su)) => v@.subrange(0, init) == w@ && st == su,
        (ColumnData::Bool(v, st), ColumnData::Bool(w, su)) => v@.subrange(0, init) == w@ && st
            == su,
        (ColumnData::Str(v, st), ColumnData::Str(w, su)) => v@.subrange(0, init) == w@ && st == su,
        (ColumnData::Tag(v, d, st), ColumnData::Tag(w, e, su)) => {
            &&& v@.subrange(0, init) == w@
            &&& st == su
            &&& d.wf()
            &&& d.entries@.len() >= e.entries@.len()
            &&& d.entries@.subrange(0, e.entries@.len() as int) == e.entries@
            &&& forall|r: int|
                0 <= r < v@.len() ==> (#[trigger] v@[r] matches Option::Some(code) ==> (
                code as int) < d.entries@.len())
            &&& d.entries@.len() > e.entries@.len() ==> exists|r: int|
                0 <= r < v@.len() && v@[r] == Option::Some((d.entries@.len() - 1) as usize)
            &&& data_len(c.data) == init ==> d.entries@.len() == e.entries@.len()
            &&& d.entries@.len() <= init + n
        },
        _ => false,
    }
}

/// How a column created during the transaction relates to nothing: all-null
/// up to row `init`, at most `n` appended rows, all-null statistics, and a
/// dictionary grown from empty.
pub open spec fn col_fresh(c: Column, init: int, n: int) -> bool {
    &&& type_matches(c.influx_type, c.data)
    &&& (c.valid@.len() == init || c.valid@.len() == init + n)
    &&& forall|r: int| 0 <= r < init && r < c.valid@.len() ==> #[trigger] c.valid@[r] == false
    &&& (data_len(c.data) == init || data_len(c.data) == init + n)
    &&& (c.valid@.len() == init + n ==> data_len(c.data) == init + n)
    &&& data_default_prefix(c.data, init)
    &&& data_stats_all_null(c.data, init)
    &&& match c.data {
        ColumnData::Tag(v, d, _) => {
            &&& d.wf()
            &&& forall|r: int|
                0 <= r < v@.len() ==> (#[trigger] v@[r] matches Option::Some(code) ==> (
                code as int) < d.entries@.len())
            &&& d.entries@.len() > 0 ==> exists|r: int|
                0 <= r < v@.len() && v@[r] == Option::Some((d.entries@.len() - 1) as usize)
            &&& data_len(c.data) == init ==> d.entries@.len() == 0
            &&& d.entries@.len() <= init + n
        },
        _ => true,
    }
}

/// One append of a fixed number of rows to a batch. The writer owns the
/// batch for the transaction's lifetime and gives it back on commit or
/// rollback; `snapshot` carries the pre-transaction batch for the
/// all-or-nothing contract.
pub struct Writer {
    pub batch: MutableBatch,
    pub statistics: Vec<(usize, Statistics)>,
    pub initial_rows: usize,
    pub to_insert: usize,
    pub snapshot: Ghost<MutableBatch>,
}

impl Writer {
    /// The transaction invariant, held by every write call and consumed by
    /// commit and rollback.
    pub open spec fn wf(self) -> bool {
        let snap = self.snapshot@;
        let init = self.initial_rows as int;
        let n = self.to_insert as int;
        &&& batch_wf(snap)
        &&& self.initial_rows == snap.row_count
        &&& self.batch.row_count == self.initial_rows
        &&& self.initial_rows + self.to_insert < usize::MAX
        &&& self.batch.columns@.len() >= snap.columns@.len()
        &&& forall|i: int|
            0 <= i < snap.columns@.len() ==> col_extends(
                #[trigger] self.batch.columns@[i],
                snap.columns@[i],
                init,
                n,
            )
        &&& forall|i: int|
            snap.columns@.len() <= i < self.batch.columns@.len() ==> col_fresh(
                #[trigger] self.batch.columns@[i],
                init,
                n,
            )
        &&& names_distinct(self.batch.columns@)
        &&& self.stats_ok()
    }

    /// The pending statistics records: each belongs to a written column of
    /// the right type and accounts for exactly `to_insert` rows; written
    /// columns and records correspond one to one whenever rows are added.
    pub open spec fn stats_ok(self) -> bool {
        let init = self.initial_rows as int;
        let n = self.to_insert as int;
        &&& forall|k: int|
            0 <= k < self.statistics@.len() ==> {
                let (idx, st) = #[trigger] self.statistics@[k];
                &&& (idx as int) < self.batch.columns@.len()
                &&& self.batch.columns@[idx as int].valid@.len() == init + n
                &&& stat_matches(st, self.batch.columns@[idx as int].influx_type)
                &&& stat_rec_total(st) == n
                &&& stat_rec_nulls(st) <= n
            }
        &&& n > 0 ==> forall|k1: int, k2: int|
            0 <= k1 < k2 < self.statistics@.len() ==> (#[trigger] self.statistics@[k1]).0 != (
            #[trigger] self.statistics@[k2]).0
        &&& forall|i: int|
            0 <= i < self.batch.columns@.len() && (#[trigger] self.batch.columns@[i]).valid@.len()
                != init ==> exists|k: int|
                0 <= k < self.statistics@.len() && (#[trigger] self.statistics@[k]).0 == i
    }

    /// Creates a writer appending `to_insert` rows to `batch`. The batch
    /// must be well formed and the new row count must be representable.
    pub fn new(batch: MutableBatch, to_insert: usize) -> (w: Writer)
        requires
            batch_wf(batch),
            batch.row_count + to_insert < usize::MAX,
        ensures
            w.wf(),
            w.snapshot@ == batch,
            w.batch == batch,
            w.to_insert == to_insert,
            w.initial_rows == batch.row_count,
            w.statistics@.len() == 0,
    {
        let initial_rows = batch.rows();
        let ghost snap = batch;
        let w = Writer {
            batch,
            statistics: Vec::new(),
            initial_rows,
            to_insert,
            snapshot: Ghost(snap),
        };
        proof {
            assert forall|i: int| 0 <= i < snap.columns@.len() implies col_extends(
                #[trigger] w.batch.columns@[i],
                snap.columns@[i],
                initial_rows as int,
                to_insert as int,
            ) by {
                lemma_col_extends_refl(snap.columns@[i], initial_rows as int, to_insert as int);
            }
        }
        w
    }

    /// Commits the transaction: every written column keeps its new rows and
    /// gains its pending statistics record, every untouched column is padded
    /// with `to_insert` nulls, and the batch's row count moves to
    /// `initial_rows + to_insert`. The batch invariant holds again: every
    /// column's validity length equals the new row count.
    #[verifier::rlimit(100)]
    pub fn commit(self) -> (b: MutableBatch)
        requires
            self.wf(),
        ensures
            batch_wf(b),
            b.row_count == self.initial_rows + self.to_insert,
            b.columns@.len() == self.batch.columns@.len(),
            forall|i: int|
                0 <= i < b.columns@.len() ==> if (#[trigger] self.batch.columns@[i]).valid@.len()
                    == self.initial_rows {
                    col_padded(
                        #[trigger] b.columns@[i],
                        self.batch.columns@[i],
                        self.initial_rows as int,
                        self.to_insert as int,
                    )
                } else {
                    col_merged(
                        b.columns@[i],
                        self.batch.columns@[i],
                        stat_record_for(self.statistics@, i),
                        self.to_insert as int,
                    )
                },
    {
        let ghost ow = self;
        let Writer { batch: mut batch, statistics, initial_rows, to_insert, snapshot } = self;
        let ghost snap = snapshot@;
        let ghost initi = initial_rows as int;
        let ghost ni = to_insert as int;
        let target = initial_rows + to_insert;
        let cols_len = batch.columns.len();
        let mut i: usize = 0;
        while i < cols_len
            invariant
                ow.wf(),
                initi == initial_rows as int,
                ni == to_insert as int,
                target == initial_rows + to_insert,
                snap == ow.snapshot@,
                initial_rows == ow.initial_rows,
                to_insert == ow.to_insert,
                statistics == ow.statistics,
                cols_len == batch.columns@.len(),
                batch.columns@.len() == ow.batch.columns@.len(),
                batch.row_count == ow.batch.row_count,
                i <= cols_len,
                forall|j: int| i <= j < cols_len ==> batch.columns@[j] == ow.batch.columns@[j],
                forall|j: int|
                    0 <= j < i ==> if (#[trigger] ow.batch.columns@[j]).valid@.len()
                        == initial_rows {
                        col_padded(#[trigger] batch.columns@[j], ow.batch.columns@[j], initi, ni)
                    } else {
                        col_merged(
                            batch.columns@[j],
                            ow.batch.columns@[j],
                            stat_record_for(statistics@, j),
                            ni,
                        )
                    },
            decreases cols_len - i,
        {
            let ghost oc = batch.columns@[i as int];
            proof {
                if (i as int) < snap.columns@.len() {
                    assert(col_extends(oc, snap.columns@[i as int], initi, ni));
                    assert(col_wf(snap.columns@[i as int], initi));
                } else {
                    assert(col_fresh(oc, initi, ni));
                }
            }
            let col: &mut Column = &mut batch.columns[i];
            if col.valid.len() == initial_rows {
                pad_column(col, initial_rows, to_insert);
            } else {
                let slen = statistics.len();
                let mut kk: usize = 0;
                while kk < slen && statistics[kk].0 != i
                    invariant
                        ow.stats_ok(),
                        statistics == ow.statistics,
                        slen == statistics@.len(),
                        kk <= slen,
                        forall|q: int| 0 <= q < kk ==> (#[trigger] statistics@[q]).0 != i,
                    decreases slen - kk,
                {
                    kk = kk + 1;
                }
                proof {
                    assert(ow.batch.columns@[i as int].valid@.len() != initi);
                    assert(exists|k: int|
                        0 <= k < statistics@.len() && (#[trigger] statistics@[k]).0 == i as int);
                    let kw = choose|k: int|
                        0 <= k < statistics@.len() && (#[trigger] statistics@[k]).0 == i as int;
                    assert(kk < slen);
                    assert(statistics@[kk as int].0 == i);
                    assert(ni > 0);
                    let kc = choose|k: int|
                        0 <= k < statistics@.len() && (#[trigger] statistics@[k]).0 == i as int;
                    assert(statistics@[kc].1 == stat_record_for(statistics@, i as int));
                    if kc != kk as int {
                        assert((statistics@[kc]).0 != (statistics@[kk as int]).0);
                    }
                    assert(statistics@[kk as int].1 == stat_record_for(statistics@, i as int));
                }
                let rec = &statistics[kk];
                merge_column(col, &rec.1, initial_rows, to_insert);
            }
            i = i + 1;
        }
        batch.row_count = target;
        proof {
            assert forall|a: int, b2: int|
                0 <= a < b2 < batch.columns@.len() implies (#[trigger] batch.columns@[a]).name@
                != (#[trigger] batch.columns@[b2]).name@ by {
                assert(ow.batch.columns@[a].name@ != ow.batch.columns@[b2].name@);
            }
            assert forall|j: int| 0 <= j < batch.columns@.len() implies col_wf(
                #[trigger] batch.columns@[j],
                target as int,
            ) by {
                let oc = ow.batch.columns@[j];
                let rec = stat_record_for(statistics@, j);
                if oc.valid@.len() != initi {
                    let kw = choose|k: int|
                        0 <= k < statistics@.len() && (#[trigger] statistics@[k]).0 == j;
                    assert(statistics@[kw].0 == j);
                }
                if j < snap.columns@.len() {
                    lemma_commit_col_wf_ext(batch.columns@[j], oc, snap.columns@[j], initi, ni,
                        rec);
                } else {
                    lemma_commit_col_wf_fresh(batch.columns@[j], oc, initi, ni, rec);
                }
            }
        }
        batch
    }

    /// Restores the batch to exactly its pre-transaction state: committed
    /// rows, values, validity, statistics and dictionaries are unchanged,
    /// and columns created during the transaction are left registered under
    /// their name with only all-null committed rows.
    pub fn rollback(self) -> (b: MutableBatch)
        requires
            self.wf(),
        ensures
            batch_wf(b),
            b.row_count == self.snapshot@.row_count,
            b.columns@.len() == self.batch.columns@.len(),
            forall|i: int|
                0 <= i < self.snapshot@.columns@.len() ==> col_eq(
                    #[trigger] b.columns@[i],
                    self.snapshot@.columns@[i],
                ),
            forall|i: int|
                self.snapshot@.columns@.len() <= i < b.columns@.len() ==> col_is_all_null(
                    #[trigger] b.columns@[i],
                    self.batch.columns@[i].name@,
                    self.batch.columns@[i].influx_type,
                    self.snapshot@.row_count as int,
                ),
    {
        let Writer { batch: mut batch, statistics: _, initial_rows, to_insert, snapshot } = self;
        let ghost snap = snapshot@;
        let ghost orig = batch;
        let cols_len = batch.columns.len();
        let mut i: usize = 0;
        while i < cols_len
            invariant
                cols_len == batch.columns@.len(),
                batch.columns@.len() == orig.columns@.len(),
                batch.row_count == orig.row_count,
                i <= cols_len,
                batch_wf(snap),
                initial_rows == snap.row_count,
                orig.row_count == initial_rows,
                initial_rows + to_insert <= usize::MAX,
                orig.columns@.len() >= snap.columns@.len(),
                forall|j: int|
                    0 <= j < snap.columns@.len() ==> col_extends(
                        #[trigger] orig.columns@[j],
                        snap.columns@[j],
                        initial_rows as int,
                        to_insert as int,
                    ),
                forall|j: int|
                    snap.columns@.len() <= j < orig.columns@.len() ==> col_fresh(
                        #[trigger] orig.columns@[j],
                        initial_rows as int,
                        to_insert as int,
                    ),
                forall|j: int| i <= j < cols_len ==> batch.columns@[j] == orig.columns@[j],
                forall|j: int|
                    0 <= j < i && j < snap.columns@.len() ==> col_eq(
                        #[trigger] batch.columns@[j],
                        snap.columns@[j],
                    ),
                forall|j: int|
                    snap.columns@.len() <= j < i ==> col_is_all_null(
                        #[trigger] batch.columns@[j],
                        orig.columns@[j].name@,
                        orig.columns@[j].influx_type,
                        initial_rows as int,
                    ),
            decreases cols_len - i,
        {
            let ghost oc = batch.columns@[i as int];
            let col: &mut Column = &mut batch.columns[i];
            proof {
                assert(*col == oc);
                if i < snap.columns@.len() {
                    assert(col_extends(oc, snap.columns@[i as int], initial_rows as int,
                        to_insert as int));
                } else {
                    assert(col_fresh(oc, initial_rows as int, to_insert as int));
                }
            }
            col.valid.truncate(initial_rows);
            match &mut col.data {
                ColumnData::F64(v, _) => v.truncate(initial_rows),
                ColumnData::I64(v, _) => v.truncate(initial_rows),
                ColumnData::U64(v, _) => v.truncate(initial_rows),
                ColumnData::Bool(v, _) => v.truncate(initial_rows),
                ColumnData::Str(v, _) => v.truncate(initial_rows),
                ColumnData::Tag(codes, d, _) => {
                    codes.truncate(initial_rows);
                    let mut max_code: Option<usize> = Option::None;
                    let mut r: usize = 0;
                    while r < codes.len()
                        invariant
                            r <= codes@.len(),
                            max_code matches Option::None ==> forall|q: int|
                                0 <= q < r ==> #[trigger] codes@[q] matches Option::None,
                            max_code matches Option::Some(m) ==> {
                                &&& exists|q: int| 0 <= q < r && codes@[q] == Option::Some(m)
                                &&& forall|q: int|
                                    0 <= q < r ==> (#[trigger] codes@[q] matches Option::Some(c)
                                        ==> c <= m)
                            },
                        decreases codes@.len() - r,
                    {
                        match codes[r] {
                            Option::Some(c) => {
                                match max_code {
                                    Option::None => {
                                        max_code = Option::Some(c);
                                    },
                                    Option::Some(m) => {
                                        if c > m {
                                            max_code = Option::Some(c);
                                        }
                                    },
                                }
                            },
                            Option::None => (),
                        }
                        r = r + 1;
                    }
                    proof {
                        let init = initial_rows as int;
                        if i < snap.columns@.len() {
                            match (oc.data, snap.columns@[i as int].data) {
                                (ColumnData::Tag(ov, od, _), ColumnData::Tag(sv, sd, _)) => {
                                    assert(codes@ == ov@.subrange(0, init));
                                    assert(codes@ == sv@);
                                    assert(sd.entries.len() == sd.entries@.len());
                                    match max_code {
                                        Option::Some(m) => {
                                            let q = choose|q: int|
                                                0 <= q < codes@.len() && codes@[q] == Option::Some(
                                                m);
                                            assert(sv@[q] == Option::Some(m));
                                            assert((m as int) < sd.entries@.len());
                                            let top = (sd.entries@.len() - 1) as usize;
                                            let rr = choose|rr: int|
                                                0 <= rr < sv@.len() && sv@[rr] == Option::Some(
                                                top);
                                            assert(codes@[rr] == Option::Some(top));
                                            assert(m as int == sd.entries@.len() - 1);
                                        },
                                        Option::None => {
                                            if sd.entries@.len() > 0 {
                                                let top = (sd.entries@.len() - 1) as usize;
                                                let rr = choose|rr: int|
                                                    0 <= rr < sv@.len() && sv@[rr]
                                                        == Option::Some(top);
                                                assert(codes@[rr] == Option::Some(top));
                                                assert(false);
                                            }
                                        },
                                    }
                                },
                                _ => {
                                    assert(false);
                                },
                            }
                        } else {
                            match oc.data {
                                ColumnData::Tag(ov, od, _) => {
                                    assert(codes@ == ov@.subrange(0, init));
                                    match max_code {
                                        Option::Some(m) => {
                                            let q = choose|q: int|
                                                0 <= q < codes@.len() && codes@[q] == Option::Some(
                                                m);
                                            assert(ov@[q] matches Option::None);
                                            assert(false);
                                        },
                                        Option::None => {},
                                    }
                                },
                                _ => {
                                    assert(false);
                                },
                            }
                        }
                    }
                    match max_code {
                        Option::Some(m) => d.truncate(m),
                        Option::None => d.clear(),
                    }
                    proof {
                        if i < snap.columns@.len() {
                            match snap.columns@[i as int].data {
                                ColumnData::Tag(sv, sd, _) => {
                                    assert(d.entries@ =~= sd.entries@);
                                },
                                _ => {
                                    assert(false);
                                },
                            }
                        }
                    }
                },
            }
            proof {
                let init = initial_rows as int;
                if i < snap.columns@.len() {
                    let sc = snap.columns@[i as int];
                    assert(col_eq(*col, sc));
                } else {
                    assert forall|r2: int| 0 <= r2 < init implies #[trigger] col.valid@[r2]
                        == false by {
                        assert(col.valid@[r2] == oc.valid@[r2]);
                    }
                    assert(col_is_all_null(*col, oc.name@, oc.influx_type, init));
                }
            }
            i = i + 1;
        }
        proof {
            assert forall|j: int| 0 <= j < batch.columns@.len() implies col_wf(
                #[trigger] batch.columns@[j],
                batch.row_count as int,
            ) by {
                if j < snap.columns@.len() {
                    lemma_col_eq_wf(batch.columns@[j], snap.columns@[j], initial_rows as int);
                }
            }
            assert forall|a: int, b2: int|
                0 <= a < b2 < batch.columns@.len() implies batch.columns@[a].name@
                != batch.columns@[b2].name@ by {
                assert(orig.columns@[a].name@ != orig.columns@[b2].name@);
                assert(batch.columns@[a].name@ == orig.columns@[a].name@);
                assert(batch.columns@[b2].name@ == orig.columns@[b2].name@);
            }
        }
        batch
    }
}

/// Whether the batch holds a column named `name`.
pub open spec fn has_col(b: MutableBatch, name: Seq<u8>) -> bool {
    exists|i: int| 0 <= i < b.columns@.len() && (#[trigger] b.columns@[i]).name@ == name
}

/// The position of the column named `name`; meaningful only when `has_col`.
pub open spec fn find_col(b: MutableBatch, name: Seq<u8>) -> int {
    choose|i: int| 0 <= i < b.columns@.len() && (#[trigger] b.columns@[i]).name@ == name
}

/// The position a write under `name` targets: the existing column's, or the
/// next free one.
pub open spec fn target_idx(b: MutableBatch, name: Seq<u8>) -> int {
    if has_col(b, name) {
        find_col(b, name)
    } else {
        b.columns@.len() as int
    }
}

/// Whether a write under `name` clashes with an existing column's type.
pub open spec fn type_clash(b: MutableBatch, name: Seq<u8>, t: ColumnType) -> bool {
    has_col(b, name) && b.columns@[find_col(b, name)].influx_type != t
}

/// The validity bits the target column holds before the write: those of the
/// existing column, or `init` nulls for a column about to be created.
pub open spec fn prior_valid_of(b: MutableBatch, name: Seq<u8>, init: int) -> Seq<bool> {
    if has_col(b, name) {
        b.columns@[find_col(b, name)].valid@
    } else {
        Seq::new(init as nat, |r: int| false)
    }
}

/// The pending record one write leaves: extremes folded over the `consumed`
/// values stored, every one of the `n` appended rows counted, the unfilled
/// rows counted as null.
pub open spec fn write_record<T: StatOrd>(vals: Seq<T>, consumed: int, n: int) -> StatValues<T> {
    let folded = spec_update_all(
        StatValues::<T> {
            min: Option::None,
            max: Option::None,
            total_count: 0u64,
            null_count: 0u64,
        },
        vals.subrange(0, consumed),
    );
    StatValues {
        min: folded.min,
        max: folded.max,
        total_count: n as u64,
        null_count: (n - consumed) as u64,
    }
}

/// The contents of a sequence of byte strings.
pub open spec fn bytes_views(vals: Seq<Vec<u8>>) -> Seq<Seq<u8>> {
    Seq::new(vals.len(), |i: int| vals[i]@)
}

/// The pending record model a byte-string write leaves: extremes folded
/// over the `consumed` values stored, every appended row counted, the
/// unfilled rows counted as null.
pub open spec fn bytes_write_record(views: Seq<Seq<u8>>, consumed: int, n: int) -> BytesStatsModel {
    let folded = bspec_update_all(
        (Option::<Seq<u8>>::None, Option::<Seq<u8>>::None, 0int, 0int),
        views.subrange(0, consumed),
    );
    (folded.0, folded.1, n, n - consumed)
}

/// Folds the first `consumed` of the byte-string `values` into a fresh
/// aggregate and counts the remaining `n - consumed` rows as null.
fn fold_stats_bytes(values: &Vec<Vec<u8>>, consumed: usize, n: usize) -> (st: BytesStatValues)
    requires
        consumed <= values@.len(),
        consumed <= n,
    ensures
        st.model() == bytes_write_record(bytes_views(values@), consumed as int, n as int),
        st.distinct_count matches Option::None,
{
    let mut st = BytesStatValues::new_empty();
    let mut j: usize = 0;
    while j < consumed
        invariant
            j <= consumed,
            consumed <= values@.len(),
            st.model() == bspec_update_all(
                (Option::<Seq<u8>>::None, Option::<Seq<u8>>::None, 0int, 0int),
                bytes_views(values@).subrange(0, j as int),
            ),
            st.total_count == j,
            st.null_count == 0,
            st.distinct_count matches Option::None,
        decreases consumed - j,
    {
        proof {
            assert(bytes_views(values@).subrange(0, j + 1).drop_last() =~= bytes_views(
                values@,
            ).subrange(0, j as int));
            assert(bytes_views(values@).subrange(0, j + 1).last() == values@[j as int]@);
        }
        st.update(&values[j]);
        j = j + 1;
    }
    st.update_for_nulls((n - consumed) as u64);
    st
}

/// The null count a pending record accounts for.
pub open spec fn stat_rec_nulls(st: Statistics) -> int {
    match st {
        Statistics::F64(s) => s.null_count as int,
        Statistics::I64(s) => s.null_count as int,
        Statistics::U64(s) => s.null_count as int,
        Statistics::Bool(s) => s.null_count as int,
        Statistics::Str(s) => s.null_count as int,
    }
}

/// The pending record a commit merges into column `i`.
pub open spec fn stat_record_for(stats: Seq<(usize, Statistics)>, i: int) -> Statistics {
    stats[choose|k: int| 0 <= k < stats.len() && (#[trigger] stats[k]).0 == i].1
}

/// The distinct count a commit derives for a tag column: the dictionary
/// size, plus one when nulls are present, for the null bucket.
pub open spec fn tag_distinct(dict_len: int, nulls: int) -> Option<u64> {
    if nulls == 0 {
        if dict_len == 0 {
            Option::<u64>::None
        } else {
            Option::Some(dict_len as u64)
        }
    } else {
        Option::Some((dict_len + 1) as u64)
    }
}

/// How a commit leaves a column that received no write this transaction:
/// `n` null rows appended, only the null and total counts touched.
pub open spec fn col_padded(c: Column, cur: Column, init: int, n: int) -> bool {
    &&& c.name@ == cur.name@
    &&& c.influx_type == cur.influx_type
    &&& c.valid@ == cur.valid@ + Seq::new(n as nat, |r: int| false)
    &&& data_len(c.data) == init + n
    &&& match (c.data, cur.data) {
        (ColumnData::F64(v, st), ColumnData::F64(w, su)) => v@.subrange(0, w@.len() as int) == w@
            && (forall|p: int| w@.len() <= p < init + n ==> (#[trigger] v@[p]).bits == 0) && st
            == (StatValues::<FloatBits> {
            min: su.min,
            max: su.max,
            total_count: (su.total_count + n) as u64,
            null_count: (su.null_count + n) as u64,
        }),
        (ColumnData::I64(v, st), ColumnData::I64(w, su)) => v@.subrange(0, w@.len() as int) == w@
            && (forall|p: int| w@.len() <= p < init + n ==> #[trigger] v@[p] == 0i64) && st == (
        StatValues::<i64> {
            min: su.min,
            max: su.max,
            total_count: (su.total_count + n) as u64,
            null_count: (su.null_count + n) as u64,
        }),
        (ColumnData::U64(v, st), ColumnData::U64(w, su)) => v@.subrange(0, w@.len() as int) == w@
            && (forall|p: int| w@.len() <= p < init + n ==> #[trigger] v@[p] == 0u64) && st == (
        StatValues::<u64> {
            min: su.min,
            max: su.max,
            total_count: (su.total_count + n) as u64,
            null_count: (su.null_count + n) as u64,
        }),
        (ColumnData::Bool(v, st), ColumnData::Bool(w, su)) => v@.subrange(0, w@.len() as int) == w@
            && (forall|p: int| w@.len() <= p < init + n ==> #[trigger] v@[p] == false) && st == (
        StatValues::<bool> {
            min: su.min,
            max: su.max,
            total_count: (su.total_count + n) as u64,
            null_count: (su.null_count + n) as u64,
        }),
        (ColumnData::Str(v, st), ColumnData::Str(w, su)) => v@.subrange(0, w@.len() as int) == w@
            && (forall|p: int| w@.len() <= p < init + n ==> (#[trigger] v@[p])@.len() == 0) && (
        st.model() == (su.model().0, su.model().1, su.model().2 + n, su.model().3 + n)) && st.min
            == su.min && st.max == su.max && st.distinct_count == su.distinct_count,
        (ColumnData::Tag(v, d, st), ColumnData::Tag(w, e, su)) => v@.subrange(0, w@.len() as int)
            == w@ && (forall|p: int|
            w@.len() <= p < init + n ==> (#[trigger] v@[p] matches Option::None)) && d.entries@
            == e.entries@ && (st.model() == (
            su.model().0,
            su.model().1,
            su.model().2 + n,
            su.model().3 + n,
        )) && st.min == su.min && st.max == su.max && st.distinct_count == su.distinct_count,
        _ => false,
    }
}

/// How a commit leaves a column that was written this transaction: values
/// untouched, the pending record merged into the cumulative statistics, and
/// for a tag column the distinct count derived from the dictionary size.
pub open spec fn col_merged(c: Column, cur: Column, rec: Statistics, n: int) -> bool {
    &&& c.name@ == cur.name@
    &&& c.influx_type == cur.influx_type
    &&& c.valid@ == cur.valid@
    &&& match (c.data, cur.data, rec) {
        (ColumnData::F64(v, st), ColumnData::F64(w, su), Statistics::F64(rs)) => v@ == w@ && st
            == crate::stats::spec_merge(su, rs),
        (ColumnData::I64(v, st), ColumnData::I64(w, su), Statistics::I64(rs)) => v@ == w@ && st
            == crate::stats::spec_merge(su, rs),
        (ColumnData::U64(v, st), ColumnData::U64(w, su), Statistics::U64(rs)) => v@ == w@ && st
            == crate::stats::spec_merge(su, rs),
        (ColumnData::Bool(v, st), ColumnData::Bool(w, su), Statistics::Bool(rs)) => v@ == w@ && st
            == crate::stats::spec_merge(su, rs),
        (ColumnData::Str(v, st), ColumnData::Str(w, su), Statistics::Str(rs)) => v@ == w@ && (
        st.model() == crate::stats::bspec_merge(su.model(), rs.model())) && st.distinct_count
            matches Option::None,
        (ColumnData::Tag(v, d, st), ColumnData::Tag(w, e, su), Statistics::Str(rs)) => v@ == w@
            && d.entries@ == e.entries@ && (st.model() == crate::stats::bspec_merge(
            su.model(),
            rs.model(),
        )) && st.distinct_count == tag_distinct(d.entries@.len() as int, st.null_count as int),
        _ => false,
    }
}

/// Appends `n` null rows to a column a transaction never wrote.
fn pad_column(col: &mut Column, init: usize, n: usize)
    requires
        old(col).valid@.len() == init,
        data_len(old(col).data) == init || data_len(old(col).data) == init + n,
        init + n < usize::MAX,
        type_matches(old(col).influx_type, old(col).data),
        crate::batch::stats_total(old(col).data) == init,
        stats_nulls(old(col).data) <= init,
    ensures
        col_padded(*final(col), *old(col), init as int, n as int),
{
    let target = init + n;
    crate::batch::grow_to(&mut col.valid, target, false);
    match &mut col.data {
        ColumnData::F64(v, st) => {
            crate::batch::grow_to(v, target, FloatBits { bits: 0 });
            st.update_for_nulls(n as u64);
            proof {
                assert(v@.subrange(0, old(col).data->F64_0@.len() as int)
                    =~= old(col).data->F64_0@);
            }
        },
        ColumnData::I64(v, st) => {
            crate::batch::grow_to(v, target, 0i64);
            st.update_for_nulls(n as u64);
            proof {
                assert(v@.subrange(0, old(col).data->I64_0@.len() as int)
                    =~= old(col).data->I64_0@);
            }
        },
        ColumnData::U64(v, st) => {
            crate::batch::grow_to(v, target, 0u64);
            st.update_for_nulls(n as u64);
            proof {
                assert(v@.subrange(0, old(col).data->U64_0@.len() as int)
                    =~= old(col).data->U64_0@);
            }
        },
        ColumnData::Bool(v, st) => {
            crate::batch::grow_to(v, target, false);
            st.update_for_nulls(n as u64);
            proof {
                assert(v@.subrange(0, old(col).data->Bool_0@.len() as int)
                    =~= old(col).data->Bool_0@);
            }
        },
        ColumnData::Str(v, st) => {
            crate::batch::grow_empty_bytes(v, target);
            st.update_for_nulls(n as u64);
        },
        ColumnData::Tag(v, _, st) => {
            crate::batch::grow_to(v, target, Option::<usize>::None);
            st.update_for_nulls(n as u64);
            proof {
                assert(v@.subrange(0, old(col).data->Tag_0@.len() as int)
                    =~= old(col).data->Tag_0@);
            }
        },
    }
}

/// Merges one pending record into the cumulative statistics of the column
/// it was recorded for.
fn merge_column(col: &mut Column, rec: &Statistics, init: usize, n: usize)
    requires
        init + n < usize::MAX,
        type_matches(old(col).influx_type, old(col).data),
        stat_matches(*rec, old(col).influx_type),
        crate::batch::stats_total(old(col).data) == init,
        stats_nulls(old(col).data) <= init,
        stat_rec_total(*rec) == n,
        0 <= stat_rec_nulls(*rec) <= n,
        (old(col).data matches ColumnData::Tag(_, d, _) ==> d.entries@.len() <= init + n),
    ensures
        col_merged(*final(col), *old(col), *rec, n as int),
        final(col).valid == old(col).valid,
{
    match (&mut col.data, rec) {
        (ColumnData::F64(_, st), Statistics::F64(rs)) => st.update_from(rs),
        (ColumnData::I64(_, st), Statistics::I64(rs)) => st.update_from(rs),
        (ColumnData::U64(_, st), Statistics::U64(rs)) => st.update_from(rs),
        (ColumnData::Bool(_, st), Statistics::Bool(rs)) => st.update_from(rs),
        (ColumnData::Str(_, st), Statistics::Str(rs)) => st.update_from(rs),
        (ColumnData::Tag(_, d, st), Statistics::Str(rs)) => {
            st.update_from(rs);
            let dlen = d.size();
            if st.null_count == 0 {
                if dlen == 0 {
                    st.distinct_count = Option::None;
                } else {
                    st.distinct_count = Option::Some(dlen as u64);
                }
            } else {
                st.distinct_count = Option::Some(dlen as u64 + 1);
            }
        },
        _ => {
            proof {
                assert(false);
            }
            vstd::pervasive::unreached()
        },
    }
}

/// Whether `x` is the content of one of the first `upto` byte strings of
/// `vals`.
pub open spec fn among_views(vals: Seq<Vec<u8>>, upto: int, x: Seq<u8>) -> bool {
    exists|t: int| 0 <= t < upto && (#[trigger] vals[t])@ == x
}

/// The first of the first `upto` keys that falls outside a table of
/// `table` entries, or `-1` when they all fall inside.
pub open spec fn first_bad_key(keys: Seq<usize>, upto: int, table: int) -> int
    decreases upto,
{
    if upto <= 0 {
        -1
    } else {
        let prev = first_bad_key(keys, upto - 1, table);
        if prev >= 0 {
            prev
        } else if keys[upto - 1] as int >= table {
            upto - 1
        } else {
            -1
        }
    }
}

/// Once a bad key is found, longer prefixes report the same one.
pub proof fn lemma_first_bad_stable(keys: Seq<usize>, a: int, b: int, table: int)
    requires
        0 <= a <= b,
        first_bad_key(keys, a, table) >= 0,
    ensures
        first_bad_key(keys, b, table) == first_bad_key(keys, a, table),
    decreases b,
{
    if a < b {
        lemma_first_bad_stable(keys, a, b - 1, table);
    }
}

/// Whether `x` is one of the first `upto` contents of `vals`.
pub open spec fn among_seqs(vals: Seq<Seq<u8>>, upto: int, x: Seq<u8>) -> bool {
    exists|t: int| 0 <= t < upto && #[trigger] vals[t] == x
}

/// Grows a tag store by `n` null codes and fills the set positions of the
/// mask with the dictionary codes of `values`, interning each value on its
/// first use. The dictionary grows append-only by exactly the referenced
/// values that were not yet present, and its top entry stays referenced.
fn tag_fill(
    codes: &mut Vec<Option<usize>>,
    d: &mut crate::dict::Dictionary,
    init: usize,
    n: usize,
    valid_mask: Option<&Vec<u8>>,
    values: &Vec<Vec<u8>>,
    needed: usize,
)
    requires
        old(codes)@.len() == init,
        init + n <= usize::MAX,
        valid_mask matches Option::Some(m) ==> n <= m@.len() * 8,
        needed == count_set(opt_mask_view(valid_mask), n as int),
        needed <= values@.len(),
        old(d).wf(),
    ensures
        final(codes)@.len() == init + n,
        forall|p: int| 0 <= p < init ==> final(codes)@[p] == old(codes)@[p],
        final(d).wf(),
        final(d).entries@.len() >= old(d).entries@.len(),
        final(d).entries@.subrange(0, old(d).entries@.len() as int) == old(d).entries@,
        forall|k: int|
            0 <= k < n && effective_bit(opt_mask_view(valid_mask), k) ==> (#[trigger] final(codes)@[init + k] matches Option::Some(c) && (c as int)
                < final(d).entries@.len() && final(d).view_entries()[c as int] == (
            values@[count_set(opt_mask_view(valid_mask), k)])@),
        forall|k: int|
            0 <= k < n && !effective_bit(opt_mask_view(valid_mask), k) ==> (#[trigger] final(codes)@[init + k] matches Option::None),
        final(d).entries@.len() > old(d).entries@.len() ==> exists|r: int|
            0 <= r < final(codes)@.len() && final(codes)@[r] == Option::Some(
                (final(d).entries@.len() - 1) as usize,
            ),
        n == 0 ==> final(d).entries@.len() == old(d).entries@.len(),
        final(d).entries@.len() <= old(d).entries@.len() + needed,
        forall|c2: int|
            old(d).entries@.len() <= c2 < final(d).entries@.len() ==> among_views(
                values@,
                needed as int,
                #[trigger] final(d).view_entries()[c2],
            ),
{
    let ghost mv = opt_mask_view(valid_mask);
    let ghost initi = init as int;
    let ghost ni = n as int;
    let ghost d0len = d.entries@.len() as int;
    crate::batch::grow_to(codes, init + n, Option::<usize>::None);
    proof {
        assert forall|p: int| 0 <= p < initi implies codes@[p] == old(codes)@[p] by {
            assert(codes@.subrange(0, initi)[p] == codes@[p]);
        }
    }
    let mut j: usize = 0;
    let mut k: usize = 0;
    while k < n
        invariant
            initi == init as int,
            ni == n as int,
            d0len == old(d).entries@.len(),
            k <= n,
            j == count_set(mv, k as int),
            j <= needed,
            needed == count_set(mv, ni),
            needed <= values@.len(),
            initi + ni <= usize::MAX,
            valid_mask matches Option::Some(m) ==> n <= m@.len() * 8,
            mv == opt_mask_view(valid_mask),
            codes@.len() == initi + ni,
            forall|p: int| 0 <= p < initi ==> codes@[p] == old(codes)@[p],
            forall|p: int| k <= p < ni ==> (#[trigger] codes@[initi + p] matches Option::None),
            forall|p: int|
                0 <= p < k && effective_bit(mv, p) ==> (#[trigger] codes@[initi + p] matches
                    Option::Some(c) && (c as int) < d.entries@.len() && d.view_entries()[c as int]
                    == (values@[count_set(mv, p)])@),
            forall|p: int|
                0 <= p < k && !effective_bit(mv, p) ==> (#[trigger] codes@[initi + p] matches
                    Option::None),
            d.wf(),
            d.entries@.len() >= d0len,
            d.entries@.len() <= d0len + j,
            d.entries@.subrange(0, d0len) == old(d).entries@,
            d.entries@.len() > d0len ==> exists|r: int|
                0 <= r < codes@.len() && codes@[r] == Option::Some(
                    (d.entries@.len() - 1) as usize,
                ),
            forall|c2: int|
                d0len <= c2 < d.entries@.len() ==> among_views(
                    values@,
                    j as int,
                    #[trigger] d.view_entries()[c2],
                ),
        decreases n - k,
    {
        let bit: bool = match valid_mask {
            Option::None => true,
            Option::Some(m) => crate::mask::mask_bit_at(m, k),
        };
        proof {
            assert(count_set(mv, k + 1) == count_set(mv, k as int) + if effective_bit(
                mv,
                k as int,
            ) {
                1int
            } else {
                0int
            });
            crate::mask::lemma_count_set_mono(mv, k + 1, ni);
        }
        if bit {
            let ghost dpre = *d;
            let code = d.lookup_value_or_insert(&values[j]);
            proof {
                assert(d.entries@.subrange(0, d0len) =~= old(d).entries@);
                if d.entries@.len() > dpre.entries@.len() {
                    assert(code == dpre.entries@.len());
                } else {
                    assert(*d == dpre);
                }
            }
            let ghost codes_pre = codes@;
            codes[init + k] = Option::Some(code);
            proof {
                if d.entries@.len() > d0len && d.entries@.len() == dpre.entries@.len() {
                    let rw = choose|r: int|
                        0 <= r < codes_pre.len() && codes_pre[r] == Option::Some(
                            (d.entries@.len() - 1) as usize,
                        );
                    assert(codes@[rw] == codes_pre[rw]);
                }
                if d.entries@.len() > dpre.entries@.len() {
                    assert(code as int == d.entries@.len() - 1);
                    assert(codes@[initi + k as int] == Option::Some(code));
                }
                assert forall|c2: int|
                    d0len <= c2 < d.entries@.len() implies among_views(
                    values@,
                    j + 1,
                    #[trigger] d.view_entries()[c2],
                ) by {
                    if c2 < dpre.entries@.len() {
                        assert(d.entries@.subrange(0, dpre.entries@.len() as int)[c2]
                            == d.entries@[c2]);
                        assert(d.view_entries()[c2] == dpre.view_entries()[c2]);
                        assert(among_views(values@, j as int, dpre.view_entries()[c2]));
                        let t = choose|t: int|
                            0 <= t < j && (#[trigger] values@[t])@ == dpre.view_entries()[c2];
                        assert(0 <= t < j + 1 && (values@[t])@ == d.view_entries()[c2]);
                    } else {
                        assert(c2 == d.entries@.len() - 1);
                        assert(d.view_entries()[c2] == values@[j as int]@);
                    }
                }
            }
            j = j + 1;
        }
        k = k + 1;
    }
    proof {
        if ni == 0 && d.entries@.len() > d0len {
            assert(d.view_entries()[d0len] == d.view_entries()[d0len]);
            assert(false);
        }
    }
}

/// Folds the first `consumed` of `values` into a fresh aggregate and counts
/// the remaining `n - consumed` rows as null.
fn fold_stats<T: StatOrd + Copy>(values: &Vec<T>, consumed: usize, n: usize) -> (st: StatValues<T>)
    requires
        consumed <= values@.len(),
        consumed <= n,
    ensures
        st == write_record(values@, consumed as int, n as int),
{
    let mut st = StatValues::<T>::new_empty();
    let mut j: usize = 0;
    while j < consumed
        invariant
            j <= consumed,
            consumed <= values@.len(),
            st == spec_update_all(
                StatValues::<T> {
                    min: Option::None,
                    max: Option::None,
                    total_count: 0u64,
                    null_count: 0u64,
                },
                values@.subrange(0, j as int),
            ),
            st.total_count == j,
            st.null_count == 0,
        decreases consumed - j,
    {
        proof {
            assert(values@.subrange(0, j + 1).drop_last() =~= values@.subrange(0, j as int));
            assert(values@.subrange(0, j + 1).last() == values@[j as int]);
        }
        st.update(values[j]);
        j = j + 1;
    }
    st.update_for_nulls((n - consumed) as u64);
    st
}

/// An all-null column of the creation shape satisfies the fresh-column
/// invariant.
pub proof fn lemma_all_null_fresh(c: Column, name: Seq<u8>, t: ColumnType, init: int, n: int)
    requires
        col_is_all_null(c, name, t, init),
        0 <= init,
        0 <= n,
    ensures
        col_fresh(c, init, n),
{
}

impl Writer {
    /// Whether some column named `name` has already gained rows or values in
    /// this transaction. A column may receive at most one write per
    /// transaction, and a write that failed leaves its column unusable for
    /// the transaction's remainder.
    pub open spec fn column_written(self, name: Seq<u8>) -> bool {
        exists|i: int|
            0 <= i < self.batch.columns@.len() && (#[trigger] self.batch.columns@[i]).name@ == name
                && (self.batch.columns@[i].valid@.len() != self.initial_rows || data_len(
                self.batch.columns@[i].data,
            ) != self.initial_rows)
    }

    /// What a successful integer-stored write under `name` leaves: the
    /// target column gains `to_insert` rows whose validity follows the mask
    /// and whose set positions carry `vals` in order, every other column is
    /// untouched, and one pending record is appended. Shared by the integer
    /// field and timestamp writes, which differ only in the semantic type.
    pub open spec fn i64_ok_state(
        self,
        post: Writer,
        name: Seq<u8>,
        t: ColumnType,
        mv: Option<Seq<u8>>,
        vals: Seq<i64>,
    ) -> bool {
        let init = self.initial_rows as int;
        let n = self.to_insert as int;
        let idx = target_idx(self.batch, name);
        let consumed = count_set(mv, n);
        let c = post.batch.columns@[idx];
        &&& post.batch.columns@.len() == if has_col(self.batch, name) {
            self.batch.columns@.len() as int
        } else {
            self.batch.columns@.len() as int + 1
        }
        &&& forall|j: int|
            0 <= j < post.batch.columns@.len() && j != idx ==> post.batch.columns@[j]
                == self.batch.columns@[j]
        &&& c.name@ == name
        &&& c.influx_type == t
        &&& c.valid@ == prior_valid_of(self.batch, name, init) + Seq::new(
            n as nat,
            |k: int| effective_bit(mv, k),
        )
        &&& match c.data {
            ColumnData::I64(v, st) => {
                &&& v@.len() == init + n
                &&& (has_col(self.batch, name) ==> match self.batch.columns@[idx].data {
                    ColumnData::I64(w, su) => v@.subrange(0, init) == w@ && st == su,
                    _ => false,
                })
                &&& (!has_col(self.batch, name) ==> (forall|p: int|
                    0 <= p < init ==> v@[p] == 0i64) && st == (StatValues::<i64> {
                    min: Option::None,
                    max: Option::None,
                    total_count: init as u64,
                    null_count: init as u64,
                }))
                &&& forall|k: int|
                    0 <= k < n && effective_bit(mv, k) ==> v@[init + k] == vals[count_set(mv, k)]
                &&& forall|k: int| 0 <= k < n && !effective_bit(mv, k) ==> v@[init + k] == 0i64
            },
            _ => false,
        }
        &&& post.statistics@ == self.statistics@.push(
            ((idx as usize), Statistics::I64(write_record(vals, consumed, n))),
        )
    }

    /// Writes the integer field column named `name`: for each set bit of
    /// `valid_mask` the next value of `values` is stored at the matching new
    /// row, nulls fill the rest; without a mask every new row takes a value.
    pub fn write_i64(
        &mut self,
        name: &Vec<u8>,
        valid_mask: Option<&Vec<u8>>,
        values: &Vec<i64>,
    ) -> (r: Result<(), Error>)
        requires
            old(self).wf(),
            !old(self).column_written(name@),
            valid_mask matches Option::Some(m) ==> old(self).to_insert <= m@.len() * 8,
        ensures
            final(self).wf(),
            final(self).snapshot == old(self).snapshot,
            final(self).initial_rows == old(self).initial_rows,
            final(self).to_insert == old(self).to_insert,
            final(self).batch.row_count == old(self).batch.row_count,
            r is Err <==> (type_clash(old(self).batch, name@, ColumnType::I64) || count_set(
                opt_mask_view(valid_mask),
                old(self).to_insert as int,
            ) > values@.len()),
            type_clash(old(self).batch, name@, ColumnType::I64) ==> r == Result::<(), Error>::Err(
                Error::TypeMismatch {
                    existing: old(self).batch.columns@[find_col(old(self).batch, name@)].influx_type,
                    inserted: ColumnType::I64,
                },
            ) && *final(self) == *old(self),
            !type_clash(old(self).batch, name@, ColumnType::I64) && count_set(
                opt_mask_view(valid_mask),
                old(self).to_insert as int,
            ) > values@.len() ==> r == Result::<(), Error>::Err(Error::InsufficientValues) && final(self).statistics == old(self).statistics && forall|j: int|
                0 <= j < old(self).batch.columns@.len() && j != target_idx(old(self).batch, name@)
                    ==> final(self).batch.columns@[j] == old(self).batch.columns@[j],
            r is Ok ==> old(self).i64_ok_state(
                *final(self),
                name@,
                ColumnType::I64,
                opt_mask_view(valid_mask),
                values@,
            ),
    {
        self.write_i64_data(name, ColumnType::I64, valid_mask, values)
    }

    /// Writes the timestamp column named `name`: no mask is taken, every
    /// one of the `to_insert` new rows must receive a value, and the column
    /// gains no nulls.
    pub fn write_time(&mut self, name: &Vec<u8>, values: &Vec<i64>) -> (r: Result<(), Error>)
        requires
            old(self).wf(),
            !old(self).column_written(name@),
        ensures
            final(self).wf(),
            final(self).snapshot == old(self).snapshot,
            final(self).initial_rows == old(self).initial_rows,
            final(self).to_insert == old(self).to_insert,
            final(self).batch.row_count == old(self).batch.row_count,
            r is Err <==> (type_clash(old(self).batch, name@, ColumnType::Time) || old(
                self,
            ).to_insert > values@.len()),
            type_clash(old(self).batch, name@, ColumnType::Time) ==> r == Result::<(), Error>::Err(
                Error::TypeMismatch {
                    existing: old(self).batch.columns@[find_col(old(self).batch, name@)].influx_type,
                    inserted: ColumnType::Time,
                },
            ) && *final(self) == *old(self),
            !type_clash(old(self).batch, name@, ColumnType::Time) && old(self).to_insert
                > values@.len() ==> r == Result::<(), Error>::Err(Error::InsufficientValues)
                && final(self).statistics == old(self).statistics,
            r is Ok ==> old(self).i64_ok_state(
                *final(self),
                name@,
                ColumnType::Time,
                Option::<Seq<u8>>::None,
                values@,
            ),
    {
        proof {
            crate::mask::lemma_count_set_dense(old(self).to_insert as int);
        }
        self.write_i64_data(name, ColumnType::Time, Option::None, values)
    }

    /// The shared body of the integer field and timestamp writes.
    #[verifier::rlimit(100)]
    fn write_i64_data(
        &mut self,
        name: &Vec<u8>,
        t: ColumnType,
        valid_mask: Option<&Vec<u8>>,
        values: &Vec<i64>,
    ) -> (r: Result<(), Error>)
        requires
            old(self).wf(),
            !old(self).column_written(name@),
            t is I64 || t is Time,
            valid_mask matches Option::Some(m) ==> old(self).to_insert <= m@.len() * 8,
        ensures
            final(self).wf(),
            final(self).snapshot == old(self).snapshot,
            final(self).initial_rows == old(self).initial_rows,
            final(self).to_insert == old(self).to_insert,
            final(self).batch.row_count == old(self).batch.row_count,
            r is Err <==> (type_clash(old(self).batch, name@, t) || count_set(
                opt_mask_view(valid_mask),
                old(self).to_insert as int,
            ) > values@.len()),
            type_clash(old(self).batch, name@, t) ==> r == Result::<(), Error>::Err(
                Error::TypeMismatch {
                    existing: old(self).batch.columns@[find_col(old(self).batch, name@)].influx_type,
                    inserted: t,
                },
            ) && *final(self) == *old(self),
            !type_clash(old(self).batch, name@, t) && count_set(
                opt_mask_view(valid_mask),
                old(self).to_insert as int,
            ) > values@.len() ==> r == Result::<(), Error>::Err(Error::InsufficientValues) && final(self).statistics == old(self).statistics && forall|j: int|
                0 <= j < old(self).batch.columns@.len() && j != target_idx(old(self).batch, name@)
                    ==> final(self).batch.columns@[j] == old(self).batch.columns@[j],
            r is Ok ==> old(self).i64_ok_state(
                *final(self),
                name@,
                t,
                opt_mask_view(valid_mask),
                values@,
            ),
    {
        let init = self.initial_rows;
        let n = self.to_insert;
        let ghost mv = opt_mask_view(valid_mask);
        let idx = match self.column_mut(name, t) {
            Result::Ok(i) => i,
            Result::Err(e) => {
                return Result::Err(e);
            },
        };
        let ghost mid = *self;
        let ghost snap = self.snapshot@;
        let ghost initi = init as int;
        let ghost ni = n as int;
        let ghost c0 = self.batch.columns@[idx as int];
        proof {
            if has_col(old(self).batch, name@) {
                assert(c0 == old(self).batch.columns@[idx as int]);
                if c0.valid@.len() != initi || data_len(c0.data) != initi {
                    assert(old(self).column_written(name@));
                }
            }
            assert(c0.valid@.len() == initi && data_len(c0.data) == initi);
        }
        let consumed_res: Option<usize>;
        {
            let col: &mut Column = &mut self.batch.columns[idx];
            consumed_res = match &mut col.data {
                ColumnData::I64(v, _) => {
                    crate::batch::grow_to(v, init + n, 0i64);
                    crate::mask::fill_masked(v, init, n, valid_mask, values)
                },
                _ => {
                    proof {
                        assert(false);
                    }
                    vstd::pervasive::unreached()
                },
            };
            if consumed_res.is_some() {
                crate::mask::append_valid_mask(&mut col.valid, valid_mask, n);
            }
        }
        let ghost c1 = self.batch.columns@[idx as int];
        proof {
            assert(data_same_kind_grown(c1.data, c0.data, initi, ni));
            assert(valid_after_write(c1.valid@, c0.valid@, initi, ni)) by {
                if c1.valid@ != c0.valid@ {
                    assert(c1.valid@.subrange(0, initi) =~= c0.valid@);
                }
            }
            assert forall|j: int| 0 <= j < snap.columns@.len() implies col_extends(
                #[trigger] self.batch.columns@[j],
                snap.columns@[j],
                initi,
                ni,
            ) by {
                if j == idx {
                    lemma_col_extends_after_write(c0, c1, snap.columns@[j], initi, ni);
                } else {
                    assert(self.batch.columns@[j] == mid.batch.columns@[j]);
                }
            }
            assert forall|j: int|
                snap.columns@.len() <= j < self.batch.columns@.len() implies col_fresh(
                #[trigger] self.batch.columns@[j],
                initi,
                ni,
            ) by {
                if j == idx {
                    lemma_col_fresh_after_write(c0, c1, initi, ni);
                } else {
                    assert(self.batch.columns@[j] == mid.batch.columns@[j]);
                }
            }
            assert forall|a: int, b: int|
                0 <= a < b < self.batch.columns@.len() implies (#[trigger] self.batch.columns@[a]).name@
                != (#[trigger] self.batch.columns@[b]).name@ by {
                assert(mid.batch.columns@[a].name@ != mid.batch.columns@[b].name@);
                assert(self.batch.columns@[a].name@ == mid.batch.columns@[a].name@);
                assert(self.batch.columns@[b].name@ == mid.batch.columns@[b].name@);
            }
        }
        match consumed_res {
            Option::Some(consumed) => {
                proof {
                    crate::mask::lemma_count_set_bounds(mv, ni);
                }
                let st = fold_stats(values, consumed, n);
                self.statistics.push((idx, Statistics::I64(st)));
                proof {
                    assert forall|k: int| 0 <= k < self.statistics@.len() implies {
                        let (ridx, rst) = #[trigger] self.statistics@[k];
                        &&& (ridx as int) < self.batch.columns@.len()
                        &&& self.batch.columns@[ridx as int].valid@.len() == initi + ni
                        &&& stat_matches(rst, self.batch.columns@[ridx as int].influx_type)
                        &&& stat_rec_total(rst) == ni
                &&& stat_rec_nulls(rst) <= ni
                        &&& stat_rec_nulls(rst) <= ni
                    } by {
                        if k < mid.statistics@.len() {
                            assert(self.statistics@[k] == mid.statistics@[k]);
                            let (ridx, rst) = mid.statistics@[k];
                            assert((ridx as int) < mid.batch.columns@.len());
                            if ridx as int == idx as int {
                                assert(mid.batch.columns@[ridx as int].valid@.len() == initi + ni);
                                assert(ni == 0);
                            } else {
                                assert(self.batch.columns@[ridx as int] == mid.batch.columns@[
                                ridx as int]);
                            }
                        } else {
                            assert(self.statistics@[k] == ((idx, Statistics::I64(
                                write_record(values@, consumed as int, ni),
                            ))));
                        }
                    }
                    if ni > 0 {
                        assert forall|k1: int, k2: int|
                            0 <= k1 < k2 < self.statistics@.len() implies (
                        #[trigger] self.statistics@[k1]).0 != (#[trigger] self.statistics@[k2]).0 by {
                            if k2 == self.statistics@.len() - 1 {
                                let (ridx, _) = mid.statistics@[k1];
                                if ridx as int == idx as int {
                                    assert(mid.batch.columns@[idx as int].valid@.len() == initi
                                        + ni);
                                }
                            }
                        }
                    }
                    assert forall|i: int|
                        0 <= i < self.batch.columns@.len() && (
                        #[trigger] self.batch.columns@[i]).valid@.len() != initi implies exists|
                        k: int,
                    |
                        0 <= k < self.statistics@.len() && (#[trigger] self.statistics@[k]).0
                            == i by {
                        if i == idx as int {
                            assert(self.statistics@[self.statistics@.len() - 1].0 == idx);
                        } else {
                            assert(self.batch.columns@[i] == mid.batch.columns@[i]);
                            let k = choose|k: int|
                                0 <= k < mid.statistics@.len() && (#[trigger] mid.statistics@[k]).0
                                    == i;
                            assert(self.statistics@[k].0 == i);
                        }
                    }
                    assert(self.wf());
                    assert(old(self).i64_ok_state(*self, name@, t, mv, values@)) by {
                        assert(c1.valid@ == prior_valid_of(old(self).batch, name@, initi)
                            + Seq::new(ni as nat, |k: int| effective_bit(mv, k))) by {
                            if !has_col(old(self).batch, name@) {
                                assert(c0.valid@ =~= Seq::new(initi as nat, |r: int| false));
                            }
                        }
                        match (c1.data, c0.data) {
                            (ColumnData::I64(v1, s1), ColumnData::I64(v0, s0)) => {
                                assert(v1@.subrange(0, initi) =~= v0@);
                            },
                            _ => {},
                        }
                    }
                }
                Result::Ok(())
            },
            Option::None => {
                proof {
                    assert forall|k: int| 0 <= k < self.statistics@.len() implies {
                        let (ridx, rst) = #[trigger] self.statistics@[k];
                        &&& (ridx as int) < self.batch.columns@.len()
                        &&& self.batch.columns@[ridx as int].valid@.len() == initi + ni
                        &&& stat_matches(rst, self.batch.columns@[ridx as int].influx_type)
                        &&& stat_rec_total(rst) == ni
                &&& stat_rec_nulls(rst) <= ni
                        &&& stat_rec_nulls(rst) <= ni
                    } by {
                        let (ridx, rst) = mid.statistics@[k];
                        if ridx as int == idx as int {
                            assert(mid.batch.columns@[ridx as int].valid@.len() == initi + ni);
                            assert(ni == 0);
                            assert(c1.valid@ == c0.valid@);
                        } else {
                            assert(self.batch.columns@[ridx as int] == mid.batch.columns@[
                            ridx as int]);
                        }
                    }
                    assert forall|i: int|
                        0 <= i < self.batch.columns@.len() && (
                        #[trigger] self.batch.columns@[i]).valid@.len() != initi implies exists|
                        k: int,
                    |
                        0 <= k < self.statistics@.len() && (#[trigger] self.statistics@[k]).0
                            == i by {
                        assert(self.batch.columns@[i].valid@.len() == mid.batch.columns@[
                        i].valid@.len());
                        let k = choose|k: int|
                            0 <= k < mid.statistics@.len() && (#[trigger] mid.statistics@[k]).0
                                == i;
                        assert(self.statistics@[k].0 == i);
                    }
                    assert(self.wf());
                }
                Result::Err(Error::InsufficientValues)
            },
        }
    }

    /// What a successful u64-stored write under `name` leaves: the
    /// target column gains `to_insert` rows whose validity follows the mask
    /// and whose set positions carry `vals` in order, every other column is
    /// untouched, and one pending record is appended. The shape mirrors the integer write.
    pub open spec fn u64_ok_state(
        self,
        post: Writer,
        name: Seq<u8>,
        mv: Option<Seq<u8>>,
        vals: Seq<u64>,
    ) -> bool {
        let init = self.initial_rows as int;
        let n = self.to_insert as int;
        let idx = target_idx(self.batch, name);
        let consumed = count_set(mv, n);
        let c = post.batch.columns@[idx];
        &&& post.batch.columns@.len() == if has_col(self.batch, name) {
            self.batch.columns@.len() as int
        } else {
            self.batch.columns@.len() as int + 1
        }
        &&& forall|j: int|
            0 <= j < post.batch.columns@.len() && j != idx ==> post.batch.columns@[j]
                == self.batch.columns@[j]
        &&& c.name@ == name
        &&& c.influx_type == ColumnType::U64
        &&& c.valid@ == prior_valid_of(self.batch, name, init) + Seq::new(
            n as nat,
            |k: int| effective_bit(mv, k),
        )
        &&& match c.data {
            ColumnData::U64(v, st) => {
                &&& v@.len() == init + n
                &&& (has_col(self.batch, name) ==> match self.batch.columns@[idx].data {
                    ColumnData::U64(w, su) => v@.subrange(0, init) == w@ && st == su,
                    _ => false,
                })
                &&& (!has_col(self.batch, name) ==> (forall|p: int|
                    0 <= p < init ==> v@[p] == 0u64) && st == (StatValues::<u64> {
                    min: Option::None,
                    max: Option::None,
                    total_count: init as u64,
                    null_count: init as u64,
                }))
                &&& forall|k: int|
                    0 <= k < n && effective_bit(mv, k) ==> v@[init + k] == vals[count_set(mv, k)]
                &&& forall|k: int| 0 <= k < n && !effective_bit(mv, k) ==> v@[init + k] == 0u64
            },
            _ => false,
        }
        &&& post.statistics@ == self.statistics@.push(
            ((idx as usize), Statistics::U64(write_record(vals, consumed, n))),
        )
    }

    /// Writes the u64 field column named `name`: for each set bit of
    /// `valid_mask` the next value of `values` is stored at the matching new
    /// row, nulls fill the rest; without a mask every new row takes a value.
    #[verifier::rlimit(100)]
    pub fn write_u64(
        &mut self,
        name: &Vec<u8>,
        valid_mask: Option<&Vec<u8>>,
        values: &Vec<u64>,
    ) -> (r: Result<(), Error>)
        requires
            old(self).wf(),
            !old(self).column_written(name@),
            valid_mask matches Option::Some(m) ==> old(self).to_insert <= m@.len() * 8,
        ensures
            final(self).wf(),
            final(self).snapshot == old(self).snapshot,
            final(self).initial_rows == old(self).initial_rows,
            final(self).to_insert == old(self).to_insert,
            final(self).batch.row_count == old(self).batch.row_count,
            r is Err <==> (type_clash(old(self).batch, name@, ColumnType::U64) || count_set(
                opt_mask_view(valid_mask),
                old(self).to_insert as int,
            ) > values@.len()),
            type_clash(old(self).batch, name@, ColumnType::U64) ==> r == Result::<(), Error>::Err(
                Error::TypeMismatch {
                    existing: old(self).batch.columns@[find_col(old(self).batch, name@)].influx_type,
                    inserted: ColumnType::U64,
                },
            ) && *final(self) == *old(self),
            !type_clash(old(self).batch, name@, ColumnType::U64) && count_set(
                opt_mask_view(valid_mask),
                old(self).to_insert as int,
            ) > values@.len() ==> r == Result::<(), Error>::Err(Error::InsufficientValues) && final(self).statistics == old(self).statistics && forall|j: int|
                0 <= j < old(self).batch.columns@.len() && j != target_idx(old(self).batch, name@)
                    ==> final(self).batch.columns@[j] == old(self).batch.columns@[j],
            r is Ok ==> old(self).u64_ok_state(
                *final(self),
                name@,
                opt_mask_view(valid_mask),
                values@,
            ),
    {
        let init = self.initial_rows;
        let n = self.to_insert;
        let ghost mv = opt_mask_view(valid_mask);
        let idx = match self.column_mut(name, ColumnType::U64) {
            Result::Ok(i) => i,
            Result::Err(e) => {
                return Result::Err(e);
            },
        };
        let ghost mid = *self;
        let ghost snap = self.snapshot@;
        let ghost initi = init as int;
        let ghost ni = n as int;
        let ghost c0 = self.batch.columns@[idx as int];
        proof {
            if has_col(old(self).batch, name@) {
                assert(c0 == old(self).batch.columns@[idx as int]);
                if c0.valid@.len() != initi || data_len(c0.data) != initi {
                    assert(old(self).column_written(name@));
                }
            }
            assert(c0.valid@.len() == initi && data_len(c0.data) == initi);
        }
        let consumed_res: Option<usize>;
        {
            let col: &mut Column = &mut self.batch.columns[idx];
            consumed_res = match &mut col.data {
                ColumnData::U64(v, _) => {
                    crate::batch::grow_to(v, init + n, 0u64);
                    crate::mask::fill_masked(v, init, n, valid_mask, values)
                },
                _ => {
                    proof {
                        assert(false);
                    }
                    vstd::pervasive::unreached()
                },
            };
            if consumed_res.is_some() {
                crate::mask::append_valid_mask(&mut col.valid, valid_mask, n);
            }
        }
        let ghost c1 = self.batch.columns@[idx as int];
        proof {
            assert(data_same_kind_grown(c1.data, c0.data, initi, ni));
            assert(valid_after_write(c1.valid@, c0.valid@, initi, ni)) by {
                if c1.valid@ != c0.valid@ {
                    assert(c1.valid@.subrange(0, initi) =~= c0.valid@);
                }
            }
            assert forall|j: int| 0 <= j < snap.columns@.len() implies col_extends(
                #[trigger] self.batch.columns@[j],
                snap.columns@[j],
                initi,
                ni,
            ) by {
                if j == idx {
                    lemma_col_extends_after_write(c0, c1, snap.columns@[j], initi, ni);
                } else {
                    assert(self.batch.columns@[j] == mid.batch.columns@[j]);
                }
            }
            assert forall|j: int|
                snap.columns@.len() <= j < self.batch.columns@.len() implies col_fresh(
                #[trigger] self.batch.columns@[j],
                initi,
                ni,
            ) by {
                if j == idx {
                    lemma_col_fresh_after_write(c0, c1, initi, ni);
                } else {
                    assert(self.batch.columns@[j] == mid.batch.columns@[j]);
                }
            }
            assert forall|a: int, b: int|
                0 <= a < b < self.batch.columns@.len() implies (#[trigger] self.batch.columns@[a]).name@
                != (#[trigger] self.batch.columns@[b]).name@ by {
                assert(mid.batch.columns@[a].name@ != mid.batch.columns@[b].name@);
                assert(self.batch.columns@[a].name@ == mid.batch.columns@[a].name@);
                assert(self.batch.columns@[b].name@ == mid.batch.columns@[b].name@);
            }
        }
        match consumed_res {
            Option::Some(consumed) => {
                proof {
                    crate::mask::lemma_count_set_bounds(mv, ni);
                }
                let st = fold_stats(values, consumed, n);
                self.statistics.push((idx, Statistics::U64(st)));
                proof {
                    assert forall|k: int| 0 <= k < self.statistics@.len() implies {
                        let (ridx, rst) = #[trigger] self.statistics@[k];
                        &&& (ridx as int) < self.batch.columns@.len()
                        &&& self.batch.columns@[ridx as int].valid@.len() == initi + ni
                        &&& stat_matches(rst, self.batch.columns@[ridx as int].influx_type)
                        &&& stat_rec_total(rst) == ni
                &&& stat_rec_nulls(rst) <= ni
                        &&& stat_rec_nulls(rst) <= ni
                    } by {
                        if k < mid.statistics@.len() {
                            assert(self.statistics@[k] == mid.statistics@[k]);
                            let (ridx, rst) = mid.statistics@[k];
                            assert((ridx as int) < mid.batch.columns@.len());
                            if ridx as int == idx as int {
                                assert(mid.batch.columns@[ridx as int].valid@.len() == initi + ni);
                                assert(ni == 0);
                            } else {
                                assert(self.batch.columns@[ridx as int] == mid.batch.columns@[
                                ridx as int]);
                            }
                        } else {
                            assert(self.statistics@[k] == ((idx, Statistics::U64(
                                write_record(values@, consumed as int, ni),
                            ))));
                        }
                    }
                    if ni > 0 {
                        assert forall|k1: int, k2: int|
                            0 <= k1 < k2 < self.statistics@.len() implies (
                        #[trigger] self.statistics@[k1]).0 != (#[trigger] self.statistics@[k2]).0 by {
                            if k2 == self.statistics@.len() - 1 {
                                let (ridx, _) = mid.statistics@[k1];
                                if ridx as int == idx as int {
                                    assert(mid.batch.columns@[idx as int].valid@.len() == initi
                                        + ni);
                                }
                            }
                        }
                    }
                    assert forall|i: int|
                        0 <= i < self.batch.columns@.len() && (
                        #[trigger] self.batch.columns@[i]).valid@.len() != initi implies exists|
                        k: int,
                    |
                        0 <= k < self.statistics@.len() && (#[trigger] self.statistics@[k]).0
                            == i by {
                        if i == idx as int {
                            assert(self.statistics@[self.statistics@.len() - 1].0 == idx);
                        } else {
                            assert(self.batch.columns@[i] == mid.batch.columns@[i]);
                            let k = choose|k: int|
                                0 <= k < mid.statistics@.len() && (#[trigger] mid.statistics@[k]).0
                                    == i;
                            assert(self.statistics@[k].0 == i);
                        }
                    }
                    assert(self.wf());
                    assert(old(self).u64_ok_state(*self, name@, mv, values@)) by {
                        assert(c1.valid@ == prior_valid_of(old(self).batch, name@, initi)
                            + Seq::new(ni as nat, |k: int| effective_bit(mv, k))) by {
                            if !has_col(old(self).batch, name@) {
                                assert(c0.valid@ =~= Seq::new(initi as nat, |r: int| false));
                            }
                        }
                        match (c1.data, c0.data) {
                            (ColumnData::U64(v1, s1), ColumnData::U64(v0, s0)) => {
                                assert(v1@.subrange(0, initi) =~= v0@);
                            },
                            _ => {},
                        }
                    }
                }
                Result::Ok(())
            },
            Option::None => {
                proof {
                    assert forall|k: int| 0 <= k < self.statistics@.len() implies {
                        let (ridx, rst) = #[trigger] self.statistics@[k];
                        &&& (ridx as int) < self.batch.columns@.len()
                        &&& self.batch.columns@[ridx as int].valid@.len() == initi + ni
                        &&& stat_matches(rst, self.batch.columns@[ridx as int].influx_type)
                        &&& stat_rec_total(rst) == ni
                &&& stat_rec_nulls(rst) <= ni
                        &&& stat_rec_nulls(rst) <= ni
                    } by {
                        let (ridx, rst) = mid.statistics@[k];
                        if ridx as int == idx as int {
                            assert(mid.batch.columns@[ridx as int].valid@.len() == initi + ni);
                            assert(ni == 0);
                            assert(c1.valid@ == c0.valid@);
                        } else {
                            assert(self.batch.columns@[ridx as int] == mid.batch.columns@[
                            ridx as int]);
                        }
                    }
                    assert forall|i: int|
                        0 <= i < self.batch.columns@.len() && (
                        #[trigger] self.batch.columns@[i]).valid@.len() != initi implies exists|
                        k: int,
                    |
                        0 <= k < self.statistics@.len() && (#[trigger] self.statistics@[k]).0
                            == i by {
                        assert(self.batch.columns@[i].valid@.len() == mid.batch.columns@[
                        i].valid@.len());
                        let k = choose|k: int|
                            0 <= k < mid.statistics@.len() && (#[trigger] mid.statistics@[k]).0
                                == i;
                        assert(self.statistics@[k].0 == i);
                    }
                    assert(self.wf());
                }
                Result::Err(Error::InsufficientValues)
            },
        }
    }

    /// What a successful f64-stored write under `name` leaves: the
    /// target column gains `to_insert` rows whose validity follows the mask
    /// and whose set positions carry `vals` in order, every other column is
    /// untouched, and one pending record is appended. The shape mirrors the integer write.
    pub open spec fn f64_ok_state(
        self,
        post: Writer,
        name: Seq<u8>,
        mv: Option<Seq<u8>>,
        vals: Seq<FloatBits>,
    ) -> bool {
        let init = self.initial_rows as int;
        let n = self.to_insert as int;
        let idx = target_idx(self.batch, name);
        let consumed = count_set(mv, n);
        let c = post.batch.columns@[idx];
        &&& post.batch.columns@.len() == if has_col(self.batch, name) {
            self.batch.columns@.len() as int
        } else {
            self.batch.columns@.len() as int + 1
        }
        &&& forall|j: int|
            0 <= j < post.batch.columns@.len() && j != idx ==> post.batch.columns@[j]
                == self.batch.columns@[j]
        &&& c.name@ == name
        &&& c.influx_type == ColumnType::F64
        &&& c.valid@ == prior_valid_of(self.batch, name, init) + Seq::new(
            n as nat,
            |k: int| effective_bit(mv, k),
        )
        &&& match c.data {
            ColumnData::F64(v, st) => {
                &&& v@.len() == init + n
                &&& (has_col(self.batch, name) ==> match self.batch.columns@[idx].data {
                    ColumnData::F64(w, su) => v@.subrange(0, init) == w@ && st == su,
                    _ => false,
                })
                &&& (!has_col(self.batch, name) ==> (forall|p: int|
                    0 <= p < init ==> v@[p] == (FloatBits { bits: 0 })) && st == (StatValues::<FloatBits> {
                    min: Option::None,
                    max: Option::None,
                    total_count: init as u64,
                    null_count: init as u64,
                }))
                &&& forall|k: int|
                    0 <= k < n && effective_bit(mv, k) ==> v@[init + k] == vals[count_set(mv, k)]
                &&& forall|k: int| 0 <= k < n && !effective_bit(mv, k) ==> v@[init + k] == (FloatBits { bits: 0 })
            },
            _ => false,
        }
        &&& post.statistics@ == self.statistics@.push(
            ((idx as usize), Statistics::F64(write_record(vals, consumed, n))),
        )
    }

    /// Writes the f64 field column named `name`: for each set bit of
    /// `valid_mask` the next value of `values` is stored at the matching new
    /// row, nulls fill the rest; without a mask every new row takes a value.
    #[verifier::rlimit(100)]
    pub fn write_f64(
        &mut self,
        name: &Vec<u8>,
        valid_mask: Option<&Vec<u8>>,
        values: &Vec<FloatBits>,
    ) -> (r: Result<(), Error>)
        requires
            old(self).wf(),
            !old(self).column_written(name@),
            valid_mask matches Option::Some(m) ==> old(self).to_insert <= m@.len() * 8,
        ensures
            final(self).wf(),
            final(self).snapshot == old(self).snapshot,
            final(self).initial_rows == old(self).initial_rows,
            final(self).to_insert == old(self).to_insert,
            final(self).batch.row_count == old(self).batch.row_count,
            r is Err <==> (type_clash(old(self).batch, name@, ColumnType::F64) || count_set(
                opt_mask_view(valid_mask),
                old(self).to_insert as int,
            ) > values@.len()),
            type_clash(old(self).batch, name@, ColumnType::F64) ==> r == Result::<(), Error>::Err(
                Error::TypeMismatch {
                    existing: old(self).batch.columns@[find_col(old(self).batch, name@)].influx_type,
                    inserted: ColumnType::F64,
                },
            ) && *final(self) == *old(self),
            !type_clash(old(self).batch, name@, ColumnType::F64) && count_set(
                opt_mask_view(valid_mask),
                old(self).to_insert as int,
            ) > values@.len() ==> r == Result::<(), Error>::Err(Error::InsufficientValues) && final(self).statistics == old(self).statistics && forall|j: int|
                0 <= j < old(self).batch.columns@.len() && j != target_idx(old(self).batch, name@)
                    ==> final(self).batch.columns@[j] == old(self).batch.columns@[j],
            r is Ok ==> old(self).f64_ok_state(
                *final(self),
                name@,
                opt_mask_view(valid_mask),
                values@,
            ),
    {
        let init = self.initial_rows;
        let n = self.to_insert;
        let ghost mv = opt_mask_view(valid_mask);
        let idx = match self.column_mut(name, ColumnType::F64) {
            Result::Ok(i) => i,
            Result::Err(e) => {
                return Result::Err(e);
            },
        };
        let ghost mid = *self;
        let ghost snap = self.snapshot@;
        let ghost initi = init as int;
        let ghost ni = n as int;
        let ghost c0 = self.batch.columns@[idx as int];
        proof {
            if has_col(old(self).batch, name@) {
                assert(c0 == old(self).batch.columns@[idx as int]);
                if c0.valid@.len() != initi || data_len(c0.data) != initi {
                    assert(old(self).column_written(name@));
                }
            }
            assert(c0.valid@.len() == initi && data_len(c0.data) == initi);
        }
        let consumed_res: Option<usize>;
        {
            let col: &mut Column = &mut self.batch.columns[idx];
            consumed_res = match &mut col.data {
                ColumnData::F64(v, _) => {
                    crate::batch::grow_to(v, init + n, (FloatBits { bits: 0 }));
                    crate::mask::fill_masked(v, init, n, valid_mask, values)
                },
                _ => {
                    proof {
                        assert(false);
                    }
                    vstd::pervasive::unreached()
                },
            };
            if consumed_res.is_some() {
                crate::mask::append_valid_mask(&mut col.valid, valid_mask, n);
            }
        }
        let ghost c1 = self.batch.columns@[idx as int];
        proof {
            assert(data_same_kind_grown(c1.data, c0.data, initi, ni));
            assert(valid_after_write(c1.valid@, c0.valid@, initi, ni)) by {
                if c1.valid@ != c0.valid@ {
                    assert(c1.valid@.subrange(0, initi) =~= c0.valid@);
                }
            }
            assert forall|j: int| 0 <= j < snap.columns@.len() implies col_extends(
                #[trigger] self.batch.columns@[j],
                snap.columns@[j],
                initi,
                ni,
            ) by {
                if j == idx {
                    lemma_col_extends_after_write(c0, c1, snap.columns@[j], initi, ni);
                } else {
                    assert(self.batch.columns@[j] == mid.batch.columns@[j]);
                }
            }
            assert forall|j: int|
                snap.columns@.len() <= j < self.batch.columns@.len() implies col_fresh(
                #[trigger] self.batch.columns@[j],
                initi,
                ni,
            ) by {
                if j == idx {
                    lemma_col_fresh_after_write(c0, c1, initi, ni);
                } else {
                    assert(self.batch.columns@[j] == mid.batch.columns@[j]);
                }
            }
            assert forall|a: int, b: int|
                0 <= a < b < self.batch.columns@.len() implies (#[trigger] self.batch.columns@[a]).name@
                != (#[trigger] self.batch.columns@[b]).name@ by {
                assert(mid.batch.columns@[a].name@ != mid.batch.columns@[b].name@);
                assert(self.batch.columns@[a].name@ == mid.batch.columns@[a].name@);
                assert(self.batch.columns@[b].name@ == mid.batch.columns@[b].name@);
            }
        }
        match consumed_res {
            Option::Some(consumed) => {
                proof {
                    crate::mask::lemma_count_set_bounds(mv, ni);
                }
                let st = fold_stats(values, consumed, n);
                self.statistics.push((idx, Statistics::F64(st)));
                proof {
                    assert forall|k: int| 0 <= k < self.statistics@.len() implies {
                        let (ridx, rst) = #[trigger] self.statistics@[k];
                        &&& (ridx as int) < self.batch.columns@.len()
                        &&& self.batch.columns@[ridx as int].valid@.len() == initi + ni
                        &&& stat_matches(rst, self.batch.columns@[ridx as int].influx_type)
                        &&& stat_rec_total(rst) == ni
                &&& stat_rec_nulls(rst) <= ni
                        &&& stat_rec_nulls(rst) <= ni
                    } by {
                        if k < mid.statistics@.len() {
                            assert(self.statistics@[k] == mid.statistics@[k]);
                            let (ridx, rst) = mid.statistics@[k];
                            assert((ridx as int) < mid.batch.columns@.len());
                            if ridx as int == idx as int {
                                assert(mid.batch.columns@[ridx as int].valid@.len() == initi + ni);
                                assert(ni == 0);
                            } else {
                                assert(self.batch.columns@[ridx as int] == mid.batch.columns@[
                                ridx as int]);
                            }
                        } else {
                            assert(self.statistics@[k] == ((idx, Statistics::F64(
                                write_record(values@, consumed as int, ni),
                            ))));
                        }
                    }
                    if ni > 0 {
                        assert forall|k1: int, k2: int|
                            0 <= k1 < k2 < self.statistics@.len() implies (
                        #[trigger] self.statistics@[k1]).0 != (#[trigger] self.statistics@[k2]).0 by {
                            if k2 == self.statistics@.len() - 1 {
                                let (ridx, _) = mid.statistics@[k1];
                                if ridx as int == idx as int {
                                    assert(mid.batch.columns@[idx as int].valid@.len() == initi
                                        + ni);
                                }
                            }
                        }
                    }
                    assert forall|i: int|
                        0 <= i < self.batch.columns@.len() && (
                        #[trigger] self.batch.columns@[i]).valid@.len() != initi implies exists|
                        k: int,
                    |
                        0 <= k < self.statistics@.len() && (#[trigger] self.statistics@[k]).0
                            == i by {
                        if i == idx as int {
                            assert(self.statistics@[self.statistics@.len() - 1].0 == idx);
                        } else {
                            assert(self.batch.columns@[i] == mid.batch.columns@[i]);
                            let k = choose|k: int|
                                0 <= k < mid.statistics@.len() && (#[trigger] mid.statistics@[k]).0
                                    == i;
                            assert(self.statistics@[k].0 == i);
                        }
                    }
                    assert(self.wf());
                    assert(old(self).f64_ok_state(*self, name@, mv, values@)) by {
                        assert(c1.valid@ == prior_valid_of(old(self).batch, name@, initi)
                            + Seq::new(ni as nat, |k: int| effective_bit(mv, k))) by {
                            if !has_col(old(self).batch, name@) {
                                assert(c0.valid@ =~= Seq::new(initi as nat, |r: int| false));
                            }
                        }
                        match (c1.data, c0.data) {
                            (ColumnData::F64(v1, s1), ColumnData::F64(v0, s0)) => {
                                assert(v1@.subrange(0, initi) =~= v0@);
                            },
                            _ => {},
                        }
                    }
                }
                Result::Ok(())
            },
            Option::None => {
                proof {
                    assert forall|k: int| 0 <= k < self.statistics@.len() implies {
                        let (ridx, rst) = #[trigger] self.statistics@[k];
                        &&& (ridx as int) < self.batch.columns@.len()
                        &&& self.batch.columns@[ridx as int].valid@.len() == initi + ni
                        &&& stat_matches(rst, self.batch.columns@[ridx as int].influx_type)
                        &&& stat_rec_total(rst) == ni
                &&& stat_rec_nulls(rst) <= ni
                        &&& stat_rec_nulls(rst) <= ni
                    } by {
                        let (ridx, rst) = mid.statistics@[k];
                        if ridx as int == idx as int {
                            assert(mid.batch.columns@[ridx as int].valid@.len() == initi + ni);
                            assert(ni == 0);
                            assert(c1.valid@ == c0.valid@);
                        } else {
                            assert(self.batch.columns@[ridx as int] == mid.batch.columns@[
                            ridx as int]);
                        }
                    }
                    assert forall|i: int|
                        0 <= i < self.batch.columns@.len() && (
                        #[trigger] self.batch.columns@[i]).valid@.len() != initi implies exists|
                        k: int,
                    |
                        0 <= k < self.statistics@.len() && (#[trigger] self.statistics@[k]).0
                            == i by {
                        assert(self.batch.columns@[i].valid@.len() == mid.batch.columns@[
                        i].valid@.len());
                        let k = choose|k: int|
                            0 <= k < mid.statistics@.len() && (#[trigger] mid.statistics@[k]).0
                                == i;
                        assert(self.statistics@[k].0 == i);
                    }
                    assert(self.wf());
                }
                Result::Err(Error::InsufficientValues)
            },
        }
    }

    /// What a successful bool-stored write under `name` leaves: the
    /// target column gains `to_insert` rows whose validity follows the mask
    /// and whose set positions carry `vals` in order, every other column is
    /// untouched, and one pending record is appended. The shape mirrors the integer write.
    pub open spec fn bool_ok_state(
        self,
        post: Writer,
        name: Seq<u8>,
        mv: Option<Seq<u8>>,
        vals: Seq<bool>,
    ) -> bool {
        let init = self.initial_rows as int;
        let n = self.to_insert as int;
        let idx = target_idx(self.batch, name);
        let consumed = count_set(mv, n);
        let c = post.batch.columns@[idx];
        &&& post.batch.columns@.len() == if has_col(self.batch, name) {
            self.batch.columns@.len() as int
        } else {
            self.batch.columns@.len() as int + 1
        }
        &&& forall|j: int|
            0 <= j < post.batch.columns@.len() && j != idx ==> post.batch.columns@[j]
                == self.batch.columns@[j]
        &&& c.name@ == name
        &&& c.influx_type == ColumnType::Bool
        &&& c.valid@ == prior_valid_of(self.batch, name, init) + Seq::new(
            n as nat,
            |k: int| effective_bit(mv, k),
        )
        &&& match c.data {
            ColumnData::Bool(v, st) => {
                &&& v@.len() == init + n
                &&& (has_col(self.batch, name) ==> match self.batch.columns@[idx].data {
                    ColumnData::Bool(w, su) => v@.subrange(0, init) == w@ && st == su,
                    _ => false,
                })
                &&& (!has_col(self.batch, name) ==> (forall|p: int|
                    0 <= p < init ==> v@[p] == false) && st == (StatValues::<bool> {
                    min: Option::None,
                    max: Option::None,
                    total_count: init as u64,
                    null_count: init as u64,
                }))
                &&& forall|k: int|
                    0 <= k < n && effective_bit(mv, k) ==> v@[init + k] == vals[count_set(mv, k)]
                &&& forall|k: int| 0 <= k < n && !effective_bit(mv, k) ==> v@[init + k] == false
            },
            _ => false,
        }
        &&& post.statistics@ == self.statistics@.push(
            ((idx as usize), Statistics::Bool(write_record(vals, consumed, n))),
        )
    }

    /// Writes the bool field column named `name`: for each set bit of
    /// `valid_mask` the next value of `values` is stored at the matching new
    /// row, nulls fill the rest; without a mask every new row takes a value.
    #[verifier::rlimit(100)]
    pub fn write_bool(
        &mut self,
        name: &Vec<u8>,
        valid_mask: Option<&Vec<u8>>,
        values: &Vec<bool>,
    ) -> (r: Result<(), Error>)
        requires
            old(self).wf(),
            !old(self).column_written(name@),
            valid_mask matches Option::Some(m) ==> old(self).to_insert <= m@.len() * 8,
        ensures
            final(self).wf(),
            final(self).snapshot == old(self).snapshot,
            final(self).initial_rows == old(self).initial_rows,
            final(self).to_insert == old(self).to_insert,
            final(self).batch.row_count == old(self).batch.row_count,
            r is Err <==> (type_clash(old(self).batch, name@, ColumnType::Bool) || count_set(
                opt_mask_view(valid_mask),
                old(self).to_insert as int,
            ) > values@.len()),
            type_clash(old(self).batch, name@, ColumnType::Bool) ==> r == Result::<(), Error>::Err(
                Error::TypeMismatch {
                    existing: old(self).batch.columns@[find_col(old(self).batch, name@)].influx_type,
                    inserted: ColumnType::Bool,
                },
            ) && *final(self) == *old(self),
            !type_clash(old(self).batch, name@, ColumnType::Bool) && count_set(
                opt_mask_view(valid_mask),
                old(self).to_insert as int,
            ) > values@.len() ==> r == Result::<(), Error>::Err(Error::InsufficientValues) && final(self).statistics == old(self).statistics && forall|j: int|
                0 <= j < old(self).batch.columns@.len() && j != target_idx(old(self).batch, name@)
                    ==> final(self).batch.columns@[j] == old(self).batch.columns@[j],
            r is Ok ==> old(self).bool_ok_state(
                *final(self),
                name@,
                opt_mask_view(valid_mask),
                values@,
            ),
    {
        let init = self.initial_rows;
        let n = self.to_insert;
        let ghost mv = opt_mask_view(valid_mask);
        let idx = match self.column_mut(name, ColumnType::Bool) {
            Result::Ok(i) => i,
            Result::Err(e) => {
                return Result::Err(e);
            },
        };
        let ghost mid = *self;
        let ghost snap = self.snapshot@;
        let ghost initi = init as int;
        let ghost ni = n as int;
        let ghost c0 = self.batch.columns@[idx as int];
        proof {
            if has_col(old(self).batch, name@) {
                assert(c0 == old(self).batch.columns@[idx as int]);
                if c0.valid@.len() != initi || data_len(c0.data) != initi {
                    assert(old(self).column_written(name@));
                }
            }
            assert(c0.valid@.len() == initi && data_len(c0.data) == initi);
        }
        let consumed_res: Option<usize>;
        {
            let col: &mut Column = &mut self.batch.columns[idx];
            consumed_res = match &mut col.data {
                ColumnData::Bool(v, _) => {
                    crate::batch::grow_to(v, init + n, false);
                    crate::mask::fill_masked(v, init, n, valid_mask, values)
                },
                _ => {
                    proof {
                        assert(false);
                    }
                    vstd::pervasive::unreached()
                },
            };
            if consumed_res.is_some() {
                crate::mask::append_valid_mask(&mut col.valid, valid_mask, n);
            }
        }
        let ghost c1 = self.batch.columns@[idx as int];
        proof {
            assert(data_same_kind_grown(c1.data, c0.data, initi, ni));
            assert(valid_after_write(c1.valid@, c0.valid@, initi, ni)) by {
                if c1.valid@ != c0.valid@ {
                    assert(c1.valid@.subrange(0, initi) =~= c0.valid@);
                }
            }
            assert forall|j: int| 0 <= j < snap.columns@.len() implies col_extends(
                #[trigger] self.batch.columns@[j],
                snap.columns@[j],
                initi,
                ni,
            ) by {
                if j == idx {
                    lemma_col_extends_after_write(c0, c1, snap.columns@[j], initi, ni);
                } else {
                    assert(self.batch.columns@[j] == mid.batch.columns@[j]);
                }
            }
            assert forall|j: int|
                snap.columns@.len() <= j < self.batch.columns@.len() implies col_fresh(
                #[trigger] self.batch.columns@[j],
                initi,
                ni,
            ) by {
                if j == idx {
                    lemma_col_fresh_after_write(c0, c1, initi, ni);
                } else {
                    assert(self.batch.columns@[j] == mid.batch.columns@[j]);
                }
            }
            assert forall|a: int, b: int|
                0 <= a < b < self.batch.columns@.len() implies (#[trigger] self.batch.columns@[a]).name@
                != (#[trigger] self.batch.columns@[b]).name@ by {
                assert(mid.batch.columns@[a].name@ != mid.batch.columns@[b].name@);
                assert(self.batch.columns@[a].name@ == mid.batch.columns@[a].name@);
                assert(self.batch.columns@[b].name@ == mid.batch.columns@[b].name@);
            }
        }
        match consumed_res {
            Option::Some(consumed) => {
                proof {
                    crate::mask::lemma_count_set_bounds(mv, ni);
                }
                let st = fold_stats(values, consumed, n);
                self.statistics.push((idx, Statistics::Bool(st)));
                proof {
                    assert forall|k: int| 0 <= k < self.statistics@.len() implies {
                        let (ridx, rst) = #[trigger] self.statistics@[k];
                        &&& (ridx as int) < self.batch.columns@.len()
                        &&& self.batch.columns@[ridx as int].valid@.len() == initi + ni
                        &&& stat_matches(rst, self.batch.columns@[ridx as int].influx_type)
                        &&& stat_rec_total(rst) == ni
                &&& stat_rec_nulls(rst) <= ni
                        &&& stat_rec_nulls(rst) <= ni
                    } by {
                        if k < mid.statistics@.len() {
                            assert(self.statistics@[k] == mid.statistics@[k]);
                            let (ridx, rst) = mid.statistics@[k];
                            assert((ridx as int) < mid.batch.columns@.len());
                            if ridx as int == idx as int {
                                assert(mid.batch.columns@[ridx as int].valid@.len() == initi + ni);
                                assert(ni == 0);
                            } else {
                                assert(self.batch.columns@[ridx as int] == mid.batch.columns@[
                                ridx as int]);
                            }
                        } else {
                            assert(self.statistics@[k] == ((idx, Statistics::Bool(
                                write_record(values@, consumed as int, ni),
                            ))));
                        }
                    }
                    if ni > 0 {
                        assert forall|k1: int, k2: int|
                            0 <= k1 < k2 < self.statistics@.len() implies (
                        #[trigger] self.statistics@[k1]).0 != (#[trigger] self.statistics@[k2]).0 by {
                            if k2 == self.statistics@.len() - 1 {
                                let (ridx, _) = mid.statistics@[k1];
                                if ridx as int == idx as int {
                                    assert(mid.batch.columns@[idx as int].valid@.len() == initi
                                        + ni);
                                }
                            }
                        }
                    }
                    assert forall|i: int|
                        0 <= i < self.batch.columns@.len() && (
                        #[trigger] self.batch.columns@[i]).valid@.len() != initi implies exists|
                        k: int,
                    |
                        0 <= k < self.statistics@.len() && (#[trigger] self.statistics@[k]).0
                            == i by {
                        if i == idx as int {
                            assert(self.statistics@[self.statistics@.len() - 1].0 == idx);
                        } else {
                            assert(self.batch.columns@[i] == mid.batch.columns@[i]);
                            let k = choose|k: int|
                                0 <= k < mid.statistics@.len() && (#[trigger] mid.statistics@[k]).0
                                    == i;
                            assert(self.statistics@[k].0 == i);
                        }
                    }
                    assert(self.wf());
                    assert(old(self).bool_ok_state(*self, name@, mv, values@)) by {
                        assert(c1.valid@ == prior_valid_of(old(self).batch, name@, initi)
                            + Seq::new(ni as nat, |k: int| effective_bit(mv, k))) by {
                            if !has_col(old(self).batch, name@) {
                                assert(c0.valid@ =~= Seq::new(initi as nat, |r: int| false));
                            }
                        }
                        match (c1.data, c0.data) {
                            (ColumnData::Bool(v1, s1), ColumnData::Bool(v0, s0)) => {
                                assert(v1@.subrange(0, initi) =~= v0@);
                            },
                            _ => {},
                        }
                    }
                }
                Result::Ok(())
            },
            Option::None => {
                proof {
                    assert forall|k: int| 0 <= k < self.statistics@.len() implies {
                        let (ridx, rst) = #[trigger] self.statistics@[k];
                        &&& (ridx as int) < self.batch.columns@.len()
                        &&& self.batch.columns@[ridx as int].valid@.len() == initi + ni
                        &&& stat_matches(rst, self.batch.columns@[ridx as int].influx_type)
                        &&& stat_rec_total(rst) == ni
                &&& stat_rec_nulls(rst) <= ni
                        &&& stat_rec_nulls(rst) <= ni
                    } by {
                        let (ridx, rst) = mid.statistics@[k];
                        if ridx as int == idx as int {
                            assert(mid.batch.columns@[ridx as int].valid@.len() == initi + ni);
                            assert(ni == 0);
                            assert(c1.valid@ == c0.valid@);
                        } else {
                            assert(self.batch.columns@[ridx as int] == mid.batch.columns@[
                            ridx as int]);
                        }
                    }
                    assert forall|i: int|
                        0 <= i < self.batch.columns@.len() && (
                        #[trigger] self.batch.columns@[i]).valid@.len() != initi implies exists|
                        k: int,
                    |
                        0 <= k < self.statistics@.len() && (#[trigger] self.statistics@[k]).0
                            == i by {
                        assert(self.batch.columns@[i].valid@.len() == mid.batch.columns@[
                        i].valid@.len());
                        let k = choose|k: int|
                            0 <= k < mid.statistics@.len() && (#[trigger] mid.statistics@[k]).0
                                == i;
                        assert(self.statistics@[k].0 == i);
                    }
                    assert(self.wf());
                }
                Result::Err(Error::InsufficientValues)
            },
        }
    }

    /// What a successful byte-string field write under `name` leaves. The
    /// shape mirrors the integer write; stored values and extremes are
    /// stated by content, since the column stores copies.
    pub open spec fn str_ok_state(
        self,
        post: Writer,
        name: Seq<u8>,
        mv: Option<Seq<u8>>,
        vals: Seq<Vec<u8>>,
    ) -> bool {
        let init = self.initial_rows as int;
        let n = self.to_insert as int;
        let idx = target_idx(self.batch, name);
        let consumed = count_set(mv, n);
        let c = post.batch.columns@[idx];
        &&& post.batch.columns@.len() == if has_col(self.batch, name) {
            self.batch.columns@.len() as int
        } else {
            self.batch.columns@.len() as int + 1
        }
        &&& forall|j: int|
            0 <= j < post.batch.columns@.len() && j != idx ==> post.batch.columns@[j]
                == self.batch.columns@[j]
        &&& c.name@ == name
        &&& c.influx_type == ColumnType::Str
        &&& c.valid@ == prior_valid_of(self.batch, name, init) + Seq::new(
            n as nat,
            |k: int| effective_bit(mv, k),
        )
        &&& match c.data {
            ColumnData::Str(v, st) => {
                &&& v@.len() == init + n
                &&& (has_col(self.batch, name) ==> match self.batch.columns@[idx].data {
                    ColumnData::Str(w, su) => v@.subrange(0, init) == w@ && st == su,
                    _ => false,
                })
                &&& (!has_col(self.batch, name) ==> (forall|p: int|
                    0 <= p < init ==> (#[trigger] v@[p])@.len() == 0) && st.model() == (
                    Option::<Seq<u8>>::None,
                    Option::<Seq<u8>>::None,
                    init,
                    init,
                ))
                &&& forall|k: int|
                    0 <= k < n && effective_bit(mv, k) ==> (#[trigger] v@[init + k])@ == (
                    vals[count_set(mv, k)])@
                &&& forall|k: int|
                    0 <= k < n && !effective_bit(mv, k) ==> (#[trigger] v@[init + k])@.len() == 0
            },
            _ => false,
        }
        &&& post.statistics@.len() == self.statistics@.len() + 1
        &&& post.statistics@.subrange(0, self.statistics@.len() as int) == self.statistics@
        &&& (post.statistics@.last().0 as int) == idx
        &&& match post.statistics@.last().1 {
            Statistics::Str(st) => st.model() == bytes_write_record(bytes_views(vals), consumed, n)
                && st.distinct_count matches Option::None,
            _ => false,
        }
    }

    /// Writes the string field column named `name`: for each set bit of
    /// `valid_mask` the next value of `values` is copied into the matching
    /// new row, nulls fill the rest.
    #[verifier::rlimit(100)]
    pub fn write_string(
        &mut self,
        name: &Vec<u8>,
        valid_mask: Option<&Vec<u8>>,
        values: &Vec<Vec<u8>>,
    ) -> (r: Result<(), Error>)
        requires
            old(self).wf(),
            !old(self).column_written(name@),
            valid_mask matches Option::Some(m) ==> old(self).to_insert <= m@.len() * 8,
        ensures
            final(self).wf(),
            final(self).snapshot == old(self).snapshot,
            final(self).initial_rows == old(self).initial_rows,
            final(self).to_insert == old(self).to_insert,
            final(self).batch.row_count == old(self).batch.row_count,
            r is Err <==> (type_clash(old(self).batch, name@, ColumnType::Str) || count_set(
                opt_mask_view(valid_mask),
                old(self).to_insert as int,
            ) > values@.len()),
            type_clash(old(self).batch, name@, ColumnType::Str) ==> r == Result::<(), Error>::Err(
                Error::TypeMismatch {
                    existing: old(self).batch.columns@[find_col(old(self).batch, name@)].influx_type,
                    inserted: ColumnType::Str,
                },
            ) && *final(self) == *old(self),
            !type_clash(old(self).batch, name@, ColumnType::Str) && count_set(
                opt_mask_view(valid_mask),
                old(self).to_insert as int,
            ) > values@.len() ==> r == Result::<(), Error>::Err(Error::InsufficientValues) && final(self).statistics == old(self).statistics && forall|j: int|
                0 <= j < old(self).batch.columns@.len() && j != target_idx(old(self).batch, name@)
                    ==> final(self).batch.columns@[j] == old(self).batch.columns@[j],
            r is Ok ==> old(self).str_ok_state(
                *final(self),
                name@,
                opt_mask_view(valid_mask),
                values@,
            ),
    {
        let init = self.initial_rows;
        let n = self.to_insert;
        let ghost mv = opt_mask_view(valid_mask);
        let idx = match self.column_mut(name, ColumnType::Str) {
            Result::Ok(i) => i,
            Result::Err(e) => {
                return Result::Err(e);
            },
        };
        let ghost mid = *self;
        let ghost snap = self.snapshot@;
        let ghost initi = init as int;
        let ghost ni = n as int;
        let ghost c0 = self.batch.columns@[idx as int];
        proof {
            if has_col(old(self).batch, name@) {
                assert(c0 == old(self).batch.columns@[idx as int]);
                if c0.valid@.len() != initi || data_len(c0.data) != initi {
                    assert(old(self).column_written(name@));
                }
            }
            assert(c0.valid@.len() == initi && data_len(c0.data) == initi);
        }
        let consumed_res: Option<usize>;
        {
            let col: &mut Column = &mut self.batch.columns[idx];
            consumed_res = match &mut col.data {
                ColumnData::Str(v, _) => {
                    crate::batch::grow_empty_bytes(v, init + n);
                    proof {
                        assert forall|p: int| 0 <= p < initi implies v@[p] == c0.data->Str_0@[p] by {
                            assert(v@.subrange(0, initi)[p] == v@[p]);
                        }
                    }
                    crate::mask::fill_masked_bytes(v, init, n, valid_mask, values)
                },
                _ => {
                    proof {
                        assert(false);
                    }
                    vstd::pervasive::unreached()
                },
            };
            if consumed_res.is_some() {
                crate::mask::append_valid_mask(&mut col.valid, valid_mask, n);
            }
        }
        let ghost c1 = self.batch.columns@[idx as int];
        proof {
            assert(data_same_kind_grown(c1.data, c0.data, initi, ni));
            assert(valid_after_write(c1.valid@, c0.valid@, initi, ni)) by {
                if c1.valid@ != c0.valid@ {
                    assert(c1.valid@.subrange(0, initi) =~= c0.valid@);
                }
            }
            assert forall|j: int| 0 <= j < snap.columns@.len() implies col_extends(
                #[trigger] self.batch.columns@[j],
                snap.columns@[j],
                initi,
                ni,
            ) by {
                if j == idx {
                    lemma_col_extends_after_write(c0, c1, snap.columns@[j], initi, ni);
                } else {
                    assert(self.batch.columns@[j] == mid.batch.columns@[j]);
                }
            }
            assert forall|j: int|
                snap.columns@.len() <= j < self.batch.columns@.len() implies col_fresh(
                #[trigger] self.batch.columns@[j],
                initi,
                ni,
            ) by {
                if j == idx {
                    lemma_col_fresh_after_write(c0, c1, initi, ni);
                } else {
                    assert(self.batch.columns@[j] == mid.batch.columns@[j]);
                }
            }
            assert forall|a: int, b: int|
                0 <= a < b < self.batch.columns@.len() implies (#[trigger] self.batch.columns@[a]).name@
                != (#[trigger] self.batch.columns@[b]).name@ by {
                assert(mid.batch.columns@[a].name@ != mid.batch.columns@[b].name@);
                assert(self.batch.columns@[a].name@ == mid.batch.columns@[a].name@);
                assert(self.batch.columns@[b].name@ == mid.batch.columns@[b].name@);
            }
        }
        match consumed_res {
            Option::Some(consumed) => {
                proof {
                    crate::mask::lemma_count_set_bounds(mv, ni);
                }
                let st = fold_stats_bytes(values, consumed, n);
                self.statistics.push((idx, Statistics::Str(st)));
                proof {
                    assert forall|k: int| 0 <= k < self.statistics@.len() implies {
                        let (ridx, rst) = #[trigger] self.statistics@[k];
                        &&& (ridx as int) < self.batch.columns@.len()
                        &&& self.batch.columns@[ridx as int].valid@.len() == initi + ni
                        &&& stat_matches(rst, self.batch.columns@[ridx as int].influx_type)
                        &&& stat_rec_total(rst) == ni
                &&& stat_rec_nulls(rst) <= ni
                        &&& stat_rec_nulls(rst) <= ni
                    } by {
                        if k < mid.statistics@.len() {
                            assert(self.statistics@[k] == mid.statistics@[k]);
                            let (ridx, rst) = mid.statistics@[k];
                            assert((ridx as int) < mid.batch.columns@.len());
                            if ridx as int == idx as int {
                                assert(mid.batch.columns@[ridx as int].valid@.len() == initi + ni);
                                assert(ni == 0);
                            } else {
                                assert(self.batch.columns@[ridx as int] == mid.batch.columns@[
                                ridx as int]);
                            }
                        } else {
                            assert(self.statistics@[k] == ((idx, Statistics::Str(st))));
                        }
                    }
                    if ni > 0 {
                        assert forall|k1: int, k2: int|
                            0 <= k1 < k2 < self.statistics@.len() implies (
                        #[trigger] self.statistics@[k1]).0 != (#[trigger] self.statistics@[k2]).0 by {
                            if k2 == self.statistics@.len() - 1 {
                                let (ridx, _) = mid.statistics@[k1];
                                if ridx as int == idx as int {
                                    assert(mid.batch.columns@[idx as int].valid@.len() == initi
                                        + ni);
                                }
                            }
                        }
                    }
                    assert forall|i: int|
                        0 <= i < self.batch.columns@.len() && (
                        #[trigger] self.batch.columns@[i]).valid@.len() != initi implies exists|
                        k: int,
                    |
                        0 <= k < self.statistics@.len() && (#[trigger] self.statistics@[k]).0
                            == i by {
                        if i == idx as int {
                            assert(self.statistics@[self.statistics@.len() - 1].0 == idx);
                        } else {
                            assert(self.batch.columns@[i] == mid.batch.columns@[i]);
                            let k = choose|k: int|
                                0 <= k < mid.statistics@.len() && (#[trigger] mid.statistics@[k]).0
                                    == i;
                            assert(self.statistics@[k].0 == i);
                        }
                    }
                    assert(self.wf());
                    assert(old(self).str_ok_state(*self, name@, mv, values@)) by {
                        assert(c1.valid@ == prior_valid_of(old(self).batch, name@, initi)
                            + Seq::new(ni as nat, |k: int| effective_bit(mv, k))) by {
                            if !has_col(old(self).batch, name@) {
                                assert(c0.valid@ =~= Seq::new(initi as nat, |r: int| false));
                            }
                        }
                        match (c1.data, c0.data) {
                            (ColumnData::Str(v1, s1), ColumnData::Str(v0, s0)) => {
                                assert(v1@.subrange(0, initi) =~= v0@);
                            },
                            _ => {},
                        }
                        assert(self.statistics@.subrange(0, mid.statistics@.len() as int)
                            =~= mid.statistics@);
                    }
                }
                Result::Ok(())
            },
            Option::None => {
                proof {
                    assert forall|k: int| 0 <= k < self.statistics@.len() implies {
                        let (ridx, rst) = #[trigger] self.statistics@[k];
                        &&& (ridx as int) < self.batch.columns@.len()
                        &&& self.batch.columns@[ridx as int].valid@.len() == initi + ni
                        &&& stat_matches(rst, self.batch.columns@[ridx as int].influx_type)
                        &&& stat_rec_total(rst) == ni
                &&& stat_rec_nulls(rst) <= ni
                        &&& stat_rec_nulls(rst) <= ni
                    } by {
                        let (ridx, rst) = mid.statistics@[k];
                        if ridx as int == idx as int {
                            assert(mid.batch.columns@[ridx as int].valid@.len() == initi + ni);
                            assert(ni == 0);
                            assert(c1.valid@ == c0.valid@);
                        } else {
                            assert(self.batch.columns@[ridx as int] == mid.batch.columns@[
                            ridx as int]);
                        }
                    }
                    assert forall|i: int|
                        0 <= i < self.batch.columns@.len() && (
                        #[trigger] self.batch.columns@[i]).valid@.len() != initi implies exists|
                        k: int,
                    |
                        0 <= k < self.statistics@.len() && (#[trigger] self.statistics@[k]).0
                            == i by {
                        assert(self.batch.columns@[i].valid@.len() == mid.batch.columns@[
                        i].valid@.len());
                        let k = choose|k: int|
                            0 <= k < mid.statistics@.len() && (#[trigger] mid.statistics@[k]).0
                                == i;
                        assert(self.statistics@[k].0 == i);
                    }
                    assert(self.wf());
                }
                Result::Err(Error::InsufficientValues)
            },
        }
    }

    /// The dictionary entries the tag column named `name` holds before a
    /// write: those of the existing column, or none for a column about to
    /// be created.
    pub open spec fn prior_tag_entries(b: MutableBatch, name: Seq<u8>) -> Seq<Vec<u8>> {
        if has_col(b, name) {
            match b.columns@[find_col(b, name)].data {
                ColumnData::Tag(_, d, _) => d.entries@,
                _ => Seq::empty(),
            }
        } else {
            Seq::empty()
        }
    }

    /// What a successful tag write under `name` leaves: each set position
    /// stores the dictionary code of its value, the dictionary grows
    /// append-only by exactly the referenced values that were not yet
    /// interned, and the unset positions stay null codes.
    pub open spec fn tag_ok_state(
        self,
        post: Writer,
        name: Seq<u8>,
        mv: Option<Seq<u8>>,
        vals: Seq<Seq<u8>>,
    ) -> bool {
        let init = self.initial_rows as int;
        let n = self.to_insert as int;
        let idx = target_idx(self.batch, name);
        let consumed = count_set(mv, n);
        let d0 = Writer::prior_tag_entries(self.batch, name);
        let c = post.batch.columns@[idx];
        &&& post.batch.columns@.len() == if has_col(self.batch, name) {
            self.batch.columns@.len() as int
        } else {
            self.batch.columns@.len() as int + 1
        }
        &&& forall|j: int|
            0 <= j < post.batch.columns@.len() && j != idx ==> post.batch.columns@[j]
                == self.batch.columns@[j]
        &&& c.name@ == name
        &&& c.influx_type == ColumnType::Tag
        &&& c.valid@ == prior_valid_of(self.batch, name, init) + Seq::new(
            n as nat,
            |k: int| effective_bit(mv, k),
        )
        &&& match c.data {
            ColumnData::Tag(codes, d, st) => {
                &&& codes@.len() == init + n
                &&& (has_col(self.batch, name) ==> match self.batch.columns@[idx].data {
                    ColumnData::Tag(w, _, su) => codes@.subrange(0, init) == w@ && st == su,
                    _ => false,
                })
                &&& (!has_col(self.batch, name) ==> (forall|p: int|
                    0 <= p < init ==> (#[trigger] codes@[p] matches Option::None)) && st.model()
                    == (Option::<Seq<u8>>::None, Option::<Seq<u8>>::None, init, init))
                &&& d.wf()
                &&& d.entries@.len() >= d0.len()
                &&& d.entries@.subrange(0, d0.len() as int) == d0
                &&& forall|k: int|
                    0 <= k < n && effective_bit(mv, k) ==> (#[trigger] codes@[init + k] matches
                        Option::Some(code) && (code as int) < d.entries@.len()
                        && d.view_entries()[code as int] == vals[count_set(mv, k)])
                &&& forall|k: int|
                    0 <= k < n && !effective_bit(mv, k) ==> (#[trigger] codes@[init + k] matches
                        Option::None)
                &&& forall|c2: int|
                    d0.len() <= c2 < d.entries@.len() ==> among_seqs(
                        vals,
                        consumed,
                        #[trigger] d.view_entries()[c2],
                    )
            },
            _ => false,
        }
        &&& post.statistics@.len() == self.statistics@.len() + 1
        &&& post.statistics@.subrange(0, self.statistics@.len() as int) == self.statistics@
        &&& (post.statistics@.last().0 as int) == idx
        &&& match post.statistics@.last().1 {
            Statistics::Str(st) => st.model() == bytes_write_record(vals, consumed, n)
                && st.distinct_count matches Option::None,
            _ => false,
        }
    }

    /// Writes the tag column named `name`: each value is resolved through
    /// the column's dictionary to a code before being stored, so equal
    /// values share one entry; statistics fold the string values.
    #[verifier::rlimit(100)]
    pub fn write_tag(
        &mut self,
        name: &Vec<u8>,
        valid_mask: Option<&Vec<u8>>,
        values: &Vec<Vec<u8>>,
    ) -> (r: Result<(), Error>)
        requires
            old(self).wf(),
            !old(self).column_written(name@),
            valid_mask matches Option::Some(m) ==> old(self).to_insert <= m@.len() * 8,
        ensures
            final(self).wf(),
            final(self).snapshot == old(self).snapshot,
            final(self).initial_rows == old(self).initial_rows,
            final(self).to_insert == old(self).to_insert,
            final(self).batch.row_count == old(self).batch.row_count,
            r is Err <==> (type_clash(old(self).batch, name@, ColumnType::Tag) || count_set(
                opt_mask_view(valid_mask),
                old(self).to_insert as int,
            ) > values@.len()),
            type_clash(old(self).batch, name@, ColumnType::Tag) ==> r == Result::<(), Error>::Err(
                Error::TypeMismatch {
                    existing: old(self).batch.columns@[find_col(old(self).batch, name@)].influx_type,
                    inserted: ColumnType::Tag,
                },
            ) && *final(self) == *old(self),
            !type_clash(old(self).batch, name@, ColumnType::Tag) && count_set(
                opt_mask_view(valid_mask),
                old(self).to_insert as int,
            ) > values@.len() ==> r == Result::<(), Error>::Err(Error::InsufficientValues) && final(self).statistics == old(self).statistics && forall|j: int|
                0 <= j < old(self).batch.columns@.len() && j != target_idx(old(self).batch, name@)
                    ==> final(self).batch.columns@[j] == old(self).batch.columns@[j],
            r is Ok ==> old(self).tag_ok_state(
                *final(self),
                name@,
                opt_mask_view(valid_mask),
                bytes_views(values@),
            ),
    {
        let init = self.initial_rows;
        let n = self.to_insert;
        let ghost mv = opt_mask_view(valid_mask);
        let idx = match self.column_mut(name, ColumnType::Tag) {
            Result::Ok(i) => i,
            Result::Err(e) => {
                return Result::Err(e);
            },
        };
        let needed = crate::mask::count_mask_set(valid_mask, n);
        if needed > values.len() {
            return Result::Err(Error::InsufficientValues);
        }
        let ghost mid = *self;
        let ghost snap = self.snapshot@;
        let ghost initi = init as int;
        let ghost ni = n as int;
        let ghost c0 = self.batch.columns@[idx as int];
        proof {
            if has_col(old(self).batch, name@) {
                assert(c0 == old(self).batch.columns@[idx as int]);
                if c0.valid@.len() != initi || data_len(c0.data) != initi {
                    assert(old(self).column_written(name@));
                }
            }
            assert(c0.valid@.len() == initi && data_len(c0.data) == initi);
            crate::mask::lemma_count_set_bounds(mv, ni);
        }
        {
            let col: &mut Column = &mut self.batch.columns[idx];
            match &mut col.data {
                ColumnData::Tag(codes, d, _) => {
                    proof {
                        if (idx as int) < snap.columns@.len() {
                            assert(col_extends(c0, snap.columns@[idx as int], initi, ni));
                        } else {
                            assert(col_fresh(c0, initi, ni));
                        }
                    }
                    tag_fill(codes, d, init, n, valid_mask, values, needed);
                },
                _ => {
                    proof {
                        assert(false);
                    }
                    vstd::pervasive::unreached()
                },
            };
            crate::mask::append_valid_mask(&mut col.valid, valid_mask, n);
        }
        let ghost c1 = self.batch.columns@[idx as int];
        proof {
            assert(tag_data_grown(c1.data, c0.data, initi, ni)) by {
                match (c1.data, c0.data) {
                    (ColumnData::Tag(v1, d1, _), ColumnData::Tag(v0, d0, _)) => {
                        assert forall|r: int|
                            0 <= r < v1@.len() implies (#[trigger] v1@[r] matches Option::Some(c)
                                ==> (c as int) < d1.entries@.len()) by {
                            if r < initi {
                                assert(v1@[r] == v0@[r]);
                            } else {
                                let k2 = r - initi;
                                assert(v1@[initi + k2] == v1@[r]);
                            }
                        }
                    },
                    _ => {},
                }
            }
            assert(valid_after_write(c1.valid@, c0.valid@, initi, ni)) by {
                if c1.valid@ != c0.valid@ {
                    assert(c1.valid@.subrange(0, initi) =~= c0.valid@);
                }
            }
            assert forall|j2: int| 0 <= j2 < snap.columns@.len() implies col_extends(
                #[trigger] self.batch.columns@[j2],
                snap.columns@[j2],
                initi,
                ni,
            ) by {
                if j2 == idx {
                    lemma_tag_col_extends_after_write(c0, c1, snap.columns@[j2], initi, ni);
                } else {
                    assert(self.batch.columns@[j2] == mid.batch.columns@[j2]);
                }
            }
            assert forall|j2: int|
                snap.columns@.len() <= j2 < self.batch.columns@.len() implies col_fresh(
                #[trigger] self.batch.columns@[j2],
                initi,
                ni,
            ) by {
                if j2 == idx {
                    lemma_tag_col_fresh_after_write(c0, c1, initi, ni);
                } else {
                    assert(self.batch.columns@[j2] == mid.batch.columns@[j2]);
                }
            }
            assert forall|a: int, b: int|
                0 <= a < b < self.batch.columns@.len() implies (#[trigger] self.batch.columns@[a]).name@
                != (#[trigger] self.batch.columns@[b]).name@ by {
                assert(mid.batch.columns@[a].name@ != mid.batch.columns@[b].name@);
                assert(self.batch.columns@[a].name@ == mid.batch.columns@[a].name@);
                assert(self.batch.columns@[b].name@ == mid.batch.columns@[b].name@);
            }
        }
        let st = fold_stats_bytes(values, needed, n);
        self.statistics.push((idx, Statistics::Str(st)));
        proof {
            assert forall|k: int| 0 <= k < self.statistics@.len() implies {
                let (ridx, rst) = #[trigger] self.statistics@[k];
                &&& (ridx as int) < self.batch.columns@.len()
                &&& self.batch.columns@[ridx as int].valid@.len() == initi + ni
                &&& stat_matches(rst, self.batch.columns@[ridx as int].influx_type)
                &&& stat_rec_total(rst) == ni
                &&& stat_rec_nulls(rst) <= ni
            } by {
                if k < mid.statistics@.len() {
                    assert(self.statistics@[k] == mid.statistics@[k]);
                    let (ridx, rst) = mid.statistics@[k];
                    assert((ridx as int) < mid.batch.columns@.len());
                    if ridx as int == idx as int {
                        assert(mid.batch.columns@[ridx as int].valid@.len() == initi + ni);
                        assert(ni == 0);
                    } else {
                        assert(self.batch.columns@[ridx as int] == mid.batch.columns@[
                        ridx as int]);
                    }
                } else {
                    assert(self.statistics@[k] == ((idx, Statistics::Str(st))));
                }
            }
            if ni > 0 {
                assert forall|k1: int, k2: int|
                    0 <= k1 < k2 < self.statistics@.len() implies (#[trigger] self.statistics@[k1]).0
                    != (#[trigger] self.statistics@[k2]).0 by {
                    if k2 == self.statistics@.len() - 1 {
                        let (ridx, _) = mid.statistics@[k1];
                        if ridx as int == idx as int {
                            assert(mid.batch.columns@[idx as int].valid@.len() == initi + ni);
                        }
                    }
                }
            }
            assert forall|i: int|
                0 <= i < self.batch.columns@.len() && (
                #[trigger] self.batch.columns@[i]).valid@.len() != initi implies exists|k: int|
                0 <= k < self.statistics@.len() && (#[trigger] self.statistics@[k]).0 == i by {
                if i == idx as int {
                    assert(self.statistics@[self.statistics@.len() - 1].0 == idx);
                } else {
                    assert(self.batch.columns@[i] == mid.batch.columns@[i]);
                    let k = choose|k: int|
                        0 <= k < mid.statistics@.len() && (#[trigger] mid.statistics@[k]).0 == i;
                    assert(self.statistics@[k].0 == i);
                }
            }
            assert(self.wf());
            assert(old(self).tag_ok_state(*self, name@, mv, bytes_views(values@))) by {
                assert(forall|t: int|
                    0 <= t < values@.len() ==> #[trigger] bytes_views(values@)[t]
                        == values@[t]@);
                match c1.data {
                    ColumnData::Tag(codes1, d1, _) => {
                        assert forall|k: int|
                            0 <= k < ni && effective_bit(mv, k) implies (
                        #[trigger] codes1@[initi + k] matches Option::Some(code) && (code as int)
                            < d1.entries@.len() && d1.view_entries()[code as int] == bytes_views(
                        values@)[count_set(mv, k)]) by {
                            assert(count_set(mv, k + 1) == count_set(mv, k) + 1);
                            crate::mask::lemma_count_set_mono(mv, k + 1, ni);
                            crate::mask::lemma_count_set_bounds(mv, k);
                            assert(0 <= count_set(mv, k) < needed);
                            assert(bytes_views(values@)[count_set(mv, k)] == values@[count_set(
                                mv,
                                k,
                            )]@);
                        }
                    },
                    _ => {},
                }
                match c1.data {
                    ColumnData::Tag(_, d1, _) => {
                        assert forall|c2: int|
                            Writer::prior_tag_entries(old(self).batch, name@).len() <= c2
                                < d1.entries@.len() implies among_seqs(
                            bytes_views(values@),
                            count_set(mv, ni),
                            #[trigger] d1.view_entries()[c2],
                        ) by {
                            assert(among_views(values@, needed as int, d1.view_entries()[c2]));
                            let t = choose|t: int|
                                0 <= t < needed && (#[trigger] values@[t])@
                                    == d1.view_entries()[c2];
                            assert(bytes_views(values@)[t] == d1.view_entries()[c2]);
                        }
                    },
                    _ => {},
                }
                assert(c1.valid@ == prior_valid_of(old(self).batch, name@, initi) + Seq::new(
                    ni as nat,
                    |k: int| effective_bit(mv, k),
                )) by {
                    if !has_col(old(self).batch, name@) {
                        assert(c0.valid@ =~= Seq::new(initi as nat, |r: int| false));
                    }
                }
                match (c1.data, c0.data) {
                    (ColumnData::Tag(v1, d1, s1), ColumnData::Tag(v0, d0, s0)) => {
                        assert(v1@.subrange(0, initi) =~= v0@);
                        assert(Writer::prior_tag_entries(old(self).batch, name@) == d0.entries@);
                    },
                    _ => {},
                }
                assert(self.statistics@.subrange(0, mid.statistics@.len() as int)
                    =~= mid.statistics@);
            }
        }
        Result::Ok(())
    }

    /// The contents a dictionary-coded write stores: for each of the first
    /// `upto` consumed keys, the table entry it selects.
    pub open spec fn gathered_views(keys: Seq<usize>, values: Seq<Vec<u8>>, upto: int) -> Seq<
        Seq<u8>,
    > {
        Seq::new(upto as nat, |r: int| (values[keys[r] as int])@)
    }

    /// The semantic type of the column named `name`, if one exists.
    fn existing_type(&self, name: &Vec<u8>) -> (r: Option<ColumnType>)
        requires
            names_distinct(self.batch.columns@),
        ensures
            r matches Option::Some(t) ==> has_col(self.batch, name@) && self.batch.columns@[
                find_col(self.batch, name@)].influx_type == t,
            r matches Option::None ==> !has_col(self.batch, name@),
    {
        let len = self.batch.columns.len();
        let mut i: usize = 0;
        while i < len
            invariant
                names_distinct(self.batch.columns@),
                len == self.batch.columns@.len(),
                i <= len,
                forall|j: int| 0 <= j < i ==> (#[trigger] self.batch.columns@[j]).name@ != name@,
            decreases len - i,
        {
            if crate::dict::bytes_eq(&self.batch.columns[i].name, name) {
                proof {
                    assert(has_col(self.batch, name@));
                    let f = find_col(self.batch, name@);
                    if f != i {
                        assert(self.batch.columns@[f].name@ != self.batch.columns@[i as int].name@);
                    }
                }
                return Option::Some(self.batch.columns[i].influx_type);
            }
            i = i + 1;
        }
        Option::None
    }

    /// Writes the tag column named `name` from dictionary-coded input: each
    /// set position consumes one key into the local `values` table, and the
    /// selected value is resolved through the column's dictionary. The
    /// shared dictionary gains at most one entry per distinct referenced
    /// value and none for unused table entries.
    pub fn write_tag_dict(
        &mut self,
        name: &Vec<u8>,
        valid_mask: Option<&Vec<u8>>,
        keys: &Vec<usize>,
        values: &Vec<Vec<u8>>,
    ) -> (r: Result<(), Error>)
        requires
            old(self).wf(),
            !old(self).column_written(name@),
            valid_mask matches Option::Some(m) ==> old(self).to_insert <= m@.len() * 8,
        ensures
            final(self).wf(),
            final(self).snapshot == old(self).snapshot,
            final(self).initial_rows == old(self).initial_rows,
            final(self).to_insert == old(self).to_insert,
            final(self).batch.row_count == old(self).batch.row_count,
            type_clash(old(self).batch, name@, ColumnType::Tag) ==> r == Result::<(), Error>::Err(
                Error::TypeMismatch {
                    existing: old(self).batch.columns@[find_col(old(self).batch, name@)].influx_type,
                    inserted: ColumnType::Tag,
                },
            ) && *final(self) == *old(self),
            !type_clash(old(self).batch, name@, ColumnType::Tag) && count_set(
                opt_mask_view(valid_mask),
                old(self).to_insert as int,
            ) > keys@.len() ==> r == Result::<(), Error>::Err(Error::InsufficientValues) && *final(self) == *old(self),
            !type_clash(old(self).batch, name@, ColumnType::Tag) && count_set(
                opt_mask_view(valid_mask),
                old(self).to_insert as int,
            ) <= keys@.len() && first_bad_key(
                keys@,
                count_set(opt_mask_view(valid_mask), old(self).to_insert as int),
                values@.len() as int,
            ) >= 0 ==> r == Result::<(), Error>::Err(
                Error::KeyNotFound {
                    key: keys@[first_bad_key(
                        keys@,
                        count_set(opt_mask_view(valid_mask), old(self).to_insert as int),
                        values@.len() as int,
                    )],
                },
            ) && *final(self) == *old(self),
            !type_clash(old(self).batch, name@, ColumnType::Tag) && count_set(
                opt_mask_view(valid_mask),
                old(self).to_insert as int,
            ) <= keys@.len() && first_bad_key(
                keys@,
                count_set(opt_mask_view(valid_mask), old(self).to_insert as int),
                values@.len() as int,
            ) < 0 ==> r is Ok && old(self).tag_ok_state(
                *final(self),
                name@,
                opt_mask_view(valid_mask),
                Writer::gathered_views(
                    keys@,
                    values@,
                    count_set(opt_mask_view(valid_mask), old(self).to_insert as int),
                ),
            ),
    {
        let ghost mv = opt_mask_view(valid_mask);
        let ghost ni = self.to_insert as int;
        match self.existing_type(name) {
            Option::Some(t) => {
                if !matches!(t, ColumnType::Tag) {
                    return Result::Err(
                        Error::TypeMismatch { existing: t, inserted: ColumnType::Tag },
                    );
                }
            },
            Option::None => (),
        }
        let needed = crate::mask::count_mask_set(valid_mask, self.to_insert);
        if needed > keys.len() {
            return Result::Err(Error::InsufficientValues);
        }
        let mut gathered: Vec<Vec<u8>> = Vec::new();
        let mut r: usize = 0;
        while r < needed
            invariant
                *self == *old(self),
                old(self).wf(),
                !type_clash(old(self).batch, name@, ColumnType::Tag),
                ni == old(self).to_insert as int,
                mv == opt_mask_view(valid_mask),
                needed == count_set(mv, ni),
                needed <= keys@.len(),
                r <= needed,
                first_bad_key(keys@, r as int, values@.len() as int) == -1,
                gathered@.len() == r,
                forall|q: int|
                    0 <= q < r ==> (#[trigger] gathered@[q])@ == (values@[keys@[q] as int])@,
            decreases needed - r,
        {
            let key = keys[r];
            if key >= values.len() {
                proof {
                    assert(first_bad_key(keys@, r + 1, values@.len() as int) == r);
                    lemma_first_bad_stable(keys@, r + 1, needed as int, values@.len() as int);
                }
                return Result::Err(Error::KeyNotFound { key });
            }
            gathered.push(crate::dict::dup_bytes(&values[key]));
            proof {
                assert(first_bad_key(keys@, r + 1, values@.len() as int) == -1);
            }
            r = r + 1;
        }
        let res = self.write_tag(name, valid_mask, &gathered);
        proof {
            assert(res is Ok);
            assert(bytes_views(gathered@) =~= Writer::gathered_views(keys@, values@, needed as int));
        }
        res
    }

    /// Resolves `name` to a column position for a write of type `t`:
    /// registers a new all-null column when the name is unknown, or checks
    /// the existing column's type.
    fn column_mut(&mut self, name: &Vec<u8>, t: ColumnType) -> (res: Result<usize, Error>)
        requires
            old(self).wf(),
        ensures
            final(self).wf(),
            final(self).initial_rows == old(self).initial_rows,
            final(self).to_insert == old(self).to_insert,
            final(self).snapshot == old(self).snapshot,
            final(self).statistics == old(self).statistics,
            final(self).batch.row_count == old(self).batch.row_count,
            res is Err <==> type_clash(old(self).batch, name@, t),
            match res {
                Result::Ok(idx) => {
                    &&& idx == target_idx(old(self).batch, name@)
                    &&& idx < final(self).batch.columns@.len()
                    &&& final(self).batch.columns@[idx as int].name@ == name@
                    &&& final(self).batch.columns@[idx as int].influx_type == t
                    &&& has_col(old(self).batch, name@) ==> *final(self) == *old(self)
                    &&& !has_col(old(self).batch, name@) ==> {
                        &&& final(self).batch.columns@.len() == old(self).batch.columns@.len() + 1
                        &&& col_is_all_null(
                            final(self).batch.columns@[idx as int],
                            name@,
                            t,
                            old(self).initial_rows as int,
                        )
                        &&& forall|j: int|
                            0 <= j < old(self).batch.columns@.len()
                                ==> final(self).batch.columns@[j] == old(self).batch.columns@[j]
                    }
                },
                Result::Err(e) => {
                    &&& *final(self) == *old(self)
                    &&& e == (Error::TypeMismatch {
                        existing: old(self).batch.columns@[find_col(old(self).batch, name@)].influx_type,
                        inserted: t,
                    })
                },
            },
    {
        let len = self.batch.columns.len();
        let mut i: usize = 0;
        while i < len
            invariant
                *self == *old(self),
                old(self).wf(),
                len == self.batch.columns@.len(),
                i <= len,
                forall|j: int| 0 <= j < i ==> (#[trigger] self.batch.columns@[j]).name@ != name@,
            decreases len - i,
        {
            if crate::dict::bytes_eq(&self.batch.columns[i].name, name) {
                proof {
                    assert(has_col(self.batch, name@));
                    let f = find_col(self.batch, name@);
                    assert(self.batch.columns@[f].name@ == name@);
                    if f != i {
                        assert(self.batch.columns@[f].name@ != self.batch.columns@[i as int].name@);
                    }
                    assert(f == i);
                }
                let et = self.batch.columns[i].influx_type;
                if et != t {
                    return Result::Err(Error::TypeMismatch { existing: et, inserted: t });
                }
                return Result::Ok(i);
            }
            i = i + 1;
        }
        proof {
            assert(!has_col(self.batch, name@));
        }
        let fresh = Column::new_all_null(crate::dict::dup_bytes(name), t, self.initial_rows);
        self.batch.columns.push(fresh);
        proof {
            let init = self.initial_rows as int;
            let n = self.to_insert as int;
            lemma_all_null_fresh(self.batch.columns@[len as int], name@, t, init, n);
            assert forall|j: int|
                0 <= j < self.snapshot@.columns@.len() implies col_extends(
                #[trigger] self.batch.columns@[j],
                self.snapshot@.columns@[j],
                init,
                n,
            ) by {
                assert(self.batch.columns@[j] == old(self).batch.columns@[j]);
            }
        }
        Result::Ok(len)
    }
}

/// How a write leaves a non-tag store relative to its pre-write value: the
/// same variant, grown to the full transaction length, identical below
/// `init`, cumulative statistics untouched.
pub open spec fn data_same_kind_grown(d1: ColumnData, d0: ColumnData, init: int, n: int) -> bool {
    match (d1, d0) {
        (ColumnData::F64(v1, s1), ColumnData::F64(v0, s0)) => v1@.len() == init + n && (forall|
            p: int,
        |
            0 <= p < init ==> v1@[p] == v0@[p]) && s1 == s0,
        (ColumnData::I64(v1, s1), ColumnData::I64(v0, s0)) => v1@.len() == init + n && (forall|
            p: int,
        |
            0 <= p < init ==> v1@[p] == v0@[p]) && s1 == s0,
        (ColumnData::U64(v1, s1), ColumnData::U64(v0, s0)) => v1@.len() == init + n && (forall|
            p: int,
        |
            0 <= p < init ==> v1@[p] == v0@[p]) && s1 == s0,
        (ColumnData::Bool(v1, s1), ColumnData::Bool(v0, s0)) => v1@.len() == init + n && (forall|
            p: int,
        |
            0 <= p < init ==> v1@[p] == v0@[p]) && s1 == s0,
        (ColumnData::Str(v1, s1), ColumnData::Str(v0, s0)) => v1@.len() == init + n && (forall|
            p: int,
        |
            0 <= p < init ==> v1@[p] == v0@[p]) && s1 == s0,
        _ => false,
    }
}

/// The validity bitmap a write leaves: unchanged, or appended to the full
/// transaction length with its committed prefix intact.
pub open spec fn valid_after_write(v1: Seq<bool>, v0: Seq<bool>, init: int, n: int) -> bool {
    v1 == v0 || (v1.len() == init + n && v1.subrange(0, init) == v0)
}

/// How a write leaves a tag store relative to its pre-write value: grown to
/// the full transaction length, identical below `init`, statistics
/// untouched, the dictionary extended append-only with its new top entry,
/// if any, referenced by some stored code.
pub open spec fn tag_data_grown(dc1: ColumnData, dc0: ColumnData, init: int, n: int) -> bool {
    match (dc1, dc0) {
        (ColumnData::Tag(v1, d1, s1), ColumnData::Tag(v0, d0, s0)) => {
            &&& v1@.len() == init + n
            &&& forall|p: int| 0 <= p < init ==> v1@[p] == v0@[p]
            &&& s1 == s0
            &&& d1.wf()
            &&& d1.entries@.len() >= d0.entries@.len()
            &&& d1.entries@.subrange(0, d0.entries@.len() as int) == d0.entries@
            &&& forall|r: int|
                0 <= r < v1@.len() ==> (#[trigger] v1@[r] matches Option::Some(c) ==> (c as int)
                    < d1.entries@.len())
            &&& (d1.entries@.len() > d0.entries@.len() ==> exists|r: int|
                0 <= r < v1@.len() && v1@[r] == Option::Some((d1.entries@.len() - 1) as usize))
            &&& (n == 0 ==> d1.entries@.len() == d0.entries@.len())
            &&& d1.entries@.len() <= d0.entries@.len() + n
        },
        _ => false,
    }
}

/// A tag write to an untouched pre-existing column preserves the
/// transaction invariant for that column.
pub proof fn lemma_tag_col_extends_after_write(c0: Column, c1: Column, s: Column, init: int, n: int)
    requires
        col_wf(s, init),
        col_extends(c0, s, init, n),
        c0.valid@.len() == init,
        data_len(c0.data) == init,
        c1.name@ == c0.name@,
        c1.influx_type == c0.influx_type,
        tag_data_grown(c1.data, c0.data, init, n),
        valid_after_write(c1.valid@, c0.valid@, init, n),
        0 <= init,
        0 <= n,
    ensures
        col_extends(c1, s, init, n),
{
    assert(c0.valid@.subrange(0, init) =~= c0.valid@);
    if c1.valid@ != c0.valid@ {
        assert(c1.valid@.subrange(0, init) == c0.valid@);
    }
    match (c1.data, c0.data, s.data) {
        (ColumnData::Tag(v1, d1, _), ColumnData::Tag(v0, d0, _), ColumnData::Tag(w, e, _)) => {
            assert(v0@.subrange(0, init) =~= v0@);
            assert(v1@.subrange(0, init) =~= v0@);
            assert(d0.entries@.len() >= e.entries@.len());
            assert forall|p: int|
                0 <= p < e.entries@.len() implies d1.entries@.subrange(0, e.entries@.len() as int)[p]
                == e.entries@[p] by {
                assert(d1.entries@.subrange(0, d0.entries@.len() as int)[p] == d1.entries@[p]);
                assert(d0.entries@.subrange(0, e.entries@.len() as int)[p] == d0.entries@[p]);
            }
            assert(d1.entries@.subrange(0, e.entries@.len() as int) =~= e.entries@);
            if d1.entries@.len() > e.entries@.len() {
                if d1.entries@.len() == d0.entries@.len() {
                    let r = choose|r: int|
                        0 <= r < v0@.len() && v0@[r] == Option::Some(
                            (d0.entries@.len() - 1) as usize,
                        );
                    assert(v1@[r] == v0@[r]);
                }
            }
        },
        _ => {},
    }
}

/// A tag write to an untouched column created in this transaction preserves
/// the fresh-column invariant.
pub proof fn lemma_tag_col_fresh_after_write(c0: Column, c1: Column, init: int, n: int)
    requires
        col_fresh(c0, init, n),
        c0.valid@.len() == init,
        data_len(c0.data) == init,
        c1.name@ == c0.name@,
        c1.influx_type == c0.influx_type,
        tag_data_grown(c1.data, c0.data, init, n),
        valid_after_write(c1.valid@, c0.valid@, init, n),
        0 <= init,
        0 <= n,
    ensures
        col_fresh(c1, init, n),
{
    if c1.valid@ != c0.valid@ {
        assert forall|r: int| 0 <= r < init && r < c1.valid@.len() implies #[trigger] c1.valid@[r]
            == false by {
            assert(c1.valid@.subrange(0, init)[r] == c1.valid@[r]);
        }
    }
    match (c1.data, c0.data) {
        (ColumnData::Tag(v1, d1, _), ColumnData::Tag(v0, d0, _)) => {
            if d1.entries@.len() > 0 && d1.entries@.len() == d0.entries@.len() {
                let r = choose|r: int|
                    0 <= r < v0@.len() && v0@[r] == Option::Some((d0.entries@.len() - 1) as usize);
                assert(v1@[r] == v0@[r]);
            }
        },
        _ => {},
    }
}

/// A write to an untouched pre-existing non-tag column preserves the
/// transaction invariant for that column.
pub proof fn lemma_col_extends_after_write(c0: Column, c1: Column, s: Column, init: int, n: int)
    requires
        col_extends(c0, s, init, n),
        c0.valid@.len() == init,
        data_len(c0.data) == init,
        c1.name@ == c0.name@,
        c1.influx_type == c0.influx_type,
        data_same_kind_grown(c1.data, c0.data, init, n),
        valid_after_write(c1.valid@, c0.valid@, init, n),
        0 <= init,
        0 <= n,
    ensures
        col_extends(c1, s, init, n),
{
    assert(c0.valid@.subrange(0, init) =~= c0.valid@);
    if c1.valid@ != c0.valid@ {
        assert(c1.valid@.subrange(0, init) == c0.valid@);
    }
    match (c1.data, c0.data) {
        (ColumnData::F64(v1, _), ColumnData::F64(v0, _)) => {
            assert(v0@.subrange(0, init) =~= v0@);
            assert(v1@.subrange(0, init) =~= v0@);
        },
        (ColumnData::I64(v1, _), ColumnData::I64(v0, _)) => {
            assert(v0@.subrange(0, init) =~= v0@);
            assert(v1@.subrange(0, init) =~= v0@);
        },
        (ColumnData::U64(v1, _), ColumnData::U64(v0, _)) => {
            assert(v0@.subrange(0, init) =~= v0@);
            assert(v1@.subrange(0, init) =~= v0@);
        },
        (ColumnData::Bool(v1, _), ColumnData::Bool(v0, _)) => {
            assert(v0@.subrange(0, init) =~= v0@);
            assert(v1@.subrange(0, init) =~= v0@);
        },
        (ColumnData::Str(v1, _), ColumnData::Str(v0, _)) => {
            assert(v0@.subrange(0, init) =~= v0@);
            assert(v1@.subrange(0, init) =~= v0@);
        },
        _ => {},
    }
}

/// A write to an untouched column created in this transaction preserves the
/// fresh-column invariant.
pub proof fn lemma_col_fresh_after_write(c0: Column, c1: Column, init: int, n: int)
    requires
        col_fresh(c0, init, n),
        c0.valid@.len() == init,
        data_len(c0.data) == init,
        c1.name@ == c0.name@,
        c1.influx_type == c0.influx_type,
        data_same_kind_grown(c1.data, c0.data, init, n),
        valid_after_write(c1.valid@, c0.valid@, init, n),
        0 <= init,
        0 <= n,
    ensures
        col_fresh(c1, init, n),
{
    if c1.valid@ != c0.valid@ {
        assert forall|r: int| 0 <= r < init && r < c1.valid@.len() implies #[trigger] c1.valid@[r]
            == false by {
            assert(c1.valid@.subrange(0, init)[r] == c1.valid@[r]);
        }
    }
}

/// A committed column over a pre-existing column is well formed at the new
/// row count.
proof fn lemma_commit_col_wf_ext(c: Column, oc: Column, s: Column, init: int, n: int, rec: Statistics)
    requires
        col_wf(s, init),
        col_extends(oc, s, init, n),
        0 <= init,
        0 <= n,
        init + n <= u64::MAX,
        oc.valid@.len() == init ==> col_padded(c, oc, init, n),
        oc.valid@.len() != init ==> col_merged(c, oc, rec, n) && stat_rec_total(rec) == n && 0
            <= stat_rec_nulls(rec) <= n && stat_matches(rec, oc.influx_type),
    ensures
        col_wf(c, init + n),
{
    match (c.data, oc.data, s.data) {
        (ColumnData::Tag(v, d, _), ColumnData::Tag(ov, od, _), ColumnData::Tag(sv, sd, _)) => {
            assert(d.entries@ == od.entries@);
            assert forall|x: int, y: int|
                0 <= x < y < d.entries@.len() implies (#[trigger] d.view_entries()[x]) != (
            #[trigger] d.view_entries()[y]) by {
                assert(od.view_entries()[x] != od.view_entries()[y]);
                assert(d.view_entries()[x] == od.view_entries()[x]);
                assert(d.view_entries()[y] == od.view_entries()[y]);
            }
            assert forall|r: int|
                0 <= r < v@.len() implies (#[trigger] v@[r] matches Option::Some(cd) ==> (
            cd as int) < d.entries@.len()) by {
                if r < ov@.len() {
                    assert(v@[r] == ov@[r]);
                }
            }
            if d.entries@.len() > 0 {
                if od.entries@.len() > sd.entries@.len() {
                    let r = choose|r: int|
                        0 <= r < ov@.len() && ov@[r] == Option::Some(
                            (od.entries@.len() - 1) as usize,
                        );
                    assert(v@[r] == ov@[r]);
                } else {
                    assert(od.entries@.subrange(0, sd.entries@.len() as int) =~= od.entries@);
                    assert(sd.entries@.len() > 0);
                    let r = choose|r: int|
                        0 <= r < sv@.len() && sv@[r] == Option::Some(
                            (sd.entries@.len() - 1) as usize,
                        );
                    assert(ov@.subrange(0, init)[r] == ov@[r]);
                    assert(ov@[r] == sv@[r]);
                    assert(v@[r] == ov@[r]);
                }
            }
        },
        _ => {},
    }
}

/// A committed column over a column created this transaction is well formed
/// at the new row count.
proof fn lemma_commit_col_wf_fresh(c: Column, oc: Column, init: int, n: int, rec: Statistics)
    requires
        col_fresh(oc, init, n),
        0 <= init,
        0 <= n,
        init + n <= u64::MAX,
        oc.valid@.len() == init ==> col_padded(c, oc, init, n),
        oc.valid@.len() != init ==> col_merged(c, oc, rec, n) && stat_rec_total(rec) == n && 0
            <= stat_rec_nulls(rec) <= n && stat_matches(rec, oc.influx_type),
    ensures
        col_wf(c, init + n),
{
    match (c.data, oc.data) {
        (ColumnData::Tag(v, d, _), ColumnData::Tag(ov, od, _)) => {
            assert(d.entries@ == od.entries@);
            assert forall|x: int, y: int|
                0 <= x < y < d.entries@.len() implies (#[trigger] d.view_entries()[x]) != (
            #[trigger] d.view_entries()[y]) by {
                assert(od.view_entries()[x] != od.view_entries()[y]);
                assert(d.view_entries()[x] == od.view_entries()[x]);
                assert(d.view_entries()[y] == od.view_entries()[y]);
            }
            assert forall|r: int|
                0 <= r < v@.len() implies (#[trigger] v@[r] matches Option::Some(cd) ==> (
            cd as int) < d.entries@.len()) by {
                if r < ov@.len() {
                    assert(v@[r] == ov@[r]);
                }
            }
            if d.entries@.len() > 0 {
                let r = choose|r: int|
                    0 <= r < ov@.len() && ov@[r] == Option::Some((od.entries@.len() - 1) as usize);
                assert(v@[r] == ov@[r]);
            }
        },
        _ => {},
    }
}

/// A well-formed column extends itself by nothing.
pub proof fn lemma_col_extends_refl(c: Column, init: int, n: int)
    requires
        col_wf(c, init),
        0 <= init,
        0 <= n,
    ensures
        col_extends(c, c, init, n),
{
    assert(c.valid@.subrange(0, init) =~= c.valid@);
    match c.data {
        ColumnData::F64(v, _) => {
            assert(v@.subrange(0, init) =~= v@);
        },
        ColumnData::I64(v, _) => {
            assert(v@.subrange(0, init) =~= v@);
        },
        ColumnData::U64(v, _) => {
            assert(v@.subrange(0, init) =~= v@);
        },
        ColumnData::Bool(v, _) => {
            assert(v@.subrange(0, init) =~= v@);
        },
        ColumnData::Str(v, _) => {
            assert(v@.subrange(0, init) =~= v@);
        },
        ColumnData::Tag(v, d, _) => {
            assert(v@.subrange(0, init) =~= v@);
            assert(d.entries@.subrange(0, d.entries@.len() as int) =~= d.entries@);
        },
    }
}

/// A column equal in value to a well-formed column is well formed.
pub proof fn lemma_col_eq_wf(a: Column, b: Column, rows: int)
    requires
        col_eq(a, b),
        col_wf(b, rows),
    ensures
        col_wf(a, rows),
{
    match (a.data, b.data) {
        (ColumnData::Tag(v, d, s), ColumnData::Tag(w, e, t)) => {
            assert forall|x: int, y: int|
                0 <= x < y < d.entries@.len() implies (#[trigger] d.view_entries()[x]) != (
            #[trigger] d.view_entries()[y]) by {
                assert(e.view_entries()[x] != e.view_entries()[y]);
                assert(d.view_entries()[x] == e.view_entries()[x]);
                assert(d.view_entries()[y] == e.view_entries()[y]);
            }
        },
        _ => (),
    }
}

} // verus!
