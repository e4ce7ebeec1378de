//! Per-write statistics accumulators: min, max, a total row count and a null
//! count, folded value by value during a write and merged into a column's
//! cumulative aggregate only at commit. String-like columns also carry a
//! distinct-value count, derived from the dictionary size at commit.

use vstd::prelude::*;

verus! {

/// A value type whose statistics track a minimum and a maximum under a total
/// order of the type's own.
pub trait StatOrd: Sized {
    /// The order the minimum and maximum follow.
    spec fn le_spec(&self, other: &Self) -> bool;

    /// Decides the order.
    fn le(&self, other: &Self) -> (r: bool)
        ensures
            r == self.le_spec(other),
    ;
}

impl StatOrd for i64 {
    open spec fn le_spec(&self, other: &Self) -> bool {
        *self <= *other
    }

    fn le(&self, other: &Self) -> (r: bool) {
        *self <= *other
    }
}

impl StatOrd for u64 {
    open spec fn le_spec(&self, other: &Self) -> bool {
        *self <= *other
    }

    fn le(&self, other: &Self) -> (r: bool) {
        *self <= *other
    }
}

impl StatOrd for bool {
    open spec fn le_spec(&self, other: &Self) -> bool {
        !*self || *other
    }

    fn le(&self, other: &Self) -> (r: bool) {
        !*self || *other
    }
}

/// The sign bit of an IEEE-754 double's bit pattern.
pub const F64_SIGN_BIT: u64 = 0x8000_0000_0000_0000;

/// An IEEE-754 double carried as its raw bit pattern, so that a float column
/// can be stored and aggregated without floating-point arithmetic. The order
/// used for min and max is the IEEE-754 total order on the pattern.
#[derive(Clone, Copy, PartialEq, Eq, Structural, Debug)]
pub struct FloatBits {
    pub bits: u64,
}

/// The monotone key mapping a double's bit pattern to the IEEE-754 total
/// order: negative patterns reverse, positive patterns shift above them.
pub open spec fn f64_total_key(bits: u64) -> u64 {
    if bits >= F64_SIGN_BIT {
        !bits
    } else {
        bits ^ F64_SIGN_BIT
    }
}

impl StatOrd for FloatBits {
    open spec fn le_spec(&self, other: &Self) -> bool {
        f64_total_key(self.bits) <= f64_total_key(other.bits)
    }

    fn le(&self, other: &Self) -> (r: bool) {
        let a: u64 = if self.bits >= F64_SIGN_BIT {
            !self.bits
        } else {
            self.bits ^ F64_SIGN_BIT
        };
        let b: u64 = if other.bits >= F64_SIGN_BIT {
            !other.bits
        } else {
            other.bits ^ F64_SIGN_BIT
        };
        a <= b
    }
}

/// A running aggregate over the values of one column write: the least and
/// greatest value seen, how many rows were counted in all, and how many of
/// them were null.
#[derive(Clone, Copy, PartialEq, Eq, Structural, Debug)]
pub struct StatValues<T> {
    pub min: Option<T>,
    pub max: Option<T>,
    pub total_count: u64,
    pub null_count: u64,
}

/// The minimum after folding `value` into `cur`.
pub open spec fn upd_min<T: StatOrd>(cur: Option<T>, value: T) -> Option<T> {
    match cur {
        Option::None => Option::Some(value),
        Option::Some(m) => if value.le_spec(&m) {
            Option::Some(value)
        } else {
            Option::Some(m)
        },
    }
}

/// The maximum after folding `value` into `cur`.
pub open spec fn upd_max<T: StatOrd>(cur: Option<T>, value: T) -> Option<T> {
    match cur {
        Option::None => Option::Some(value),
        Option::Some(m) => if m.le_spec(&value) {
            Option::Some(value)
        } else {
            Option::Some(m)
        },
    }
}

/// The aggregate after folding one non-null `value` into `s`.
pub open spec fn spec_update<T: StatOrd>(s: StatValues<T>, value: T) -> StatValues<T> {
    StatValues {
        min: upd_min(s.min, value),
        max: upd_max(s.max, value),
        total_count: (s.total_count + 1) as u64,
        null_count: s.null_count,
    }
}

/// The aggregate after folding each value of `vals` in turn into `s`.
pub open spec fn spec_update_all<T: StatOrd>(s: StatValues<T>, vals: Seq<T>) -> StatValues<T>
    decreases vals.len(),
{
    if vals.len() == 0 {
        s
    } else {
        spec_update(spec_update_all(s, vals.drop_last()), vals.last())
    }
}

/// Two aggregates of the same type merged: counts add, the extremes combine.
pub open spec fn spec_merge<T: StatOrd>(a: StatValues<T>, b: StatValues<T>) -> StatValues<T> {
    StatValues {
        min: merge_extreme_min(a.min, b.min),
        max: merge_extreme_max(a.max, b.max),
        total_count: (a.total_count + b.total_count) as u64,
        null_count: (a.null_count + b.null_count) as u64,
    }
}

pub open spec fn merge_extreme_min<T: StatOrd>(a: Option<T>, b: Option<T>) -> Option<T> {
    match b {
        Option::None => a,
        Option::Some(v) => upd_min(a, v),
    }
}

pub open spec fn merge_extreme_max<T: StatOrd>(a: Option<T>, b: Option<T>) -> Option<T> {
    match b {
        Option::None => a,
        Option::Some(v) => upd_max(a, v),
    }
}

impl<T: StatOrd + Copy> StatValues<T> {
    /// An aggregate that has seen nothing.
    pub fn new_empty() -> (s: StatValues<T>)
        ensures
            s == (StatValues::<T> {
                min: Option::<T>::None,
                max: Option::<T>::None,
                total_count: 0u64,
                null_count: 0u64,
            }),
    {
        StatValues { min: Option::None, max: Option::None, total_count: 0, null_count: 0 }
    }

    /// An aggregate over `n` rows that are all null.
    pub fn new_all_null(n: u64) -> (s: StatValues<T>)
        ensures
            s == (StatValues::<T> {
                min: Option::<T>::None,
                max: Option::<T>::None,
                total_count: n,
                null_count: n,
            }),
    {
        StatValues { min: Option::None, max: Option::None, total_count: n, null_count: n }
    }

    /// Folds one non-null value in.
    pub fn update(&mut self, value: T)
        requires
            old(self).total_count < u64::MAX,
        ensures
            *final(self) == spec_update(*old(self), value),
    {
        self.min = match self.min {
            Option::None => Option::Some(value),
            Option::Some(m) => if value.le(&m) {
                Option::Some(value)
            } else {
                Option::Some(m)
            },
        };
        self.max = match self.max {
            Option::None => Option::Some(value),
            Option::Some(m) => if m.le(&value) {
                Option::Some(value)
            } else {
                Option::Some(m)
            },
        };
        self.total_count = self.total_count + 1;
    }

    /// Counts `n` further rows as null.
    pub fn update_for_nulls(&mut self, n: u64)
        requires
            old(self).total_count + n <= u64::MAX,
            old(self).null_count + n <= u64::MAX,
        ensures
            *final(self) == (StatValues::<T> {
                min: old(self).min,
                max: old(self).max,
                total_count: (old(self).total_count + n) as u64,
                null_count: (old(self).null_count + n) as u64,
            }),
    {
        self.total_count = self.total_count + n;
        self.null_count = self.null_count + n;
    }

    /// Merges another aggregate of the same type into this one.
    pub fn update_from(&mut self, other: &StatValues<T>)
        requires
            old(self).total_count + other.total_count <= u64::MAX,
            old(self).null_count + other.null_count <= u64::MAX,
        ensures
            *final(self) == spec_merge(*old(self), *other),
    {
        self.min = match other.min {
            Option::None => self.min,
            Option::Some(v) => match self.min {
                Option::None => Option::Some(v),
                Option::Some(m) => if v.le(&m) {
                    Option::Some(v)
                } else {
                    Option::Some(m)
                },
            },
        };
        self.max = match other.max {
            Option::None => self.max,
            Option::Some(v) => match self.max {
                Option::None => Option::Some(v),
                Option::Some(m) => if m.le(&v) {
                    Option::Some(v)
                } else {
                    Option::Some(m)
                },
            },
        };
        self.total_count = self.total_count + other.total_count;
        self.null_count = self.null_count + other.null_count;
    }
}

/// Lexicographic order on byte strings: either the two agree up to a position
/// where the first is smaller, or the first is a prefix of the second.
pub open spec fn bytes_le(a: Seq<u8>, b: Seq<u8>) -> bool {
    ||| (exists|i: int|
        0 <= i < a.len() && i < b.len() && a[i] < b[i] && a.subrange(0, i) == b.subrange(0, i))
    ||| (a.len() <= b.len() && a == b.subrange(0, a.len() as int))
}

/// Decides the lexicographic order on byte strings.
pub fn bytes_le_exec(a: &Vec<u8>, b: &Vec<u8>) -> (r: bool)
    ensures
        r == bytes_le(a@, b@),
{
    let mut i: usize = 0;
    while i < a.len() && i < b.len()
        invariant
            i <= a@.len(),
            i <= b@.len(),
            forall|j: int| 0 <= j < i ==> a@[j] == b@[j],
        decreases a.len() - i,
    {
        if a[i] < b[i] {
            proof {
                assert(a@.subrange(0, i as int) =~= b@.subrange(0, i as int));
            }
            return true;
        }
        if a[i] > b[i] {
            proof {
                assert forall|k: int|
                    0 <= k < a@.len() && k < b@.len() && a@[k] < b@[k] implies a@.subrange(0, k)
                    != b@.subrange(0, k) by {
                    assert(k > i);
                    assert(a@.subrange(0, k)[i as int] == a@[i as int]);
                    assert(b@.subrange(0, k)[i as int] == b@[i as int]);
                }
                if a@.len() <= b@.len() && a@ == b@.subrange(0, a@.len() as int) {
                    assert(a@[i as int] == b@.subrange(0, a@.len() as int)[i as int]);
                }
            }
            return false;
        }
        i = i + 1;
    }
    if a.len() <= b.len() {
        proof {
            assert(a@ =~= b@.subrange(0, a@.len() as int));
        }
        true
    } else {
        proof {
            assert(i == b@.len());
            assert forall|k: int|
                0 <= k < a@.len() && k < b@.len() && a@[k] < b@[k] implies a@.subrange(0, k)
                != b@.subrange(0, k) by {
                assert(a@[k] == b@[k]);
            }
        }
        false
    }
}

/// The view of an optional byte string.
pub open spec fn opt_bytes_view(o: Option<Vec<u8>>) -> Option<Seq<u8>> {
    match o {
        Option::None => Option::<Seq<u8>>::None,
        Option::Some(v) => Option::Some(v@),
    }
}

/// The abstract value of a byte-string aggregate: minimum, maximum, total
/// count and null count.
pub type BytesStatsModel = (Option<Seq<u8>>, Option<Seq<u8>>, int, int);

pub open spec fn upd_min_b(cur: Option<Seq<u8>>, v: Seq<u8>) -> Option<Seq<u8>> {
    match cur {
        Option::None => Option::Some(v),
        Option::Some(m) => if bytes_le(v, m) {
            Option::Some(v)
        } else {
            Option::Some(m)
        },
    }
}

pub open spec fn upd_max_b(cur: Option<Seq<u8>>, v: Seq<u8>) -> Option<Seq<u8>> {
    match cur {
        Option::None => Option::Some(v),
        Option::Some(m) => if bytes_le(m, v) {
            Option::Some(v)
        } else {
            Option::Some(m)
        },
    }
}

/// The model after folding one non-null byte string in.
pub open spec fn bspec_update(m: BytesStatsModel, v: Seq<u8>) -> BytesStatsModel {
    (upd_min_b(m.0, v), upd_max_b(m.1, v), m.2 + 1, m.3)
}

/// The model after folding each of `vals` in turn.
pub open spec fn bspec_update_all(m: BytesStatsModel, vals: Seq<Seq<u8>>) -> BytesStatsModel
    decreases vals.len(),
{
    if vals.len() == 0 {
        m
    } else {
        bspec_update(bspec_update_all(m, vals.drop_last()), vals.last())
    }
}

pub open spec fn merge_extreme_min_b(a: Option<Seq<u8>>, b: Option<Seq<u8>>) -> Option<Seq<u8>> {
    match b {
        Option::None => a,
        Option::Some(v) => upd_min_b(a, v),
    }
}

pub open spec fn merge_extreme_max_b(a: Option<Seq<u8>>, b: Option<Seq<u8>>) -> Option<Seq<u8>> {
    match b {
        Option::None => a,
        Option::Some(v) => upd_max_b(a, v),
    }
}

/// Two byte-string models merged: counts add, the extremes combine.
pub open spec fn bspec_merge(a: BytesStatsModel, b: BytesStatsModel) -> BytesStatsModel {
    (merge_extreme_min_b(a.0, b.0), merge_extreme_max_b(a.1, b.1), a.2 + b.2, a.3 + b.3)
}

/// A running aggregate over byte-string values, for string fields and tags.
/// Beyond the common fields it carries the distinct-value count, set at
/// commit from the dictionary size for tag columns and otherwise unknown.
#[derive(Debug)]
pub struct BytesStatValues {
    pub min: Option<Vec<u8>>,
    pub max: Option<Vec<u8>>,
    pub total_count: u64,
    pub null_count: u64,
    pub distinct_count: Option<u64>,
}

impl BytesStatValues {
    /// The aggregate's abstract value, without the distinct count.
    pub open spec fn model(self) -> BytesStatsModel {
        (
            opt_bytes_view(self.min),
            opt_bytes_view(self.max),
            self.total_count as int,
            self.null_count as int,
        )
    }

    /// An aggregate that has seen nothing.
    pub fn new_empty() -> (s: BytesStatValues)
        ensures
            s.model() == (
                Option::<Seq<u8>>::None,
                Option::<Seq<u8>>::None,
                0int,
                0int,
            ),
            s.distinct_count matches Option::None,
    {
        BytesStatValues {
            min: Option::None,
            max: Option::None,
            total_count: 0,
            null_count: 0,
            distinct_count: Option::None,
        }
    }

    /// An aggregate over `n` rows that are all null.
    pub fn new_all_null(n: u64) -> (s: BytesStatValues)
        ensures
            s.model() == (
                Option::<Seq<u8>>::None,
                Option::<Seq<u8>>::None,
                n as int,
                n as int,
            ),
            s.distinct_count matches Option::None,
    {
        BytesStatValues {
            min: Option::None,
            max: Option::None,
            total_count: n,
            null_count: n,
            distinct_count: Option::None,
        }
    }

    /// Folds one non-null byte string in.
    pub fn update(&mut self, value: &Vec<u8>)
        requires
            old(self).total_count < u64::MAX,
        ensures
            final(self).model() == bspec_update(old(self).model(), value@),
            final(self).distinct_count == old(self).distinct_count,
    {
        let new_min = match &self.min {
            Option::None => true,
            Option::Some(m) => crate::stats::bytes_le_exec(value, m),
        };
        if new_min {
            self.min = Option::Some(crate::dict::dup_bytes(value));
        }
        let new_max = match &self.max {
            Option::None => true,
            Option::Some(m) => crate::stats::bytes_le_exec(m, value),
        };
        if new_max {
            self.max = Option::Some(crate::dict::dup_bytes(value));
        }
        self.total_count = self.total_count + 1;
    }

    /// Counts `n` further rows as null.
    pub fn update_for_nulls(&mut self, n: u64)
        requires
            old(self).total_count + n <= u64::MAX,
            old(self).null_count + n <= u64::MAX,
        ensures
            final(self).model() == (
                old(self).model().0,
                old(self).model().1,
                old(self).model().2 + n,
                old(self).model().3 + n,
            ),
            final(self).distinct_count == old(self).distinct_count,
            final(self).min == old(self).min,
            final(self).max == old(self).max,
    {
        self.total_count = self.total_count + n;
        self.null_count = self.null_count + n;
    }

    /// Merges another aggregate into this one; the distinct count becomes
    /// unknown until commit derives it anew.
    pub fn update_from(&mut self, other: &BytesStatValues)
        requires
            old(self).total_count + other.total_count <= u64::MAX,
            old(self).null_count + other.null_count <= u64::MAX,
        ensures
            final(self).model() == bspec_merge(old(self).model(), other.model()),
            final(self).distinct_count matches Option::None,
    {
        let new_min = match (&self.min, &other.min) {
            (_, Option::None) => false,
            (Option::None, Option::Some(_)) => true,
            (Option::Some(m), Option::Some(v)) => crate::stats::bytes_le_exec(v, m),
        };
        if new_min {
            match &other.min {
                Option::Some(v) => {
                    self.min = Option::Some(crate::dict::dup_bytes(v));
                },
                Option::None => (),
            }
        }
        let new_max = match (&self.max, &other.max) {
            (_, Option::None) => false,
            (Option::None, Option::Some(_)) => true,
            (Option::Some(m), Option::Some(v)) => crate::stats::bytes_le_exec(m, v),
        };
        if new_max {
            match &other.max {
                Option::Some(v) => {
                    self.max = Option::Some(crate::dict::dup_bytes(v));
                },
                Option::None => (),
            }
        }
        self.total_count = self.total_count + other.total_count;
        self.null_count = self.null_count + other.null_count;
        self.distinct_count = Option::None;
    }
}

} // verus!
