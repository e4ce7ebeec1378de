//! Validity masks: a caller-supplied packed bitmap (`&[u8]`, least significant
//! bit first) selecting which of the rows of one append carry a value.
//! `None` stands for a dense write: every row carries a value.

use vstd::prelude::*;

verus! {

/// Bit `i` of the packed little-endian-by-byte mask `m`.
pub open spec fn mask_bit(m: Seq<u8>, i: int) -> bool {
    0 <= i && i / 8 < m.len() && (m[i / 8] >> ((i % 8) as u8)) & 1 == 1
}

/// Bit `i` of an optional mask: a missing mask selects every row.
pub open spec fn effective_bit(m: Option<Seq<u8>>, i: int) -> bool {
    match m {
        Option::None => true,
        Option::Some(s) => mask_bit(s, i),
    }
}

/// The view of an optional borrowed mask.
pub open spec fn opt_mask_view(m: Option<&Vec<u8>>) -> Option<Seq<u8>> {
    match m {
        Option::None => Option::<Seq<u8>>::None,
        Option::Some(v) => Option::Some(v@),
    }
}

/// How many of the bits `0..n` of the optional mask are set: the number of
/// values a write over that mask consumes.
pub open spec fn count_set(m: Option<Seq<u8>>, n: int) -> int
    decreases n,
{
    if n <= 0 {
        0
    } else {
        count_set(m, n - 1) + if effective_bit(m, n - 1) {
            1int
        } else {
            0int
        }
    }
}

pub proof fn lemma_count_set_bounds(m: Option<Seq<u8>>, n: int)
    requires
        0 <= n,
    ensures
        0 <= count_set(m, n) <= n,
    decreases n,
{
    if n > 0 {
        lemma_count_set_bounds(m, n - 1);
    }
}

pub proof fn lemma_count_set_mono(m: Option<Seq<u8>>, a: int, b: int)
    requires
        0 <= a <= b,
    ensures
        count_set(m, a) <= count_set(m, b),
    decreases b,
{
    if a < b {
        lemma_count_set_mono(m, a, b - 1);
    }
}

/// Without a mask every bit counts: a dense write consumes one value per
/// row.
pub proof fn lemma_count_set_dense(n: int)
    requires
        0 <= n,
    ensures
        count_set(Option::<Seq<u8>>::None, n) == n,
    decreases n,
{
    if n > 0 {
        lemma_count_set_dense(n - 1);
    }
}

/// Counts the set bits of the optional mask among positions `0..n`.
pub fn count_mask_set(mask: Option<&Vec<u8>>, n: usize) -> (c: usize)
    requires
        mask matches Option::Some(m) ==> n <= m@.len() * 8,
    ensures
        c == count_set(opt_mask_view(mask), n as int),
{
    let ghost mv = opt_mask_view(mask);
    let mut c: usize = 0;
    let mut k: usize = 0;
    while k < n
        invariant
            k <= n,
            mask matches Option::Some(m) ==> n <= m@.len() * 8,
            mv == opt_mask_view(mask),
            c == count_set(mv, k as int),
        decreases n - k,
    {
        let bit: bool = match mask {
            Option::None => true,
            Option::Some(m) => mask_bit_at(m, k),
        };
        proof {
            lemma_count_set_bounds(mv, k as int);
            assert(count_set(mv, k + 1) == count_set(mv, k as int) + if effective_bit(
                mv,
                k as int,
            ) {
                1int
            } else {
                0int
            });
        }
        if bit {
            c = c + 1;
        }
        k = k + 1;
    }
    c
}

/// Reads bit `i` of the packed mask.
pub fn mask_bit_at(m: &Vec<u8>, i: usize) -> (r: bool)
    requires
        i / 8 < m@.len(),
    ensures
        r == mask_bit(m@, i as int),
{
    let byte: u8 = m[i / 8];
    let off: u8 = (i % 8) as u8;
    (byte >> off) & 1 == 1
}

/// Appends `to_insert` validity bits to `valid`, taken bit-for-bit from
/// `valid_mask`, or all set when no mask is given.
pub fn append_valid_mask(valid: &mut Vec<bool>, valid_mask: Option<&Vec<u8>>, to_insert: usize)
    requires
        valid_mask matches Option::Some(m) ==> to_insert <= m@.len() * 8,
    ensures
        final(valid)@ == old(valid)@ + Seq::new(
            to_insert as nat,
            |i: int| effective_bit(opt_mask_view(valid_mask), i),
        ),
{
    let ghost mv = opt_mask_view(valid_mask);
    let mut k: usize = 0;
    while k < to_insert
        invariant
            k <= to_insert,
            valid_mask matches Option::Some(m) ==> to_insert <= m@.len() * 8,
            mv == opt_mask_view(valid_mask),
            valid@ == old(valid)@ + Seq::new(k as nat, |i: int| effective_bit(mv, i)),
        decreases to_insert - k,
    {
        let bit: bool = match valid_mask {
            Option::None => true,
            Option::Some(m) => mask_bit_at(m, k),
        };
        valid.push(bit);
        proof {
            assert(valid@ =~= old(valid)@ + Seq::new(
                (k + 1) as nat,
                |i: int| effective_bit(mv, i),
            ));
        }
        k = k + 1;
    }
    proof {
        assert(valid@ =~= old(valid)@ + Seq::new(
            to_insert as nat,
            |i: int| effective_bit(mv, i),
        ));
    }
}

/// Writes `values` into `data` at the set positions of the mask, in mask
/// order: position `k` of the append receives the next unconsumed value when
/// bit `k` is set and keeps its default otherwise. Returns the number of
/// values consumed, or `None` when the values run out before the mask is
/// satisfied; in that case the rows filled so far keep their values and the
/// caller's rollback discards them by length.
pub fn fill_masked<T: Copy>(
    data: &mut Vec<T>,
    init: usize,
    n: usize,
    mask: Option<&Vec<u8>>,
    values: &Vec<T>,
) -> (r: Option<usize>)
    requires
        old(data)@.len() == init + n,
        init + n <= usize::MAX,
        mask matches Option::Some(m) ==> n <= m@.len() * 8,
    ensures
        final(data)@.len() == init + n,
        forall|p: int| 0 <= p < init ==> final(data)@[p] == old(data)@[p],
        match r {
            Option::Some(consumed) => {
                &&& consumed == count_set(opt_mask_view(mask), n as int)
                &&& consumed <= values@.len()
                &&& forall|k: int|
                    0 <= k < n && effective_bit(opt_mask_view(mask), k) ==> final(data)@[init + k]
                        == values@[count_set(opt_mask_view(mask), k)]
                &&& forall|k: int|
                    0 <= k < n && !effective_bit(opt_mask_view(mask), k) ==> final(data)@[init + k]
                        == old(data)@[init + k]
            },
            Option::None => count_set(opt_mask_view(mask), n as int) > values@.len(),
        },
{
    let ghost mv = opt_mask_view(mask);
    let mut j: usize = 0;
    let mut k: usize = 0;
    while k < n
        invariant
            k <= n,
            init + n <= usize::MAX,
            mask matches Option::Some(m) ==> n <= m@.len() * 8,
            mv == opt_mask_view(mask),
            j == count_set(mv, k as int),
            j <= values@.len(),
            data@.len() == init + n,
            forall|p: int| 0 <= p < init ==> data@[p] == old(data)@[p],
            forall|p: int|
                0 <= p < k && effective_bit(mv, p) ==> data@[init + p] == values@[count_set(
                    mv,
                    p,
                )],
            forall|p: int|
                0 <= p < k && !effective_bit(mv, p) ==> data@[init + p] == old(data)@[init + p],
            forall|p: int| k <= p < n ==> #[trigger] data@[init + p] == old(data)@[init + p],
        decreases n - k,
    {
        let bit: bool = match mask {
            Option::None => true,
            Option::Some(m) => mask_bit_at(m, k),
        };
        proof {
            assert(count_set(mv, k + 1) == count_set(mv, k as int) + if effective_bit(
                mv,
                k as int,
            ) {
                1int
            } else {
                0int
            });
            lemma_count_set_bounds(mv, k as int);
        }
        if bit {
            if j == values.len() {
                proof {
                    lemma_count_set_mono(mv, k + 1, n as int);
                }
                return Option::None;
            }
            data[init + k] = values[j];
            j = j + 1;
        }
        k = k + 1;
    }
    Option::Some(j)
}

/// [`fill_masked`] for byte-string values, which are copied in.
pub fn fill_masked_bytes(
    data: &mut Vec<Vec<u8>>,
    init: usize,
    n: usize,
    mask: Option<&Vec<u8>>,
    values: &Vec<Vec<u8>>,
) -> (r: Option<usize>)
    requires
        old(data)@.len() == init + n,
        init + n <= usize::MAX,
        mask matches Option::Some(m) ==> n <= m@.len() * 8,
    ensures
        final(data)@.len() == init + n,
        forall|p: int| 0 <= p < init ==> final(data)@[p] == old(data)@[p],
        match r {
            Option::Some(consumed) => {
                &&& consumed == count_set(opt_mask_view(mask), n as int)
                &&& consumed <= values@.len()
                &&& forall|k: int|
                    0 <= k < n && effective_bit(opt_mask_view(mask), k) ==> (#[trigger] final(data)@[init + k])@ == (values@[count_set(opt_mask_view(mask), k)])@
                &&& forall|k: int|
                    0 <= k < n && !effective_bit(opt_mask_view(mask), k) ==> #[trigger] final(data)@[init + k] == old(data)@[init + k]
            },
            Option::None => count_set(opt_mask_view(mask), n as int) > values@.len(),
        },
{
    let ghost mv = opt_mask_view(mask);
    let mut j: usize = 0;
    let mut k: usize = 0;
    while k < n
        invariant
            k <= n,
            init + n <= usize::MAX,
            mask matches Option::Some(m) ==> n <= m@.len() * 8,
            mv == opt_mask_view(mask),
            j == count_set(mv, k as int),
            j <= values@.len(),
            data@.len() == init + n,
            forall|p: int| 0 <= p < init ==> data@[p] == old(data)@[p],
            forall|p: int|
                0 <= p < k && effective_bit(mv, p) ==> (#[trigger] data@[init + p])@ == (
                values@[count_set(mv, p)])@,
            forall|p: int|
                0 <= p < k && !effective_bit(mv, p) ==> #[trigger] data@[init + p] == old(
                    data,
                )@[init + p],
            forall|p: int| k <= p < n ==> #[trigger] data@[init + p] == old(data)@[init + p],
        decreases n - k,
    {
        let bit: bool = match mask {
            Option::None => true,
            Option::Some(m) => mask_bit_at(m, k),
        };
        proof {
            assert(count_set(mv, k + 1) == count_set(mv, k as int) + if effective_bit(
                mv,
                k as int,
            ) {
                1int
            } else {
                0int
            });
            lemma_count_set_bounds(mv, k as int);
        }
        if bit {
            if j == values.len() {
                proof {
                    lemma_count_set_mono(mv, k + 1, n as int);
                }
                return Option::None;
            }
            let copied = crate::dict::dup_bytes(&values[j]);
            data[init + k] = copied;
            j = j + 1;
        }
        k = k + 1;
    }
    Option::Some(j)
}

} // verus!
