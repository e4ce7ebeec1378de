//! An append-only string-interning dictionary for tag columns: byte strings
//! are mapped to small dense integer codes, assigned in order of first
//! insertion. The only shrink paths are a rollback's `truncate` and `clear`.

use vstd::prelude::*;

verus! {

/// Copies a byte string.
pub fn dup_bytes(v: &Vec<u8>) -> (r: Vec<u8>)
    ensures
        r@ == v@,
{
    let mut r: Vec<u8> = Vec::new();
    let mut i: usize = 0;
    while i < v.len()
        invariant
            i <= v.len(),
            r@ == v@.subrange(0, i as int),
        decreases v.len() - i,
    {
        r.push(v[i]);
        proof {
            assert(r@ =~= v@.subrange(0, i + 1));
        }
        i = i + 1;
    }
    proof {
        assert(r@ =~= v@);
    }
    r
}

/// Whether two byte strings hold the same bytes.
pub fn bytes_eq(a: &Vec<u8>, b: &Vec<u8>) -> (r: bool)
    ensures
        r == (a@ == b@),
{
    if a.len() != b.len() {
        proof {
            assert(a@ != b@);
        }
        return false;
    }
    let mut i: usize = 0;
    while i < a.len()
        invariant
            a@.len() == b@.len(),
            i <= a.len(),
            forall|j: int| 0 <= j < i ==> a@[j] == b@[j],
        decreases a.len() - i,
    {
        if a[i] != b[i] {
            return false;
        }
        i = i + 1;
    }
    proof {
        assert(a@ =~= b@);
    }
    true
}

/// An append-only interning table from byte strings to dense codes
/// `0..entries.len()`; the code of a value is the position of its first
/// insertion.
pub struct Dictionary {
    pub entries: Vec<Vec<u8>>,
}

impl Dictionary {
    /// The interned values, by code.
    pub open spec fn view_entries(self) -> Seq<Seq<u8>> {
        Seq::new(self.entries@.len(), |i: int| self.entries@[i]@)
    }

    /// Well-formed: no value is interned twice.
    pub open spec fn wf(self) -> bool {
        forall|i: int, j: int|
            0 <= i < j < self.entries@.len() ==> (#[trigger] self.view_entries()[i])
                != (#[trigger] self.view_entries()[j])
    }

    /// Whether `v` is already interned.
    pub open spec fn spec_contains(self, v: Seq<u8>) -> bool {
        exists|i: int| 0 <= i < self.entries@.len() && self.view_entries()[i] == v
    }

    pub fn new() -> (d: Dictionary)
        ensures
            d.entries@.len() == 0,
            d.wf(),
    {
        Dictionary { entries: Vec::new() }
    }

    pub fn size(&self) -> (n: usize)
        ensures
            n == self.entries@.len(),
    {
        self.entries.len()
    }

    /// Returns the code of `value`, interning it under the next code if it is
    /// not yet present.
    pub fn lookup_value_or_insert(&mut self, value: &Vec<u8>) -> (code: usize)
        requires
            old(self).wf(),
        ensures
            final(self).wf(),
            code < final(self).entries@.len(),
            final(self).view_entries()[code as int] == value@,
            old(self).spec_contains(value@) ==> *final(self) == *old(self),
            !old(self).spec_contains(value@) ==> {
                &&& code == old(self).entries@.len()
                &&& final(self).entries@.len() == old(self).entries@.len() + 1
                &&& final(self).view_entries() == old(self).view_entries().push(value@)
            },
            final(self).entries@.len() >= old(self).entries@.len(),
            final(self).entries@.subrange(0, old(self).entries@.len() as int) == old(
                self,
            ).entries@,
    {
        let mut i: usize = 0;
        while i < self.entries.len()
            invariant
                *self == *old(self),
                old(self).wf(),
                i <= self.entries@.len(),
                forall|j: int| 0 <= j < i ==> self.view_entries()[j] != value@,
            decreases self.entries@.len() - i,
        {
            if bytes_eq(&self.entries[i], value) {
                proof {
                    assert(self.entries@.subrange(0, self.entries@.len() as int) =~= self.entries@);
                    assert forall|a: int, b: int|
                        0 <= a < b < self.entries@.len() implies self.view_entries()[a]
                        != self.view_entries()[b] by {
                        assert(old(self).view_entries()[a] != old(self).view_entries()[b]);
                    }
                }
                return i;
            }
            i = i + 1;
        }
        proof {
            assert(!old(self).spec_contains(value@));
        }
        let code = self.entries.len();
        let copied = dup_bytes(value);
        self.entries.push(copied);
        proof {
            assert(self.view_entries() =~= old(self).view_entries().push(value@));
            assert forall|a: int, b: int|
                0 <= a < b < self.entries@.len() implies self.view_entries()[a]
                != self.view_entries()[b] by {
                if b < self.entries@.len() - 1 {
                    assert(old(self).view_entries()[a] != old(self).view_entries()[b]);
                }
            }
            assert(self.entries@.subrange(0, old(self).entries@.len() as int) =~= old(
                self,
            ).entries@);
        }
        code
    }

    /// Discards every entry whose code is above `max_code`.
    pub fn truncate(&mut self, max_code: usize)
        requires
            max_code < usize::MAX,
        ensures
            max_code + 1 <= old(self).entries@.len() ==> final(self).entries@ == old(
                self,
            ).entries@.subrange(0, max_code + 1),
            max_code + 1 >= old(self).entries@.len() ==> final(self).entries@ == old(
                self,
            ).entries@,
            old(self).wf() ==> final(self).wf(),
    {
        self.entries.truncate(max_code + 1);
        proof {
            if max_code + 1 >= old(self).entries@.len() {
                assert(self.entries@ =~= old(self).entries@);
            }
            if old(self).wf() {
                assert forall|a: int, b: int|
                    0 <= a < b < self.entries@.len() implies self.view_entries()[a]
                    != self.view_entries()[b] by {
                    assert(self.entries@[a] == old(self).entries@[a]);
                    assert(self.entries@[b] == old(self).entries@[b]);
                    assert(old(self).view_entries()[a] != old(self).view_entries()[b]);
                }
            }
        }
    }

    /// Discards every entry.
    pub fn clear(&mut self)
        ensures
            final(self).entries@.len() == 0,
            final(self).wf(),
    {
        self.entries.clear();
    }
}

} // verus!
