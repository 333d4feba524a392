//! Fixed-capacity bit fields and lazy combinations of them.
use crate::bits::{lemma_u64_mask_test, lemma_u64_set_bit, u64_bit};
use vstd::prelude::*;

verus! {

proof fn lemma_u64_zero_bit(j: u64)
    ensures
        !u64_bit(0u64, j),
{
    assert(!((0u64 >> j) & 1u64 == 1u64)) by (bit_vector);
}

/// Number of 64-bit chunks needed for `cap` bits.
pub open spec fn spec_chunks(cap: nat) -> nat {
    cap / 64 + if cap % 64 == 0 { 0nat } else { 1nat }
}

fn chunks_of(cap: usize) -> (r: usize)
    ensures
        r == spec_chunks(cap as nat),
{
    (cap / 64) + if cap % 64 == 0 { 0 } else { 1 }
}

/// Something readable as a capacity and a sequence of 64-bit chunks.
pub trait Fieldlike: Sized {
    /// The capacity, in bits.
    spec fn spec_cap(&self) -> nat;

    /// Whether chunk `id` can be read.
    spec fn chunk_defined(&self, id: int) -> bool;

    /// Chunk `id`.
    spec fn spec_chunk(&self, id: int) -> u64;

    fn cap(&self) -> (r: usize)
        ensures
            r == self.spec_cap(),
    ;

    fn chunk(&self, id: usize) -> (r: u64)
        requires
            self.chunk_defined(id as int),
        ensures
            r == self.spec_chunk(id as int),
    ;

    /// A walk over the set bits, starting at bit zero.
    fn true_iter(&self) -> (it: TrueIter<'_, Self>)
        requires
            self.spec_cap() > 0 ==> self.chunk_defined(0),
        ensures
            it.chunk == (if self.spec_cap() > 0 { Some(self.spec_chunk(0)) } else { None::<u64> }),
            it.maj == 0,
            it.min == 0,
            it.field == self,
    {
        let first = if self.cap() > 0 {
            Some(self.chunk(0))
        } else {
            None
        };
        TrueIter { field: self, chunk: first, maj: 0, min: 0 }
    }
}

/// A field repeating one 64-bit pattern without end (or of capacity zero when the
/// pattern is zero).
pub struct RepField(pub u64);

impl Fieldlike for RepField {
    open spec fn spec_cap(&self) -> nat {
        if self.0 == 0 {
            0
        } else {
            usize::MAX as nat
        }
    }

    open spec fn chunk_defined(&self, id: int) -> bool {
        true
    }

    open spec fn spec_chunk(&self, id: int) -> u64 {
        self.0
    }

    fn cap(&self) -> (r: usize) {
        if self.0 == 0 {
            0
        } else {
            usize::MAX
        }
    }

    fn chunk(&self, _id: usize) -> (r: u64) {
        self.0
    }
}

/// A field of `cap` bits.
pub struct Field {
    cap: usize,
    data: Vec<u64>,
}

impl Field {
    /// The chunks.
    pub closed spec fn chunks(&self) -> Seq<u64> {
        self.data@
    }

    pub closed spec fn capacity(&self) -> nat {
        self.cap as nat
    }

    /// As many chunks as the capacity needs.
    pub closed spec fn wf(&self) -> bool {
        self.data@.len() == spec_chunks(self.cap as nat)
    }

    /// Whether bit `i` is set.
    pub open spec fn has(&self, i: int) -> bool {
        0 <= i < self.capacity() && u64_bit(self.chunks()[i / 64], (i % 64) as u64)
    }

    /// The field of capacity `cap` holding the indices of `it` below `cap`
    /// (the others are ignored).
    pub fn from(cap: usize, it: Vec<usize>) -> (me: Self)
        ensures
            me.wf(),
            me.capacity() == cap,
            forall|i: usize| me.has(i as int) <==> (i < cap && it@.contains(i)),
    {
        let mut me = Self::new(cap);
        let mut k: usize = 0;
        while k < it.len()
            invariant
                me.wf(),
                me.capacity() == cap,
                k <= it@.len(),
                forall|i: usize| me.has(i as int) <==> (i < cap && it@.subrange(0, k as int).contains(i)),
            decreases it@.len() - k,
        {
            let ghost before = it@.subrange(0, k as int);
            let ghost after = it@.subrange(0, k + 1);
            let _ = me.set_to(it[k], true);
            assert forall|i: usize| me.has(i as int) <==> (i < cap && after.contains(i)) by {
                if after.contains(i) && i != it@[k as int] {
                    let w = choose|w: int| 0 <= w < after.len() && after[w] == i;
                    assert(before[w] == i);
                }
                if before.contains(i) {
                    let w = choose|w: int| 0 <= w < before.len() && before[w] == i;
                    assert(after[w] == i);
                }
                if i == it@[k as int] {
                    assert(after[k as int] == i);
                }
            }
            k += 1;
        }
        assert(it@.subrange(0, it@.len() as int) == it@);
        me
    }

    /// Sets bit `idx` to `val`; refused when `idx` is not below the capacity.
    pub fn set_to(&mut self, idx: usize, val: bool) -> (r: Result<(), ()>)
        requires
            old(self).wf(),
        ensures
            final(self).wf(),
            final(self).capacity() == old(self).capacity(),
            r is Err <==> idx >= old(self).capacity(),
            r is Err ==> final(self).chunks() == old(self).chunks(),
            forall|i: int| final(self).has(i) == (if i == idx && r is Ok { val } else { old(self).has(i) }),
    {
        if idx >= self.cap {
            return Err(());
        }
        let maj = idx / 64;
        let min = (idx % 64) as u64;
        let mask: u64 = 1u64 << min;
        let chunk = self.data[maj];
        let new_chunk = if val {
            chunk | mask
        } else {
            chunk & !mask
        };
        self.data.set(maj, new_chunk);
        proof {
            assert forall|i: int| self.has(i) == (if i == idx { val } else { old(self).has(i) }) by {
                if 0 <= i < self.cap {
                    if i / 64 == maj as int {
                        lemma_u64_set_bit(chunk, min, (i % 64) as u64);
                        if i != idx {
                            assert(i % 64 != idx as int % 64);
                        }
                    }
                }
            }
        }
        Ok(())
    }

    /// An empty field of capacity `cap`.
    pub fn new(cap: usize) -> (me: Self)
        ensures
            me.wf(),
            me.capacity() == cap,
            me.chunks() == Seq::new(spec_chunks(cap as nat), |k: int| 0u64),
            forall|i: int| !me.has(i),
    {
        let chunks = chunks_of(cap);
        let mut data: Vec<u64> = Vec::new();
        let mut k: usize = 0;
        while k < chunks
            invariant
                k <= chunks,
                data@ == Seq::new(k as nat, |j: int| 0u64),
            decreases chunks - k,
        {
            data.push(0);
            k += 1;
            assert(data@ =~= Seq::new(k as nat, |j: int| 0u64));
        }
        let me = Self { data, cap };
        assert forall|i: int| !me.has(i) by {
            if 0 <= i < cap {
                assert(me.chunks()[i / 64] == 0u64);
                lemma_u64_zero_bit((i % 64) as u64);
            }
        }
        me
    }
}

impl Fieldlike for Field {
    open spec fn spec_cap(&self) -> nat {
        self.capacity()
    }

    open spec fn chunk_defined(&self, id: int) -> bool {
        0 <= id < self.chunks().len()
    }

    open spec fn spec_chunk(&self, id: int) -> u64 {
        self.chunks()[id]
    }

    fn cap(&self) -> (r: usize) {
        self.cap
    }

    fn chunk(&self, id: usize) -> (r: u64) {
        self.data[id]
    }
}

/// Lazy "or" of two fields, with the capacity of the larger. Chunk `id` is that of the
/// first field when it has chunk `id` and the second has at most one chunk, that of the
/// second when only it qualifies, and the `&` of both when both do.
pub struct Or<'a, 'b, A: Fieldlike, B: Fieldlike>(pub &'a A, pub &'b B);

impl<'a, 'b, A: Fieldlike, B: Fieldlike> Fieldlike for Or<'a, 'b, A, B> {
    open spec fn spec_cap(&self) -> nat {
        if self.0.spec_cap() >= self.1.spec_cap() {
            self.0.spec_cap()
        } else {
            self.1.spec_cap()
        }
    }

    open spec fn chunk_defined(&self, id: int) -> bool {
        let first = spec_chunks(self.0.spec_cap()) > id;
        let second = spec_chunks(self.1.spec_cap()) > 1;
        &&& (first || second)
        &&& (first ==> self.0.chunk_defined(id))
        &&& (second ==> self.1.chunk_defined(id))
    }

    open spec fn spec_chunk(&self, id: int) -> u64 {
        let first = spec_chunks(self.0.spec_cap()) > id;
        let second = spec_chunks(self.1.spec_cap()) > 1;
        if first && second {
            self.0.spec_chunk(id) & self.1.spec_chunk(id)
        } else if first {
            self.0.spec_chunk(id)
        } else {
            self.1.spec_chunk(id)
        }
    }

    fn cap(&self) -> (r: usize) {
        let a = self.0.cap();
        let b = self.1.cap();
        if a >= b {
            a
        } else {
            b
        }
    }

    fn chunk(&self, id: usize) -> (r: u64) {
        let c0 = self.0.cap();
        let c1 = self.1.cap();
        let ch0 = chunks_of(c0);
        let ch1 = chunks_of(c1);
        let first = ch0 > id;
        let second = ch1 > 1;
        if first && second {
            self.0.chunk(id) & self.1.chunk(id)
        } else if first {
            self.0.chunk(id)
        } else {
            self.1.chunk(id)
        }
    }
}

/// Lazy "and" of two fields, with the capacity of the smaller.
pub struct And<'a, 'b, A: Fieldlike, B: Fieldlike>(pub &'a A, pub &'b B);

impl<'a, 'b, A: Fieldlike, B: Fieldlike> Fieldlike for And<'a, 'b, A, B> {
    open spec fn spec_cap(&self) -> nat {
        if self.0.spec_cap() <= self.1.spec_cap() {
            self.0.spec_cap()
        } else {
            self.1.spec_cap()
        }
    }

    open spec fn chunk_defined(&self, id: int) -> bool {
        self.0.chunk_defined(id) && self.1.chunk_defined(id)
    }

    open spec fn spec_chunk(&self, id: int) -> u64 {
        self.0.spec_chunk(id) & self.1.spec_chunk(id)
    }

    fn cap(&self) -> (r: usize) {
        let a = self.0.cap();
        let b = self.1.cap();
        if a <= b {
            a
        } else {
            b
        }
    }

    fn chunk(&self, id: usize) -> (r: u64) {
        self.0.chunk(id) & self.1.chunk(id)
    }
}

/// Lazy complement of a field.
pub struct Not<'a, A: Fieldlike>(pub &'a A);

impl<'a, A: Fieldlike> Fieldlike for Not<'a, A> {
    open spec fn spec_cap(&self) -> nat {
        self.0.spec_cap()
    }

    open spec fn chunk_defined(&self, id: int) -> bool {
        self.0.chunk_defined(id)
    }

    open spec fn spec_chunk(&self, id: int) -> u64 {
        !self.0.spec_chunk(id)
    }

    fn cap(&self) -> (r: usize) {
        self.0.cap()
    }

    fn chunk(&self, id: usize) -> (r: u64) {
        !self.0.chunk(id)
    }
}

/// A walk over the set bits of a field.
pub struct TrueIter<'a, A: Fieldlike> {
    pub field: &'a A,
    pub chunk: Option<u64>,
    pub maj: usize,
    pub min: usize,
}

impl<'a, A: Fieldlike> TrueIter<'a, A> {
    /// The chunk looked at: the stored one, else the field's chunk `maj`.
    pub open spec fn current(&self) -> Option<u64> {
        match self.chunk {
            Some(c) => Some(c),
            None => if self.maj * 64 + self.min >= self.field.spec_cap() {
                None
            } else {
                Some(self.field.spec_chunk(self.maj as int))
            },
        }
    }

    /// The step reports a result (instead of looking at the same bit for ever): the
    /// current position is past the capacity, or its bit is set.
    pub open spec fn reports(&self) -> bool {
        &&& self.min < 64
        &&& self.maj * 64 + self.min <= usize::MAX
        &&& (self.chunk is None && self.maj * 64 + self.min < self.field.spec_cap() ==> self.field.chunk_defined(
            self.maj as int,
        ))
        &&& match self.current() {
            None => true,
            Some(c) => u64_bit(c, self.min as u64),
        }
    }

    /// Reports the current position when its bit is set, or the end when it is past
    /// the capacity. The position does not advance.
    pub fn next(&mut self) -> (r: Option<usize>)
        requires
            old(self).reports(),
        ensures
            *final(self) == *old(self),
            r == (match old(self).current() {
                None => None,
                Some(_) => Some((old(self).maj * 64 + old(self).min) as usize),
            }),
    {
        let chunk = match self.chunk {
            Some(chunk) => chunk,
            None => {
                let idx = self.maj * 64 + self.min;
                if idx >= self.field.cap() {
                    return None;
                }
                self.field.chunk(self.maj)
            },
        };
        let mask: u64 = 1u64 << (self.min as u64);
        proof {
            lemma_u64_mask_test(chunk, self.min as u64);
        }
        if chunk & mask > 0 {
            return Some(self.maj * 64 + self.min);
        }
        assert(false);
        None
    }
}

/// The chunks a field shows when printed: chunk `0` up to the last its capacity needs.
pub fn do_debug<F: Fieldlike>(fieldlike: &F) -> (r: Vec<u64>)
    requires
        forall|i: int| 0 <= i < spec_chunks(fieldlike.spec_cap()) ==> fieldlike.chunk_defined(i),
    ensures
        r@ == Seq::new(spec_chunks(fieldlike.spec_cap()), |i: int| fieldlike.spec_chunk(i)),
{
    let cap = fieldlike.cap();
    let chunks = chunks_of(cap);
    let mut r: Vec<u64> = Vec::new();
    let mut i: usize = 0;
    while i < chunks
        invariant
            chunks == spec_chunks(fieldlike.spec_cap()),
            forall|j: int| 0 <= j < chunks ==> fieldlike.chunk_defined(j),
            i <= chunks,
            r@ == Seq::new(i as nat, |j: int| fieldlike.spec_chunk(j)),
        decreases chunks - i,
    {
        r.push(fieldlike.chunk(i));
        i += 1;
        assert(r@ =~= Seq::new(i as nat, |j: int| fieldlike.spec_chunk(j)));
    }
    r
}

} // verus!
