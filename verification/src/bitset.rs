//! A growable bit set over `usize` chunks.
use crate::bits::{lemma_mask_test, lemma_wbits, lemma_zero_has_no_bits, wbits, word_bit};
use vstd::prelude::*;

verus! {

/// The chunk at index `k` of `s`, where missing chunks read as zero.
pub open spec fn chunk_at(s: Seq<usize>, k: int) -> usize {
    if 0 <= k < s.len() {
        s[k]
    } else {
        0
    }
}

/// Whether bit `i` is set in the chunk sequence `s`.
pub open spec fn seq_has(s: Seq<usize>, i: int) -> bool {
    &&& 0 <= i
    &&& i / wbits() < s.len()
    &&& word_bit(s[i / wbits()], (i % wbits()) as usize)
}

/// A sequence of `n` zero chunks.
pub open spec fn zeros(n: nat) -> Seq<usize> {
    Seq::new(n, |k: int| 0usize)
}

/// `s`, extended with zero chunks up to length `len` (never shortened).
pub open spec fn padded(s: Seq<usize>, len: nat) -> Seq<usize> {
    if s.len() >= len {
        s
    } else {
        s + zeros((len - s.len()) as nat)
    }
}

/// `s` without its trailing zero chunks.
pub open spec fn strip_zeros(s: Seq<usize>) -> Seq<usize>
    decreases s.len(),
{
    if s.len() > 0 && s.last() == 0 {
        strip_zeros(s.drop_last())
    } else {
        s
    }
}

/// Number of chunks needed to hold `cap` bits.
pub open spec fn chunks_for(cap: nat) -> nat {
    if cap % (wbits() as nat) == 0 {
        cap / (wbits() as nat)
    } else {
        cap / (wbits() as nat) + 1
    }
}

/// The chunks after setting bit `idx` to `val` in `s`: setting a bit past the end
/// grows the sequence with zero chunks, clearing a bit past the end changes nothing.
pub open spec fn set_chunks(s: Seq<usize>, idx: usize, val: bool) -> Seq<usize> {
    let c = idx as int / wbits();
    let mask = 1usize << ((idx as int % wbits()) as usize);
    if !val && c >= s.len() {
        s
    } else {
        let p = padded(s, (c + 1) as nat);
        p.update(c, if val { p[c] | mask } else { p[c] & !mask })
    }
}

/// The chunks of a set built by setting, in order, every index of `items`.
pub open spec fn chunks_of_items(items: Seq<usize>) -> Seq<usize>
    decreases items.len(),
{
    if items.len() == 0 {
        Seq::empty()
    } else {
        set_chunks(chunks_of_items(items.drop_last()), items.last(), true)
    }
}

/// Chunk-wise intersection of `a` with the *first* chunk of `b`, the sequence
/// of chunks that an [`AndIter`] walks.
pub open spec fn and_source(a: Seq<usize>, b: Seq<usize>) -> Seq<usize> {
    if b.len() > 0 {
        Seq::new(a.len(), |k: int| a[k] & b[0])
    } else {
        Seq::empty()
    }
}

/// Chunk-wise `|` over the common prefix of `a` and `b`, then (when `b` is the longer)
/// followed by all of `b`'s chunks.
pub open spec fn or_chunks(a: Seq<usize>, b: Seq<usize>) -> Seq<usize> {
    let zipped = Seq::new(a.len(), |k: int| if k < b.len() { a[k] | b[k] } else { a[k] });
    if b.len() > a.len() {
        zipped + b
    } else {
        zipped
    }
}

/// Chunk-wise `& !` over the common prefix of `a` and `b`.
pub open spec fn difference_chunks(a: Seq<usize>, b: Seq<usize>) -> Seq<usize> {
    Seq::new(a.len(), |k: int| if k < b.len() { a[k] & !b[k] } else { a[k] })
}

/// Stripping trailing zero chunks keeps every bit, never lengthens, and leaves no zero
/// chunk at the end.
pub proof fn law_strip_keeps_bits(s: Seq<usize>)
    ensures
        forall|i: int| #[trigger] seq_has(strip_zeros(s), i) == seq_has(s, i),
        strip_zeros(s).len() > 0 ==> strip_zeros(s).last() != 0,
        strip_zeros(s).len() <= s.len(),
    decreases s.len(),
{
    if s.len() > 0 && s.last() == 0 {
        law_strip_keeps_bits(s.drop_last());
        lemma_wbits();
        assert forall|i: int| #[trigger] seq_has(s.drop_last(), i) == seq_has(s, i) by {
            if 0 <= i && i / wbits() == s.len() - 1 {
                lemma_index_split(i);
                lemma_zero_has_no_bits((i % wbits()) as usize);
            }
        }
    }
}

/// Padding with zero chunks keeps every bit and reaches at least the asked length.
pub proof fn law_pad_keeps_bits(s: Seq<usize>, len: nat)
    ensures
        forall|i: int| #[trigger] seq_has(padded(s, len), i) == seq_has(s, i),
        padded(s, len).len() == (if s.len() >= len { s.len() } else { len }),
{
    lemma_wbits();
    assert forall|i: int| #[trigger] seq_has(padded(s, len), i) == seq_has(s, i) by {
        if 0 <= i && s.len() <= i / wbits() < len {
            lemma_index_split(i);
            lemma_zero_has_no_bits((i % wbits()) as usize);
        }
    }
}

/// Stripping undoes padding: a padded set strips to what the set itself strips to.
pub proof fn law_strip_undoes_pad(s: Seq<usize>, len: nat)
    ensures
        strip_zeros(padded(s, len)) == strip_zeros(s),
    decreases len,
{
    if s.len() < len {
        let p = padded(s, len);
        assert(p.last() == 0);
        assert(p.drop_last() =~= padded(s, (len - 1) as nat));
        law_strip_undoes_pad(s, (len - 1) as nat);
    }
}

pub proof fn lemma_div_mod_w(q: int, r: int)
    requires
        q >= 0,
        0 <= r < wbits(),
    ensures
        (q * wbits() + r) / wbits() == q,
        (q * wbits() + r) % wbits() == r,
{
    if usize::BITS == 32 {
        assert((q * 32 + r) / 32 == q && (q * 32 + r) % 32 == r) by (nonlinear_arith)
            requires
                q >= 0,
                0 <= r < 32,
        ;
    } else {
        assert((q * 64 + r) / 64 == q && (q * 64 + r) % 64 == r) by (nonlinear_arith)
            requires
                q >= 0,
                0 <= r < 64,
        ;
    }
}

pub proof fn lemma_index_split(i: int)
    requires
        i >= 0,
    ensures
        i == (i / wbits()) * wbits() + i % wbits(),
        0 <= i % wbits() < wbits(),
        i / wbits() >= 0,
{
    if usize::BITS == 32 {
        assert(i == (i / 32) * 32 + i % 32 && 0 <= i % 32 < 32 && i / 32 >= 0) by (nonlinear_arith)
            requires
                i >= 0,
        ;
    } else {
        assert(i == (i / 64) * 64 + i % 64 && 0 <= i % 64 < 64 && i / 64 >= 0) by (nonlinear_arith)
            requires
                i >= 0,
        ;
    }
}

/// Positions inside a chunk sequence whose bit count fits in a word do not overflow.
pub proof fn lemma_pos_fits(maj: int, min: int, len: int)
    requires
        0 <= maj <= len,
        0 <= min <= wbits(),
        maj == len ==> min == 0,
        len * wbits() + wbits() <= usize::MAX,
    ensures
        maj * wbits() + min <= usize::MAX,
        maj * wbits() + min <= len * wbits(),
{
    assert(maj * wbits() + min <= len * wbits()) by (nonlinear_arith)
        requires
            0 <= maj <= len,
            0 <= min <= wbits(),
            maj == len ==> min == 0,
    ;
}

/// Bit `min` of chunk `maj` is the bit at index `maj * wbits() + min`.
pub proof fn lemma_bit_at(s: Seq<usize>, maj: int, min: int)
    requires
        0 <= maj < s.len(),
        0 <= min < wbits(),
    ensures
        seq_has(s, maj * wbits() + min) == word_bit(s[maj], min as usize),
{
    lemma_div_mod_w(maj, min);
}

/// No bit is set at or beyond `s.len() * wbits()`.
pub proof fn lemma_beyond(s: Seq<usize>, k: int)
    requires
        k >= s.len() * wbits(),
    ensures
        !seq_has(s, k),
{
    if k >= 0 && k / wbits() < s.len() {
        lemma_index_split(k);
        let q = k / wbits();
        assert(q * wbits() + wbits() <= s.len() * wbits()) by (nonlinear_arith)
            requires
                0 <= q < s.len(),
                wbits() > 0,
        ;
    }
}

/// Number of bits held by one chunk.
fn bits_per_chunk() -> (r: usize)
    ensures
        r == wbits(),
{
    usize::BITS as usize
}

/// Growable set of small integers. Bit `i` lives in chunk `i / wbits()` at position `i % wbits()`.
#[derive(Clone)]
pub struct BitSet {
    pub data: Vec<usize>,
}

impl View for BitSet {
    type V = Seq<usize>;

    open spec fn view(&self) -> Seq<usize> {
        self.data@
    }
}

impl Default for BitSet {
    fn default() -> (r: Self)
        ensures
            r@ == Seq::<usize>::empty(),
    {
        BitSet { data: Vec::new() }
    }
}

pub struct SparseIter<'a> {
    a: &'a BitSet,
    n: Option<usize>,
    maj: usize,
    min: usize,
}

impl<'a> SparseIter<'a> {
    /// The chunks being walked.
    pub closed spec fn source(&self) -> Seq<usize> {
        self.a@
    }

    /// The first index not yet considered.
    pub closed spec fn pos(&self) -> int {
        self.maj * wbits() + self.min
    }

    pub closed spec fn wf(&self) -> bool {
        &&& self.a@.len() * wbits() + wbits() <= usize::MAX
        &&& self.maj <= self.a@.len()
        &&& self.min <= wbits()
        &&& self.n == (if self.maj < self.a@.len() {
            Some(self.a@[self.maj as int])
        } else {
            None
        })
        &&& (self.maj == self.a@.len() ==> self.min == 0)
    }

    /// Yields the next set index at or after the current position, in increasing order.
    pub fn next(&mut self) -> (r: Option<usize>)
        requires
            old(self).wf(),
        ensures
            final(self).wf(),
            final(self).source() == old(self).source(),
            r matches Some(i) ==> {
                &&& old(self).pos() <= i
                &&& seq_has(old(self).source(), i as int)
                &&& forall|k: int| old(self).pos() <= k < i ==> !seq_has(old(self).source(), k)
                &&& final(self).pos() == i + 1
            },
            r is None ==> forall|k: int| k >= old(self).pos() ==> !seq_has(old(self).source(), k),
    {
        let ghost start = self.pos();
        let ghost src = self.a@;
        assert(start == old(self).pos());
        assert(src == old(self).source());
        loop
            invariant
                self.wf(),
                self.a@ == src,
                self.source() == old(self).source(),
                start == old(self).pos(),
                src == old(self).source(),
                start <= self.pos(),
                forall|k: int| start <= k < self.pos() ==> !seq_has(src, k),
            decreases self.a@.len() - self.maj, wbits() - self.min,
        {
            proof {
                lemma_wbits();
                lemma_pos_fits(self.maj as int, self.min as int, src.len() as int);
            }
            if self.min == bits_per_chunk() {
                self.min = 0;
                self.maj += 1;
                self.n = self.a.data.get(self.maj).cloned();
            }
            match self.n {
                Some(x) => {
                    proof {
                        lemma_mask_test(x, self.min);
                        lemma_bit_at(src, self.maj as int, self.min as int);
                        lemma_pos_fits(self.maj as int, self.min as int, src.len() as int);
                    }
                    let val = (1usize << self.min) & x;
                    self.min += 1;
                    if val != 0 {
                        assert(seq_has(src, self.pos() - 1));
                        assert(forall|k: int| start <= k < self.pos() - 1 ==> !seq_has(src, k));
                        return Some(self.maj * bits_per_chunk() + (self.min - 1));
                    }
                },
                None => {
                    proof {
                        assert forall|k: int| k >= start implies !seq_has(src, k) by {
                            if k >= self.pos() {
                                lemma_beyond(src, k);
                            }
                        }
                    }
                    return None;
                },
            }
        }
    }
}

pub struct AndIter<'a, 'b> {
    a: &'a BitSet,
    b: &'b BitSet,
    n: Option<usize>,
    maj: usize,
    min: usize,
}

impl<'a, 'b> AndIter<'a, 'b> {
    /// The chunks being walked: each chunk of `a` masked by the first chunk of `b`.
    pub closed spec fn source(&self) -> Seq<usize> {
        and_source(self.a@, self.b@)
    }

    /// The first index not yet considered.
    pub closed spec fn pos(&self) -> int {
        self.maj * wbits() + self.min
    }

    pub closed spec fn wf(&self) -> bool {
        &&& self.a@.len() * wbits() + wbits() <= usize::MAX
        &&& self.maj <= self.source().len()
        &&& self.min <= wbits()
        &&& self.n == (if self.maj < self.source().len() {
            Some(self.source()[self.maj as int])
        } else {
            None
        })
        &&& (self.maj == self.source().len() ==> self.min == 0)
    }

    /// Chunk `chunk_idx` of `a`, masked by chunk `0` of `b`, when both exist.
    fn fetch_chunk(a: &BitSet, b: &BitSet, chunk_idx: usize) -> (r: Option<usize>)
        ensures
            r == (if chunk_idx < and_source(a@, b@).len() {
                Some(and_source(a@, b@)[chunk_idx as int])
            } else {
                None
            }),
    {
        match a.data.get(chunk_idx) {
            Some(x) => match b.data.get(0) {
                Some(y) => Some(*x & *y),
                None => None,
            },
            None => None,
        }
    }

    /// Yields one more than the next set index (at or after the current position)
    /// of the walked chunks, in increasing order.
    pub fn next(&mut self) -> (r: Option<usize>)
        requires
            old(self).wf(),
        ensures
            final(self).wf(),
            final(self).source() == old(self).source(),
            r matches Some(i) ==> {
                &&& old(self).pos() < i
                &&& seq_has(old(self).source(), i - 1)
                &&& forall|k: int| old(self).pos() <= k < i - 1 ==> !seq_has(old(self).source(), k)
                &&& final(self).pos() == i
            },
            r is None ==> forall|k: int| k >= old(self).pos() ==> !seq_has(old(self).source(), k),
    {
        let ghost start = self.pos();
        let ghost src = self.source();
        loop
            invariant
                self.wf(),
                self.source() == src,
                src == old(self).source(),
                start == old(self).pos(),
                src == old(self).source(),
                start <= self.pos(),
                forall|k: int| start <= k < self.pos() ==> !seq_has(src, k),
            decreases self.source().len() - self.maj, wbits() - self.min,
        {
            proof {
                lemma_wbits();
                lemma_pos_fits(self.maj as int, self.min as int, src.len() as int);
            }
            if self.min == bits_per_chunk() {
                self.min = 0;
                self.maj += 1;
                self.n = Self::fetch_chunk(self.a, self.b, self.maj);
            }
            match self.n {
                Some(x) => {
                    proof {
                        lemma_mask_test(x, self.min);
                        lemma_bit_at(src, self.maj as int, self.min as int);
                        lemma_pos_fits(self.maj as int, self.min as int, src.len() as int);
                    }
                    let val = (1usize << self.min) & x;
                    self.min += 1;
                    if val != 0 {
                        return Some(self.maj * bits_per_chunk() + self.min);
                    }
                },
                None => {
                    proof {
                        assert forall|k: int| k >= start implies !seq_has(src, k) by {
                            if k >= self.pos() {
                                lemma_beyond(src, k);
                            }
                        }
                    }
                    return None;
                },
            }
        }
    }
}

/// `len` chunks are exactly enough to hold every index of `t`.
pub open spec fn len_covers(t: Set<usize>, len: nat) -> bool {
    &&& forall|i: usize| #[trigger] t.contains(i) ==> (i as int) / wbits() < len
    &&& len > 0 ==> exists|i: usize| #[trigger] t.contains(i) && (i as int) / wbits() == len - 1
}

/// The set bits of `s` are exactly the members of `set`.
pub open spec fn bits_match(s: Seq<usize>, set: Set<usize>) -> bool {
    &&& forall|i: usize| #[trigger] seq_has(s, i as int) == set.contains(i)
    &&& forall|i: int| #[trigger] seq_has(s, i) ==> 0 <= i <= usize::MAX
}

/// Chunk count after padding to capacity `c`, when the set bits were (at some point) at the
/// indices in `t`, all at most `c`.
pub open spec fn final_len(t: Set<usize>, c: usize) -> nat {
    if t.contains(c) && (c as int) % wbits() == 0 {
        (c as int / wbits() + 1) as nat
    } else {
        chunks_for(c as nat)
    }
}

/// Setting bit `idx` to `val` keeps the bits, and the chunk count, described by the
/// updated set and the updated set of touched indices.
pub proof fn lemma_track_set(s: Seq<usize>, set: Set<usize>, t: Set<usize>, idx: usize, val: bool)
    requires
        bits_match(s, set),
        len_covers(t, s.len()),
        set.subset_of(t),
    ensures
        bits_match(set_chunks(s, idx, val), if val { set.insert(idx) } else { set.remove(idx) }),
        len_covers(if val { t.insert(idx) } else { t }, set_chunks(s, idx, val).len()),
        (if val { set.insert(idx) } else { set.remove(idx) }).subset_of(if val { t.insert(idx) } else { t }),
{
    lemma_wbits();
    lemma_set_chunks_bits(s, idx, val);
    let n = set_chunks(s, idx, val);
    let nset = if val { set.insert(idx) } else { set.remove(idx) };
    let nt = if val { t.insert(idx) } else { t };
    assert forall|i: usize| #[trigger] seq_has(n, i as int) == nset.contains(i) by {
        assert(seq_has(n, i as int) == (if i as int == idx as int { val } else { seq_has(s, i as int) }));
    }
    assert forall|i: int| #[trigger] seq_has(n, i) implies 0 <= i <= usize::MAX by {
        assert(seq_has(n, i) == (if i == idx as int { val } else { seq_has(s, i) }));
    }
    lemma_index_split(idx as int);
    if val {
        assert forall|i: usize| #[trigger] nt.contains(i) implies (i as int) / wbits() < n.len() by {
            if i != idx {
                assert(t.contains(i));
            }
        }
        if s.len() >= idx as int / wbits() + 1 {
            let w = choose|w: usize| #[trigger] t.contains(w) && (w as int) / wbits() == s.len() - 1;
            assert(nt.contains(w));
        } else {
            assert(nt.contains(idx));
        }
    } else {
        if n.len() > 0 {
            let w = choose|w: usize| #[trigger] t.contains(w) && (w as int) / wbits() == s.len() - 1;
            assert(nt.contains(w));
        }
    }
}

/// Padding to capacity `c` yields [`final_len`] chunks.
pub proof fn lemma_pad_len(t: Set<usize>, len: nat, c: usize)
    requires
        len_covers(t, len),
        forall|i: usize| #[trigger] t.contains(i) ==> i <= c,
    ensures
        padded(zeros(len), chunks_for(c as nat)).len() == final_len(t, c),
{
    lemma_wbits();
    lemma_index_split(c as int);
    if len > 0 {
        let w = choose|w: usize| #[trigger] t.contains(w) && (w as int) / wbits() == len - 1;
        assert(w <= c);
        lemma_div_monotone(w as int, c as int);
        if t.contains(c) && (c as int) % wbits() == 0 {
            assert((c as int) / wbits() < len);
        } else if (c as int) % wbits() == 0 {
            if (w as int) / wbits() == (c as int) / wbits() {
                lemma_index_split(w as int);
                assert(w == c);
            }
        }
    } else {
        if t.contains(c) {
            assert((c as int) / wbits() < len);
        }
    }
}

/// Integer division by the word size is monotone.
pub proof fn lemma_div_monotone(a: int, b: int)
    requires
        0 <= a <= b,
    ensures
        a / wbits() <= b / wbits(),
{
    lemma_wbits();
    if usize::BITS == 32 {
        assert(a / 32 <= b / 32) by (nonlinear_arith)
            requires
                0 <= a <= b,
        ;
    } else {
        assert(a / 64 <= b / 64) by (nonlinear_arith)
            requires
                0 <= a <= b,
        ;
    }
}

impl BitSet {
    /// Whether bit `i` is set.
    pub open spec fn has(&self, i: int) -> bool {
        seq_has(self@, i)
    }

    /// The set holding exactly the given indices.
    pub fn from_set_iter(it: Vec<usize>) -> (me: Self)
        ensures
            me@ == chunks_of_items(it@),
            forall|i: usize| me.has(i as int) <==> it@.contains(i),
            bits_match(me@, it@.to_set()),
            len_covers(it@.to_set(), me@.len()),
    {
        let mut me = BitSet::default();
        let mut k: usize = 0;
        assert(it@.subrange(0, 0).to_set() =~= Set::<usize>::empty());
        while k < it.len()
            invariant
                k <= it@.len(),
                me@ == chunks_of_items(it@.subrange(0, k as int)),
                forall|i: usize| me.has(i as int) <==> it@.subrange(0, k as int).contains(i),
                bits_match(me@, it@.subrange(0, k as int).to_set()),
                len_covers(it@.subrange(0, k as int).to_set(), me@.len()),
            decreases it@.len() - k,
        {
            let ghost before = it@.subrange(0, k as int);
            let ghost after = it@.subrange(0, k + 1);
            assert(after.drop_last() == before);
            assert(after.last() == it@[k as int]);
            proof {
                lemma_track_set(me@, before.to_set(), before.to_set(), it@[k as int], true);
                assert(before.to_set().insert(it@[k as int]) =~= after.to_set()) by {
                    assert forall|x: usize| after.to_set().contains(x) implies before.to_set().insert(it@[k as int]).contains(x) by {
                        let w = choose|w: int| 0 <= w < after.len() && after[w] == x;
                        if w < k {
                            assert(before[w] == x);
                        }
                    }
                    assert forall|x: usize| before.to_set().insert(it@[k as int]).contains(x) implies after.to_set().contains(x) by {
                        if x == it@[k as int] {
                            assert(after[k as int] == x);
                        } else {
                            let w = choose|w: int| 0 <= w < before.len() && before[w] == x;
                            assert(after[w] == x);
                        }
                    }
                }
            }
            me.set_to(it[k], true);
            assert forall|i: usize| me.has(i as int) <==> after.contains(i) by {
                if after.contains(i) && i != it@[k as int] {
                    let w = choose|w: int| 0 <= w < after.len() && after[w] == i;
                    assert(w < k);
                    assert(before[w] == i);
                }
                if before.contains(i) {
                    let w = choose|w: int| 0 <= w < before.len() && before[w] == i;
                    assert(after[w] == i);
                }
                if i == it@[k as int] {
                    assert(after[k as int] == i);
                }
            }
            k += 1;
        }
        assert(it@.subrange(0, it@.len() as int) == it@);
        me
    }

    /// The set with the given chunks, trailing zero chunks removed.
    pub fn from_chunks(it: Vec<usize>) -> (me: Self)
        ensures
            me@ == strip_zeros(it@),
    {
        let mut me = Self { data: it };
        me.strip_trailing_zeroes();
        me
    }

    /// Chunk `vec_idx`, reading missing chunks as zero.
    pub fn get_chunk(&self, vec_idx: usize) -> (r: usize)
        ensures
            r == chunk_at(self@, vec_idx as int),
    {
        match self.data.get(vec_idx) {
            Some(x) => *x,
            None => 0,
        }
    }

    /// The chunks, in order.
    pub fn iter_chunks(&self) -> (r: Vec<usize>)
        ensures
            r@ == self@,
    {
        let mut r: Vec<usize> = Vec::new();
        let mut k: usize = 0;
        while k < self.data.len()
            invariant
                k <= self@.len(),
                r@ == self@.subrange(0, k as int),
            decreases self@.len() - k,
        {
            r.push(self.data[k]);
            k += 1;
        }
        r
    }

    /// Iterator over the set indices, in increasing order.
    pub fn iter_sparse(&self) -> (it: SparseIter<'_>)
        requires
            self@.len() * wbits() + wbits() <= usize::MAX,
        ensures
            it.wf(),
            it.source() == self@,
            it.pos() == 0,
    {
        SparseIter { a: self, n: self.data.get(0).cloned(), maj: 0, min: 0 }
    }

    /// Whether every chunk is zero.
    pub fn is_empty(&self) -> (r: bool)
        ensures
            r == (forall|k: int| 0 <= k < self@.len() ==> self@[k] == 0),
    {
        let mut k: usize = 0;
        while k < self.data.len()
            invariant
                k <= self@.len(),
                forall|j: int| 0 <= j < k ==> self@[j] == 0,
            decreases self@.len() - k,
        {
            if self.data[k] != 0 {
                return false;
            }
            k += 1;
        }
        true
    }

    /// Iterator over one more than each index set both in this set's chunks and in
    /// `other`'s first chunk.
    pub fn iter_and<'a, 'b: 'a>(&'a self, other: &'b Self) -> (it: AndIter<'a, 'b>)
        requires
            self@.len() * wbits() + wbits() <= usize::MAX,
        ensures
            it.wf(),
            it.source() == and_source(self@, other@),
            it.pos() == 0,
    {
        AndIter { a: self, b: other, n: AndIter::fetch_chunk(self, other, 0), maj: 0, min: 0 }
    }

    /// The set whose only chunk is `chunk` (no chunk at all when it is zero).
    pub fn from_chunk(chunk: usize) -> (me: Self)
        ensures
            me@ == (if chunk == 0 { Seq::<usize>::empty() } else { seq![chunk] }),
    {
        if chunk == 0 {
            Self { data: Vec::new() }
        } else {
            let mut data = Vec::new();
            data.push(chunk);
            Self { data }
        }
    }

    /// The chunks.
    pub fn into_usizes(self) -> (r: Vec<usize>)
        ensures
            r@ == self@,
    {
        self.data
    }

    /// An empty set with zero chunks enough for `min_capacity` bits.
    pub fn with_capacity(min_capacity: usize) -> (me: Self)
        ensures
            me@ == zeros(chunks_for(min_capacity as nat)),
    {
        let chunks = Self::len_needed_for_capacity(min_capacity);
        let mut data: Vec<usize> = Vec::new();
        let mut k: usize = 0;
        while k < chunks
            invariant
                k <= chunks,
                data@ == zeros(k as nat),
            decreases chunks - k,
        {
            data.push(0);
            k += 1;
            assert(data@ == zeros(k as nat));
        }
        Self { data }
    }

    /// Number of bits the allocated chunks can hold without reallocating
    /// (saturating at `usize::MAX`).
    pub fn capacity(&self) -> (r: usize)
        ensures
            exists|c: int| c >= self@.len() && r == #[trigger] saturating_bits(c),
            r >= self@.len() * wbits() || r == usize::MAX,
    {
        let c = vec_capacity(&self.data);
        let r = match c.checked_mul(bits_per_chunk()) {
            Some(x) => x,
            None => usize::MAX,
        };
        assert(r == saturating_bits(c as int));
        proof {
            law_capacity_covers(self@.len(), c as int, 0);
        }
        r
    }

    /// Sets bit `idx` to `val`, returning whether it was set before.
    pub fn set_to(&mut self, idx: usize, val: bool) -> (was_set: bool)
        ensures
            was_set == old(self).has(idx as int),
            final(self)@ == set_chunks(old(self)@, idx, val),
            forall|i: int|
                final(self).has(i) == (if i == idx { val } else { old(self).has(i) }),
    {
        proof {
            lemma_wbits();
        }
        let w = bits_per_chunk();
        let min = idx % w;
        let mask: usize = 1usize << min;
        let chunk_idx = idx / w;
        let ghost old_data = self@;
        if !val && chunk_idx >= self.data.len() {
            proof {
                lemma_beyond(old_data, idx as int);
                lemma_set_chunks_bits(old_data, idx, val);
            }
            return false;
        }
        while self.data.len() <= chunk_idx
            invariant
                old_data.len() <= self@.len(),
                self@.len() > old_data.len() ==> self@.len() <= chunk_idx + 1,
                self@ == padded(old_data, self@.len()),
            decreases chunk_idx + 1 - self@.len(),
        {
            self.data.push(0);
        }
        let chunk = self.data[chunk_idx];
        proof {
            lemma_mask_test(chunk, min);
            lemma_index_split(idx as int);
            assert(padded(old_data, (chunk_idx + 1) as nat) == self@);
            if chunk_idx >= old_data.len() {
                assert(chunk == 0);
                lemma_beyond(old_data, idx as int);
                crate::bits::lemma_zero_has_no_bits(min);
            }
        }
        let was_set: bool = (chunk & mask) != 0;
        if val {
            self.data.set(chunk_idx, chunk | mask);
        } else {
            self.data.set(chunk_idx, chunk & !mask);
        }
        proof {
            assert(self@ == set_chunks(old_data, idx, val));
            lemma_set_chunks_bits(old_data, idx, val);
            assert forall|i: int| self.has(i) == (if i == idx { val } else { seq_has(old_data, i) }) by {
                assert(seq_has(set_chunks(old_data, idx, val), i) == (if i == idx { val } else { seq_has(old_data, i) }));
            }
        }
        was_set
    }

    /// Whether bit `idx` is set.
    pub fn test(&self, idx: usize) -> (r: bool)
        ensures
            r == self.has(idx as int),
    {
        proof {
            lemma_wbits();
            lemma_index_split(idx as int);
        }
        let w = bits_per_chunk();
        let mask: usize = 1usize << (idx % w);
        let chunk_idx = idx / w;
        match self.data.get(chunk_idx) {
            Some(chunk) => {
                proof {
                    lemma_mask_test(*chunk, (idx % w));
                }
                *chunk & mask != 0
            },
            None => false,
        }
    }

    /// Whether some chunk index present in both sets holds a common set bit.
    pub fn intersects_with(&self, other: &Self) -> (r: bool)
        ensures
            r == (exists|k: int| 0 <= k < self@.len() && k < other@.len() && #[trigger] (self@[k] & other@[k]) != 0),
    {
        let mut k: usize = 0;
        while k < self.data.len() && k < other.data.len()
            invariant
                k <= self@.len(),
                k <= other@.len(),
                forall|j: int| 0 <= j < k ==> #[trigger] (self@[j] & other@[j]) == 0,
            decreases self@.len() - k,
        {
            if self.data[k] & other.data[k] != 0 {
                return true;
            }
            k += 1;
        }
        false
    }

    /// Whether this set has at least as many chunks as `other` and every bit of `other`
    /// is also set here.
    pub fn is_superset(&self, other: &Self) -> (r: bool)
        ensures
            r == (self@.len() >= other@.len() && forall|k: int|
                0 <= k < other@.len() ==> #[trigger] (other@[k] & !self@[k]) == 0),
    {
        if self.data.len() < other.data.len() {
            return false;
        }
        let mut k: usize = 0;
        while k < other.data.len()
            invariant
                k <= other@.len() <= self@.len(),
                forall|j: int| 0 <= j < k ==> #[trigger] (other@[j] & !self@[j]) == 0,
            decreases other@.len() - k,
        {
            let s = self.data[k];
            let o = other.data[k];
            let either = s | o;
            let o_not_s = either & !s;
            assert(o_not_s == o & !s) by (bit_vector)
                requires
                    o_not_s == (s | o) & !s,
            ;
            if o_not_s != 0 {
                return false;
            }
            k += 1;
        }
        true
    }

    /// Number of chunks needed to hold `cap` bits.
    pub fn len_needed_for_capacity(cap: usize) -> (r: usize)
        ensures
            r == chunks_for(cap as nat),
    {
        proof {
            lemma_wbits();
        }
        let w = bits_per_chunk();
        if cap % w == 0 {
            cap / w
        } else {
            (cap / w) + 1
        }
    }

    /// Appends zero chunks until there are enough for `cap` bits.
    pub fn pad_trailing_zeroes_to_capacity(&mut self, cap: usize)
        ensures
            final(self)@ == padded(old(self)@, chunks_for(cap as nat)),
    {
        let chunks = Self::len_needed_for_capacity(cap);
        self.pad_trailing_zeroes(chunks);
    }

    /// Appends zero chunks until there are at least `len` of them.
    pub fn pad_trailing_zeroes(&mut self, len: usize)
        ensures
            final(self)@ == padded(old(self)@, len as nat),
    {
        let ghost old_data = self@;
        while self.data.len() < len
            invariant
                old_data.len() <= self@.len(),
                self@.len() <= len || self@ == old_data,
                self@ == padded(old_data, self@.len()),
            decreases len - self@.len(),
        {
            self.data.push(0);
        }
        proof {
            if old_data.len() < len {
                assert(self@.len() == len);
            }
        }
    }

    /// Removes trailing zero chunks.
    pub fn strip_trailing_zeroes(&mut self)
        ensures
            final(self)@ == strip_zeros(old(self)@),
    {
        loop
            invariant
                strip_zeros(self@) == strip_zeros(old(self)@),
            decreases self@.len(),
        {
            let ghost before = self@;
            match self.data.pop() {
                Some(x) => {
                    if x != 0 {
                        self.data.push(x);
                        assert(self@ == before);
                        return;
                    }
                    assert(self@ == before.drop_last());
                },
                None => {
                    return;
                },
            }
        }
    }

    /// Clears, chunk by chunk over the common prefix, every bit set in `other`.
    pub fn difference_with(&mut self, other: &Self)
        ensures
            final(self)@ == difference_chunks(old(self)@, other@),
    {
        let mut k: usize = 0;
        while k < self.data.len() && k < other.data.len()
            invariant
                self@.len() == old(self)@.len(),
                k <= self@.len(),
                forall|j: int| 0 <= j < self@.len() ==> #[trigger] self@[j] == (if j < k {
                    difference_chunks(old(self)@, other@)[j]
                } else {
                    old(self)@[j]
                }),
            decreases self@.len() - k,
        {
            let s = self.data[k];
            self.data.set(k, s & !other.data[k]);
            k += 1;
        }
        assert(self@ == difference_chunks(old(self)@, other@));
    }

    /// Sets, chunk by chunk over the common prefix, every bit set in `other`;
    /// when `other` has more chunks, all of `other`'s chunks are then appended.
    pub fn or_with(&mut self, other: &Self)
        ensures
            final(self)@ == or_chunks(old(self)@, other@),
    {
        let mut k: usize = 0;
        while k < self.data.len() && k < other.data.len()
            invariant
                self@.len() == old(self)@.len(),
                k <= self@.len(),
                forall|j: int| 0 <= j < self@.len() ==> #[trigger] self@[j] == (if j < k && j < other@.len() {
                    old(self)@[j] | other@[j]
                } else {
                    old(self)@[j]
                }),
            decreases self@.len() - k,
        {
            let s = self.data[k];
            self.data.set(k, s | other.data[k]);
            k += 1;
        }
        let ghost zipped = self@;
        assert(zipped == Seq::new(old(self)@.len(), |j: int| if j < other@.len() { old(self)@[j] | other@[j] } else { old(self)@[j] }));
        if other.data.len() > self.data.len() {
            self.data.extend_from_slice(other.data.as_slice());
            assert(self@ == zipped + other@);
        }
    }
}

/// Bit count of `c` chunks, saturating at `usize::MAX`.
pub open spec fn saturating_bits(c: int) -> int {
    if c * wbits() <= usize::MAX {
        c * wbits()
    } else {
        usize::MAX as int
    }
}

/// The capacity a set reports covers its chunks: whenever [`BitSet::capacity`] answers
/// `saturating_bits(c)` for some `c` at least the number of chunks, the answer is at least
/// `wbits()` bits per chunk (or `usize::MAX`); so a set with the chunks of
/// `with_capacity(n)` reports a capacity of at least `n`.
pub proof fn law_capacity_covers(len: nat, c: int, n: nat)
    requires
        c >= len,
    ensures
        saturating_bits(c) >= len * wbits() || saturating_bits(c) == usize::MAX,
        len >= chunks_for(n) && n <= usize::MAX ==> saturating_bits(c) >= n,
{
    lemma_wbits();
    let w = wbits();
    assert(c * w >= len * w) by (nonlinear_arith)
        requires
            c >= len,
            w > 0,
    ;
    if len >= chunks_for(n) && n <= usize::MAX {
        let wn = w as nat;
        assert(chunks_for(n) * wn >= n) by (nonlinear_arith)
            requires
                wn > 0,
                chunks_for(n) == (if n % wn == 0 {
                    n / wn
                } else {
                    n / wn + 1
                }),
        ;
        assert(len * w >= chunks_for(n) * w) by (nonlinear_arith)
            requires
                len >= chunks_for(n),
                w > 0,
        ;
    }
}

/// Bits after [`set_chunks`]: exactly bit `idx` takes the value `val`.
pub proof fn lemma_set_chunks_bits(s: Seq<usize>, idx: usize, val: bool)
    ensures
        forall|i: int|
            seq_has(set_chunks(s, idx, val), i) == (if i == idx { val } else { seq_has(s, i) }),
{
    lemma_wbits();
    let c = idx as int / wbits();
    let m = (idx as int % wbits()) as usize;
    lemma_index_split(idx as int);
    let t = set_chunks(s, idx, val);
    assert forall|i: int| seq_has(t, i) == (if i == idx { val } else { seq_has(s, i) }) by {
        if !val && c >= s.len() {
            if i == idx {
                lemma_beyond(s, i);
            }
        } else if i >= 0 {
            lemma_index_split(i);
            let ci = i / wbits();
            let mi = (i % wbits()) as usize;
            let p = padded(s, (c + 1) as nat);
            if ci == c {
                if val {
                    crate::bits::lemma_set_bit(p[c], m, mi);
                } else {
                    crate::bits::lemma_clear_bit(p[c], m, mi);
                }
                if c >= s.len() {
                    crate::bits::lemma_zero_has_no_bits(mi);
                    lemma_beyond(s, i);
                }
                if mi == m {
                    assert(i == idx);
                } else {
                    assert(i != idx);
                }
            } else {
                assert(i != idx);
                if ci < s.len() {
                    assert(t[ci] == s[ci]);
                } else if ci < p.len() {
                    assert(t[ci] == 0usize);
                    crate::bits::lemma_zero_has_no_bits(mi);
                    lemma_beyond(s, i);
                } else {
                    lemma_beyond(s, i);
                }
            }
        }
    }
}

/// The number of chunks the allocation of `v` can hold; never less than its length.
#[verifier::external_body]
fn vec_capacity(v: &Vec<usize>) -> (r: usize)
    ensures
        r >= v@.len(),
{
    v.capacity()
}

} // verus!
