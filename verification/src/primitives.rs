//! A protocol coordinator over byte flags: each location has a byte of readiness flags,
//! packed eight to a 64-bit chunk, and each rule is guarded by the flags it needs.
use vstd::prelude::*;

verus! {

/// Byte `m` (0 to 7, least significant first) of the chunk `c`.
pub open spec fn chunk_byte(c: u64, m: u64) -> u64 {
    (c >> (8 * m)) & 0xff
}

/// Byte `k` of the flags: byte `k % 8` of chunk `k / 8`.
pub open spec fn byte_of(data: Seq<u64>, k: int) -> u64 {
    chunk_byte(data[k / 8], (k % 8) as u64)
}

/// Whether the eight bits from bit `m` of chunk `c` on hold anything (the test by which
/// locations are listed as non-null).
pub open spec fn window_set(c: u64, m: u64) -> bool {
    c & (0xffu64 << m) != 0
}

/// Whether location `k` is listed as non-null.
pub open spec fn listed(data: Seq<u64>, k: int) -> bool {
    window_set(data[k / 8], (k % 8) as u64)
}

/// `data` without its trailing zero chunks.
pub open spec fn strip_zero_chunks(data: Seq<u64>) -> Seq<u64>
    decreases data.len(),
{
    if data.len() > 0 && data.last() == 0 {
        strip_zero_chunks(data.drop_last())
    } else {
        data
    }
}

/// Whether every flag set in `b` is set in `a`, a missing chunk of `a` counting as zero.
pub open spec fn byte_superset(a: Seq<u64>, b: Seq<u64>) -> bool {
    &&& forall|i: int| 0 <= i < a.len() && i < b.len() ==> #[trigger] b[i] & !a[i] == 0
    &&& forall|i: int| a.len() <= i < b.len() ==> #[trigger] b[i] == 0
}

proof fn lemma_set_byte(c: u64, v: u64, m: u64, m2: u64)
    requires
        v < 256,
        m < 8,
        m2 < 8,
    ensures
        chunk_byte((c & !(0xffu64 << (8 * m))) | (v << (8 * m)), m2) == (if m == m2 {
            v
        } else {
            chunk_byte(c, m2)
        }),
{
    assert(chunk_byte((c & !(0xffu64 << (8 * m))) | (v << (8 * m)), m2) == (if m == m2 {
        v
    } else {
        chunk_byte(c, m2)
    })) by (bit_vector)
        requires
            v < 256,
            m < 8,
            m2 < 8,
    ;
}

proof fn lemma_drain_byte(c: u64, e: u64, m: u64, m2: u64)
    requires
        e < 256,
        m < 8,
        m2 < 8,
    ensures
        chunk_byte(c & !(e << (8 * m)), m2) == (if m == m2 {
            chunk_byte(c, m2) & !e & 0xff
        } else {
            chunk_byte(c, m2)
        }),
        chunk_byte(c, m) < 256,
{
    assert(chunk_byte(c & !(e << (8 * m)), m2) == (if m == m2 {
        chunk_byte(c, m2) & !e & 0xff
    } else {
        chunk_byte(c, m2)
    })) by (bit_vector)
        requires
            e < 256,
            m < 8,
            m2 < 8,
    ;
    assert(chunk_byte(c, m) < 256) by (bit_vector);
}


/// The flags after setting location `k` to `v`.
pub open spec fn set_byte_spec(data: Seq<u64>, k: int, v: u64) -> Seq<u64> {
    let m = (k % 8) as u64;
    data.update(k / 8, (data[k / 8] & !(0xffu64 << (8 * m))) | (v << (8 * m)))
}

/// The flags after clearing the flags `e` of location `k`.
pub open spec fn drain_spec(data: Seq<u64>, k: int, e: u64) -> Seq<u64> {
    let m = (k % 8) as u64;
    data.update(k / 8, data[k / 8] & !(e << (8 * m)))
}

pub proof fn lemma_set_byte_spec(data: Seq<u64>, k: int, v: u64)
    requires
        0 <= k < data.len() * 8,
        v < 256,
    ensures
        set_byte_spec(data, k, v).len() == data.len(),
        byte_of(set_byte_spec(data, k, v), k) == v,
        forall|k2: int| 0 <= k2 < data.len() * 8 && k2 != k ==> #[trigger] byte_of(set_byte_spec(data, k, v), k2) == byte_of(data, k2),
{
    let m = (k % 8) as u64;
    lemma_set_byte(data[k / 8], v, m, m);
    assert forall|k2: int| 0 <= k2 < data.len() * 8 && k2 != k implies #[trigger] byte_of(set_byte_spec(data, k, v), k2)
        == byte_of(data, k2) by {
        if k2 / 8 == k / 8 {
            lemma_set_byte(data[k / 8], v, m, (k2 % 8) as u64);
        }
    }
}

pub proof fn lemma_drain_spec(data: Seq<u64>, k: int, e: u64)
    requires
        0 <= k < data.len() * 8,
        e < 256,
    ensures
        drain_spec(data, k, e).len() == data.len(),
        byte_of(drain_spec(data, k, e), k) == byte_of(data, k) & !e & 0xff,
        forall|k2: int| 0 <= k2 < data.len() * 8 && k2 != k ==> #[trigger] byte_of(drain_spec(data, k, e), k2) == byte_of(data, k2),
{
    let m = (k % 8) as u64;
    lemma_drain_byte(data[k / 8], e, m, m);
    assert forall|k2: int| 0 <= k2 < data.len() * 8 && k2 != k implies #[trigger] byte_of(drain_spec(data, k, e), k2)
        == byte_of(data, k2) by {
        if k2 / 8 == k / 8 {
            lemma_drain_byte(data[k / 8], e, m, (k2 % 8) as u64);
        }
    }
}

/// Readiness flags of locations, one byte each, eight to a chunk.
pub struct ByteSet {
    pub data: Vec<u64>,
}

/// `Vec::shrink_to_fit`: only the allocation changes.
#[verifier::external_body]
fn shrink_chunks(v: &mut Vec<u64>)
    ensures
        final(v)@ == old(v)@,
{
    v.shrink_to_fit()
}

impl ByteSet {
    /// The flag of a location ready to put.
    pub const PUTTY: u8 = 0b00000001;

    /// The flag of a location ready to get.
    pub const GETTY: u8 = 0b00000010;

    /// The same flags without trailing zero chunks.
    pub fn minimize(self) -> (r: Self)
        ensures
            r.data@ == strip_zero_chunks(self.data@),
    {
        let mut me = self;
        while me.data.len() > 0 && me.data[me.data.len() - 1] == 0
            invariant
                strip_zero_chunks(me.data@) == strip_zero_chunks(self.data@),
            decreases me.data@.len(),
        {
            me.data.pop();
        }
        shrink_chunks(&mut me.data);
        me
    }

    /// How many locations the flags cover.
    pub fn len_bytes(&self) -> (r: usize)
        requires
            self.data@.len() * 8 <= usize::MAX,
        ensures
            r == self.data@.len() * 8,
    {
        self.data.len() * 8
    }

    /// Flags for `len` locations, all clear.
    pub fn with_len(len: usize) -> (r: Self)
        ensures
            r.data@.len() == (if len % 8 == 0 {
                (len / 8) as int
            } else {
                len / 8 + 1
            }),
            forall|i: int| 0 <= i < r.data@.len() ==> #[trigger] r.data@[i] == 0,
    {
        let n = if len % 8 == 0 {
            len / 8
        } else {
            len / 8 + 1
        };
        let mut data: Vec<u64> = Vec::new();
        let mut i: usize = 0;
        while i < n
            invariant
                i <= n,
                data@.len() == i,
                forall|j: int| 0 <= j < i ==> #[trigger] data@[j] == 0,
            decreases n - i,
        {
            data.push(0);
            i += 1;
        }
        ByteSet { data }
    }

    /// Whether every flag set in `other` is set here.
    pub fn is_superset(&self, other: &Self) -> (r: bool)
        ensures
            r == byte_superset(self.data@, other.data@),
    {
        let a = &self.data;
        let b = &other.data;
        let n = if a.len() < b.len() {
            a.len()
        } else {
            b.len()
        };
        let mut i: usize = 0;
        while i < n
            invariant
                a@ == self.data@,
                b@ == other.data@,
                n <= a@.len(),
                n <= b@.len(),
                n == a@.len() || n == b@.len(),
                i <= n,
                forall|j: int| 0 <= j < i ==> #[trigger] b@[j] & !a@[j] == 0,
            decreases n - i,
        {
            if b[i] & !a[i] != 0 {
                assert(b@[i as int] & !a@[i as int] != 0);
                return false;
            }
            i += 1;
        }
        if b.len() > a.len() {
            let mut j: usize = a.len();
            while j < b.len()
                invariant
                    a@ == self.data@,
                    b@ == other.data@,
                    a@.len() <= j <= b@.len(),
                    forall|k: int| a@.len() <= k < j ==> #[trigger] b@[k] == 0,
                decreases b@.len() - j,
            {
                if b[j] != 0 {
                    assert(b@[j as int] != 0);
                    return false;
                }
                j += 1;
            }
        }
        true
    }

    /// Clears the flags `extract` of location `byte_id`; the flags it had.
    pub fn drain_byte(&mut self, byte_id: usize, extract: u8) -> (r: u8)
        requires
            byte_id < old(self).data@.len() * 8,
        ensures
            r == byte_of(old(self).data@, byte_id as int),
            final(self).data@ == drain_spec(old(self).data@, byte_id as int, extract as u64),
            final(self).data@.len() == old(self).data@.len(),
            byte_of(final(self).data@, byte_id as int) == byte_of(old(self).data@, byte_id as int) & !(extract as u64) & 0xff,
            forall|k: int|
                0 <= k < old(self).data@.len() * 8 && k != byte_id ==> #[trigger] byte_of(final(self).data@, k)
                    == byte_of(old(self).data@, k),
    {
        let maj = byte_id / 8;
        let min = (byte_id % 8) as u64;
        let c = self.data[maj];
        let old_byte = (c >> (8 * min)) & 0xff;
        proof {
            lemma_drain_byte(c, extract as u64, min, min);
        }
        let r = old_byte as u8;
        let nc = c & !((extract as u64) << (8 * min));
        let ghost before = self.data@;
        self.data[maj] = nc;
        proof {
            assert forall|k: int| 0 <= k < before.len() * 8 && k != byte_id implies #[trigger] byte_of(self.data@, k)
                == byte_of(before, k) by {
                if k / 8 == maj {
                    lemma_drain_byte(c, extract as u64, min, (k % 8) as u64);
                }
            }
        }
        r
    }

    /// The flags of location `byte_id`.
    pub fn get_byte(&self, byte_id: usize) -> (r: u8)
        requires
            byte_id < self.data@.len() * 8,
        ensures
            r == byte_of(self.data@, byte_id as int),
    {
        let maj = byte_id / 8;
        let min = (byte_id % 8) as u64;
        let c = self.data[maj];
        proof {
            lemma_drain_byte(c, 0, min, min);
        }
        ((c >> (8 * min)) & 0xff) as u8
    }

    /// Sets the flags of location `byte_id` to `value`.
    pub fn set_byte(&mut self, byte_id: usize, value: u8)
        requires
            byte_id < old(self).data@.len() * 8,
        ensures
            final(self).data@ == set_byte_spec(old(self).data@, byte_id as int, value as u64),
            final(self).data@.len() == old(self).data@.len(),
            byte_of(final(self).data@, byte_id as int) == value,
            forall|k: int|
                0 <= k < old(self).data@.len() * 8 && k != byte_id ==> #[trigger] byte_of(final(self).data@, k)
                    == byte_of(old(self).data@, k),
    {
        let maj = byte_id / 8;
        let min = (byte_id % 8) as u64;
        let c = self.data[maj];
        let nc = (c & !(0xffu64 << (8 * min))) | ((value as u64) << (8 * min));
        let ghost before = self.data@;
        self.data[maj] = nc;
        proof {
            lemma_set_byte(c, value as u64, min, min);
            assert forall|k: int| 0 <= k < before.len() * 8 && k != byte_id implies #[trigger] byte_of(self.data@, k)
                == byte_of(before, k) by {
                if k / 8 == maj {
                    lemma_set_byte(c, value as u64, min, (k % 8) as u64);
                }
            }
        }
    }

    /// The locations listed as non-null, in increasing order: `k` is listed when any of
    /// the eight bits from bit `k % 8` of chunk `k / 8` is set.
    pub fn iter_non_null(&self) -> (r: Vec<usize>)
        requires
            self.data@.len() * 8 <= usize::MAX,
        ensures
            forall|i: int, j: int| 0 <= i < j < r@.len() ==> r@[i] < r@[j],
            forall|i: int| 0 <= i < r@.len() ==> r@[i] < self.data@.len() * 8 && listed(self.data@, r@[i] as int),
            forall|k: int| 0 <= k < self.data@.len() * 8 && listed(self.data@, k) ==> r@.contains(k as usize),
    {
        let n = self.data.len();
        let mut r: Vec<usize> = Vec::new();
        let mut maj: usize = 0;
        while maj < n
            invariant
                n == self.data@.len(),
                n * 8 <= usize::MAX,
                maj <= n,
                forall|i: int, j: int| 0 <= i < j < r@.len() ==> r@[i] < r@[j],
                forall|i: int| 0 <= i < r@.len() ==> r@[i] < maj * 8 && listed(self.data@, r@[i] as int),
                forall|k: int| 0 <= k < maj * 8 && listed(self.data@, k) ==> r@.contains(k as usize),
            decreases n - maj,
        {
            let chunk = self.data[maj];
            let mut min: u64 = 0;
            while min < 8
                invariant
                    n == self.data@.len(),
                    n * 8 <= usize::MAX,
                    maj < n,
                    chunk == self.data@[maj as int],
                    min <= 8,
                    forall|i: int, j: int| 0 <= i < j < r@.len() ==> r@[i] < r@[j],
                    forall|i: int| 0 <= i < r@.len() ==> r@[i] < maj * 8 + min && listed(self.data@, r@[i] as int),
                    forall|k: int| 0 <= k < maj * 8 + min && listed(self.data@, k) ==> r@.contains(k as usize),
                decreases 8 - min,
            {
                let mask: u64 = 0xff << min;
                let idx = maj * 8 + min as usize;
                proof {
                    assert(idx / 8 == maj && idx % 8 == min) by (nonlinear_arith)
                        requires
                            idx == maj * 8 + min,
                            min < 8,
                    ;
                }
                let ghost r0 = r@;
                if chunk & mask != 0 {
                    r.push(idx);
                }
                proof {
                    assert forall|k: int| 0 <= k < maj * 8 + min + 1 && listed(self.data@, k) implies r@.contains(
                        k as usize,
                    ) by {
                        if k == idx {
                            assert(r@[r@.len() - 1] == idx);
                        } else {
                            assert(r0.contains(k as usize));
                            let w = choose|w: int| 0 <= w < r0.len() && r0[w] == k as usize;
                            assert(r@[w] == k as usize);
                        }
                    }
                }
                min += 1;
            }
            maj += 1;
        }
        r
    }
}

/// What a location is: a putter port, a getter port, or a memory cell.
#[derive(Debug, Eq, PartialEq, Clone, Copy, Structural)]
pub enum IdType {
    Pu,
    Ge,
    Mem,
}

impl IdType {
    /// Whether the location needs space for a datum it puts.
    pub fn needs_space(self) -> (r: bool)
        ensures
            r == (self != IdType::Ge),
    {
        match self {
            IdType::Pu | IdType::Mem => true,
            IdType::Ge => false,
        }
    }
}

/// Where a rule's datum comes from, and whether the source keeps it.
#[derive(Debug, Copy, Clone, Eq, PartialEq, Structural)]
pub enum RuleType {
    CloneFromMem,
    MoveFromMem,
    FromPort,
}

impl RuleType {
    /// Whether the putter is emptied by the rule.
    pub fn drains_putter(self) -> (r: bool)
        ensures
            r == (self != RuleType::CloneFromMem),
    {
        !self.move_possible()
    }

    /// Whether a getter may take the datum by move.
    pub fn move_possible(self) -> (r: bool)
        ensures
            r == (self == RuleType::CloneFromMem),
    {
        match self {
            RuleType::CloneFromMem => true,
            RuleType::MoveFromMem | RuleType::FromPort => false,
        }
    }

    /// Whether the putter is a memory cell.
    pub fn mem_putter(self) -> (r: bool)
        ensures
            r == (self != RuleType::FromPort),
    {
        match self {
            RuleType::CloneFromMem | RuleType::MoveFromMem => true,
            RuleType::FromPort => false,
        }
    }
}

/// A rule: when the ready flags cover `guard`, the datum of `putter` goes to every getter.
pub struct Rule {
    pub guard: ByteSet,
    pub putter: usize,
    /// Increasing, without repeats.
    pub getters: Vec<usize>,
    /// Increasing, without repeats.
    pub mem_getters: Vec<usize>,
    pub getter_count: usize,
    pub rule_type: RuleType,
}

/// Types of locations, keyed by location id (a `hashbrown::HashMap<usize, IdType>`).
#[verifier::external_body]
pub struct IdTypeMap {
    inner: hashbrown::HashMap<usize, IdType>,
}

/// What an [`IdTypeMap`] holds.
pub uninterp spec fn id_type_map_contents(m: IdTypeMap) -> Map<usize, IdType>;

impl IdTypeMap {
    /// `hashbrown::HashMap::new`: the map starts empty.
    #[verifier::external_body]
    pub fn new() -> (r: IdTypeMap)
        ensures
            id_type_map_contents(r) =~= Map::empty(),
    {
        IdTypeMap { inner: hashbrown::HashMap::new() }
    }

    /// `entry(k).or_insert(v)`: stores `v` under `k` unless `k` has a value; the value
    /// now stored.
    #[verifier::external_body]
    pub fn entry_or_insert(&mut self, k: usize, v: IdType) -> (r: IdType)
        ensures
            id_type_map_contents(*final(self)) == (if id_type_map_contents(*old(self)).contains_key(k) {
                id_type_map_contents(*old(self))
            } else {
                id_type_map_contents(*old(self)).insert(k, v)
            }),
            r == id_type_map_contents(*final(self))[k],
    {
        *self.inner.entry(k).or_insert(v)
    }

    /// `hashbrown::HashMap::get`: the value under `k`, if any.
    #[verifier::external_body]
    pub fn get(&self, k: usize) -> (r: Option<IdType>)
        ensures
            r == (if id_type_map_contents(*self).contains_key(k) {
                Some(id_type_map_contents(*self)[k])
            } else {
                None
            }),
    {
        self.inner.get(&k).copied()
    }
}

/// Whether `s` is strictly increasing.
pub open spec fn increasing(s: Seq<usize>) -> bool {
    forall|i: int, j: int| 0 <= i < j < s.len() ==> s[i] < s[j]
}

/// The ids of `ids`, in increasing order and each once.
pub fn sorted_unique(ids: &Vec<usize>) -> (r: Vec<usize>)
    ensures
        increasing(r@),
        forall|x: usize| r@.contains(x) <==> ids@.contains(x),
        r@.len() <= ids@.len(),
{
    let mut r: Vec<usize> = Vec::new();
    let mut i: usize = 0;
    while i < ids.len()
        invariant
            i <= ids@.len(),
            increasing(r@),
            forall|x: usize| r@.contains(x) <==> ids@.take(i as int).contains(x),
        decreases ids@.len() - i,
    {
        let x = ids[i];
        let mut p: usize = 0;
        while p < r.len() && r[p] < x
            invariant
                p <= r@.len(),
                forall|q: int| 0 <= q < p ==> r@[q] < x,
            decreases r@.len() - p,
        {
            p += 1;
        }
        let ghost before = r@;
        let inserted = p == r.len() || r[p] != x;
        if inserted {
            r.insert(p, x);
            proof {
                assert forall|a: int, b: int| 0 <= a < b < r@.len() implies r@[a] < r@[b] by {
                    if b < p {
                    } else if b == p {
                    } else if a < p {
                    } else if a == p {
                        assert(before[b - 1] > x) by {
                            assert(before[p as int] >= x);
                            if b - 1 > p {
                                assert(before[p as int] < before[b - 1]);
                            }
                        }
                    }
                }
            }
        }
        proof {
            if inserted {
                assert forall|y: usize| r@.contains(y) <==> (before.contains(y) || y == x) by {
                    if r@.contains(y) {
                        let w = choose|w: int| 0 <= w < r@.len() && r@[w] == y;
                        if w < p {
                            assert(before[w] == y);
                        } else if w > p {
                            assert(before[w - 1] == y);
                        }
                    }
                    if before.contains(y) {
                        let w = choose|w: int| 0 <= w < before.len() && before[w] == y;
                        if w < p {
                            assert(r@[w] == y);
                        } else {
                            assert(r@[w + 1] == y);
                        }
                    }
                    if y == x {
                        assert(r@[p as int] == x);
                    }
                }
            } else {
                assert(before[p as int] == x);
                assert forall|y: usize| r@.contains(y) <==> (before.contains(y) || y == x) by {
                    if y == x {
                        assert(r@[p as int] == x);
                    }
                }
            }
            let prev = ids@.take(i as int);
            let next = ids@.take(i + 1);
            assert(next =~= prev.push(x));
            assert forall|y: usize| next.contains(y) <==> (prev.contains(y) || y == x) by {
                if next.contains(y) {
                    let w = choose|w: int| 0 <= w < next.len() && next[w] == y;
                    if w < i {
                        assert(prev[w] == y);
                    }
                }
                if prev.contains(y) {
                    let w = choose|w: int| 0 <= w < prev.len() && prev[w] == y;
                    assert(next[w] == y);
                }
                if y == x {
                    assert(next[i as int] == x);
                }
            }
            assert forall|y: usize| r@.contains(y) <==> next.contains(y) by {
                assert(before.contains(y) <==> prev.contains(y));
            }
        }
        i += 1;
    }
    proof {
        assert(ids@.take(ids@.len() as int) =~= ids@);
        assert(r@.no_duplicates()) by {
            assert forall|a: int, b: int| 0 <= a < r@.len() && 0 <= b < r@.len() && a != b implies r@[a] != r@[b] by {
                if a < b {
                    assert(r@[a] < r@[b]);
                } else {
                    assert(r@[b] < r@[a]);
                }
            }
        }
        r@.unique_seq_to_set();
        ids@.lemma_cardinality_of_set();
        assert(r@.to_set().subset_of(ids@.to_set()));
        vstd::set_lib::lemma_len_subset(r@.to_set(), ids@.to_set());
    }
    r
}

/// Chunks of a guard for locations `0..=max_id`.
pub open spec fn guard_chunks(max_id: nat) -> nat {
    if (max_id + 1) % 8 == 0 {
        ((max_id + 1) / 8) as nat
    } else {
        ((max_id + 1) / 8 + 1) as nat
    }
}

/// The type a location takes as the putter of a rule.
pub open spec fn putter_type(is_mem: bool) -> IdType {
    if is_mem {
        IdType::Mem
    } else {
        IdType::Pu
    }
}

/// Whether `id` may take the type `t` given the types `m` already fixed.
pub open spec fn type_fits(m: Map<usize, IdType>, id: usize, t: IdType) -> bool {
    !m.contains_key(id) || m[id] == t
}

/// The types after a rule: ids already typed keep their type; new getters become `Ge`,
/// new memory getters `Mem`, and a new putter its putter type.
pub open spec fn with_rule_types(
    m: Map<usize, IdType>,
    getters: Seq<usize>,
    mem_getters: Seq<usize>,
    putter: usize,
    pt: IdType,
) -> Map<usize, IdType> {
    Map::new(
        |k: usize| m.contains_key(k) || getters.contains(k) || mem_getters.contains(k) || k == putter,
        |k: usize|
            if m.contains_key(k) {
                m[k]
            } else if getters.contains(k) {
                IdType::Ge
            } else if mem_getters.contains(k) {
                IdType::Mem
            } else {
                pt
            },
    )
}

/// The flags the guard of a rule asks of location `k`.
pub open spec fn guard_byte(k: int, putter: usize, getters: Seq<usize>, mem_getters: Seq<usize>) -> u64 {
    if k == putter {
        1
    } else if (0 <= k <= usize::MAX) && (getters.contains(k as usize) || mem_getters.contains(k as usize)) {
        2
    } else {
        0
    }
}

/// The largest of `m` and the ids of `s`.
pub open spec fn max_with(m: usize, s: Seq<usize>) -> usize
    decreases s.len(),
{
    if s.len() == 0 {
        m
    } else {
        let rest = max_with(m, s.drop_last());
        if s.last() > rest {
            s.last()
        } else {
            rest
        }
    }
}

proof fn lemma_increasing_len(s: Seq<usize>, bound: int)
    requires
        increasing(s),
        0 <= bound,
        forall|i: int| 0 <= i < s.len() ==> s[i] < bound,
    ensures
        s.len() <= bound,
{
    if s.len() > 0 {
        assert forall|i: int| 0 <= i < s.len() implies s[i] >= i by {
            lemma_increasing_at_least(s, i);
        }
        assert(s[s.len() - 1] >= s.len() - 1);
        assert(s[s.len() - 1] < bound);
    }
}

proof fn lemma_increasing_at_least(s: Seq<usize>, i: int)
    requires
        increasing(s),
        0 <= i < s.len(),
    ensures
        s[i] >= i,
    decreases i,
{
    if i > 0 {
        lemma_increasing_at_least(s, i - 1);
    }
}

/// Builds the rules of a coordinator over byte flags.
pub struct ProtBuilder {
    pub max_id_promised: usize,
    pub max_id_encountered: usize,
    pub id_type: IdTypeMap,
    pub rules: Vec<Rule>,
}

impl ProtBuilder {
    /// A builder for locations up to `max_id`, with no rule.
    pub fn new(max_id: usize) -> (r: Self)
        ensures
            r.max_id_promised == max_id,
            r.max_id_encountered == 0,
            id_type_map_contents(r.id_type) =~= Map::empty(),
            r.rules@.len() == 0,
    {
        Self { max_id_promised: max_id, max_id_encountered: 0, id_type: IdTypeMap::new(), rules: Vec::new() }
    }

    /// Whether `id` already has a type other than `t`.
    pub fn clashes(&self, id: usize, t: IdType) -> (r: bool)
        ensures
            r == !type_fits(id_type_map_contents(self.id_type), id, t),
    {
        match self.id_type.get(id) {
            Some(u) => u != t,
            None => false,
        }
    }

    /// Adds the rule moving the datum of `putter` (a memory cell if `is_mem`) to the
    /// getters and memory getters. Every id takes its type (getter, memory cell, or the
    /// putter's), which must agree with the type it had; the guard asks `GETTY` of every
    /// getter and `PUTTY` of the putter, and drops its trailing zero chunks.
    pub fn add_rule(self, is_mem: bool, putter: usize, getters: Vec<usize>, mem_getters: Vec<usize>) -> (r: Self)
        requires
            self.max_id_promised < usize::MAX,
            getters@.len() + mem_getters@.len() <= usize::MAX,
            putter < 8 * guard_chunks(self.max_id_promised as nat),
            forall|i: int| 0 <= i < getters@.len() ==> getters@[i] < 8 * guard_chunks(self.max_id_promised as nat),
            forall|i: int| 0 <= i < mem_getters@.len() ==> mem_getters@[i] < 8 * guard_chunks(self.max_id_promised as nat),
            forall|i: int|
                0 <= i < getters@.len() ==> type_fits(id_type_map_contents(self.id_type), #[trigger] getters@[i], IdType::Ge),
            forall|i: int|
                0 <= i < mem_getters@.len() ==> type_fits(id_type_map_contents(self.id_type), #[trigger] mem_getters@[i], IdType::Mem)
                    && !getters@.contains(mem_getters@[i]),
            type_fits(id_type_map_contents(self.id_type), putter, putter_type(is_mem)),
            !getters@.contains(putter),
            !is_mem ==> !mem_getters@.contains(putter),
        ensures
            r.max_id_promised == self.max_id_promised,
            id_type_map_contents(r.id_type) == with_rule_types(
                id_type_map_contents(self.id_type),
                getters@,
                mem_getters@,
                putter,
                putter_type(is_mem),
            ),
            r.rules@.len() == self.rules@.len() + 1,
            forall|i: int| 0 <= i < self.rules@.len() ==> r.rules@[i] == self.rules@[i],
            ({
                let rule = r.rules@[self.rules@.len() as int];
                &&& rule.putter == putter
                &&& increasing(rule.getters@)
                &&& forall|x: usize| rule.getters@.contains(x) <==> getters@.contains(x)
                &&& increasing(rule.mem_getters@)
                &&& forall|x: usize| rule.mem_getters@.contains(x) <==> mem_getters@.contains(x)
                &&& rule.getter_count == rule.getters@.len() + rule.mem_getters@.len()
                &&& r.max_id_encountered == max_with(
                    max_with(max_with(self.max_id_encountered, rule.getters@), rule.mem_getters@),
                    seq![putter],
                )
                &&& rule.rule_type == (if !is_mem {
                    RuleType::FromPort
                } else if mem_getters@.contains(putter) {
                    RuleType::CloneFromMem
                } else {
                    RuleType::MoveFromMem
                })
                &&& exists|d: Seq<u64>| {
                    &&& d.len() == guard_chunks(self.max_id_promised as nat)
                    &&& forall|k: int| 0 <= k < d.len() * 8 ==> #[trigger] byte_of(d, k) == guard_byte(k, putter, getters@, mem_getters@)
                    &&& rule.guard.data@ == strip_zero_chunks(d)
                }
            }),
    {
        let ghost m0 = id_type_map_contents(self.id_type);
        let ghost p = self.max_id_promised as nat;
        let mut me = self;
        let mut guard = ByteSet::with_len(me.max_id_promised + 1);
        assert(guard.data@.len() == guard_chunks(p));
        proof {
            assert forall|k: int| 0 <= k < guard.data@.len() * 8 implies #[trigger] byte_of(guard.data@, k) == 0 by {
                lemma_drain_byte(guard.data@[k / 8], 0, (k % 8) as u64, (k % 8) as u64);
                assert(guard.data@[k / 8] == 0);
                assert(chunk_byte(0u64, (k % 8) as u64) == 0) by {
                    let m = (k % 8) as u64;
                    assert(chunk_byte(0u64, m) == 0) by (bit_vector);
                }
            }
        }
        let getters_vec = sorted_unique(&getters);
        let mem_vec = sorted_unique(&mem_getters);
        let n = getters_vec.len();
        let mut i: usize = 0;
        while i < n
            invariant
                n == getters_vec@.len(),
                i <= n,
                increasing(getters_vec@),
                forall|x: usize| getters_vec@.contains(x) <==> getters@.contains(x),
                forall|q: int| 0 <= q < getters@.len() ==> getters@[q] < 8 * guard_chunks(p),
                forall|q: int|
                    0 <= q < getters@.len() ==> type_fits(m0, #[trigger] getters@[q], IdType::Ge),
                guard.data@.len() == guard_chunks(p),
                me.max_id_promised == p,
                me.rules@ == self.rules@,
                me.max_id_encountered == max_with(self.max_id_encountered, getters_vec@.take(i as int)),
                forall|k: usize|
                    #[trigger] id_type_map_contents(me.id_type).contains_key(k) <==> (m0.contains_key(k)
                        || getters_vec@.take(i as int).contains(k)),
                forall|k: usize|
                    #[trigger] id_type_map_contents(me.id_type).contains_key(k) ==> id_type_map_contents(me.id_type)[k]
                        == (if m0.contains_key(k) {
                        m0[k]
                    } else {
                        IdType::Ge
                    }),
                forall|k: int|
                    0 <= k < guard.data@.len() * 8 ==> #[trigger] byte_of(guard.data@, k) == (if (0 <= k <= usize::MAX)
                        && getters_vec@.take(i as int).contains(k as usize) {
                        2u64
                    } else {
                        0u64
                    }),
            decreases n - i,
        {
            let g = getters_vec[i];
            assert(getters_vec@.contains(g));
            assert(getters@.contains(g));
            proof {
                let wq = choose|q: int| 0 <= q < getters@.len() && getters@[q] == g;
                assert(type_fits(m0, getters@[wq], IdType::Ge));
            }
            let _ = me.id_type.entry_or_insert(g, IdType::Ge);
            if g > me.max_id_encountered {
                me.max_id_encountered = g;
            }
            guard.set_byte(g, 2);
            proof {
                let prev = getters_vec@.take(i as int);
                let next = getters_vec@.take(i + 1);
                assert(next =~= prev.push(g));
                assert(next.drop_last() =~= prev);
                assert forall|y: usize| next.contains(y) <==> (prev.contains(y) || y == g) by {
                    if next.contains(y) {
                        let w = choose|w: int| 0 <= w < next.len() && next[w] == y;
                        if w < i {
                            assert(prev[w] == y);
                        }
                    }
                    if prev.contains(y) {
                        let w = choose|w: int| 0 <= w < prev.len() && prev[w] == y;
                        assert(next[w] == y);
                    }
                    if y == g {
                        assert(next[i as int] == g);
                    }
                }
            }
            i += 1;
        }
        let mn = mem_vec.len();
        proof {
            assert(getters_vec@.take(n as int) =~= getters_vec@);
            assert(mem_vec@.take(0) =~= Seq::<usize>::empty());
        }
        let mut j: usize = 0;
        while j < mn
            invariant
                mn == mem_vec@.len(),
                j <= mn,
                increasing(mem_vec@),
                forall|x: usize| mem_vec@.contains(x) <==> mem_getters@.contains(x),
                forall|x: usize| getters_vec@.contains(x) <==> getters@.contains(x),
                forall|q: int| 0 <= q < mem_getters@.len() ==> mem_getters@[q] < 8 * guard_chunks(p),
                forall|q: int|
                    0 <= q < mem_getters@.len() ==> type_fits(m0, #[trigger] mem_getters@[q], IdType::Mem)
                        && !getters@.contains(mem_getters@[q]),
                guard.data@.len() == guard_chunks(p),
                me.max_id_promised == p,
                me.rules@ == self.rules@,
                me.max_id_encountered == max_with(max_with(self.max_id_encountered, getters_vec@), mem_vec@.take(j as int)),
                forall|k: usize|
                    #[trigger] id_type_map_contents(me.id_type).contains_key(k) <==> (m0.contains_key(k)
                        || getters_vec@.contains(k) || mem_vec@.take(j as int).contains(k)),
                forall|k: usize|
                    #[trigger] id_type_map_contents(me.id_type).contains_key(k) ==> id_type_map_contents(me.id_type)[k]
                        == (if m0.contains_key(k) {
                        m0[k]
                    } else if getters_vec@.contains(k) {
                        IdType::Ge
                    } else {
                        IdType::Mem
                    }),
                forall|k: int|
                    0 <= k < guard.data@.len() * 8 ==> #[trigger] byte_of(guard.data@, k) == (if (0 <= k <= usize::MAX)
                        && (getters_vec@.contains(k as usize) || mem_vec@.take(j as int).contains(k as usize)) {
                        2u64
                    } else {
                        0u64
                    }),
            decreases mn - j,
        {
            let g = mem_vec[j];
            assert(mem_vec@.contains(g));
            assert(mem_getters@.contains(g));
            proof {
                let wq = choose|q: int| 0 <= q < mem_getters@.len() && mem_getters@[q] == g;
                assert(type_fits(m0, mem_getters@[wq], IdType::Mem));
            }
            let _ = me.id_type.entry_or_insert(g, IdType::Mem);
            if g > me.max_id_encountered {
                me.max_id_encountered = g;
            }
            guard.set_byte(g, 2);
            proof {
                let prev = mem_vec@.take(j as int);
                let next = mem_vec@.take(j + 1);
                assert(next =~= prev.push(g));
                assert(next.drop_last() =~= prev);
                assert forall|y: usize| next.contains(y) <==> (prev.contains(y) || y == g) by {
                    if next.contains(y) {
                        let w = choose|w: int| 0 <= w < next.len() && next[w] == y;
                        if w < j {
                            assert(prev[w] == y);
                        }
                    }
                    if prev.contains(y) {
                        let w = choose|w: int| 0 <= w < prev.len() && prev[w] == y;
                        assert(next[w] == y);
                    }
                    if y == g {
                        assert(next[j as int] == g);
                    }
                }
            }
            j += 1;
        }
        proof {
            assert(getters_vec@.take(n as int) =~= getters_vec@);
            assert(mem_vec@.take(mn as int) =~= mem_vec@);
            assert forall|q: int| 0 <= q < getters_vec@.len() implies getters_vec@[q] < 8 * guard_chunks(p) by {
                assert(getters_vec@.contains(getters_vec@[q]));
                assert(getters@.contains(getters_vec@[q]));
            }
            assert forall|q: int| 0 <= q < mem_vec@.len() implies mem_vec@[q] < 8 * guard_chunks(p) by {
                assert(mem_vec@.contains(mem_vec@[q]));
                assert(mem_getters@.contains(mem_vec@[q]));
            }
            lemma_increasing_len(getters_vec@, (8 * guard_chunks(p)) as int);
            lemma_increasing_len(mem_vec@, (8 * guard_chunks(p)) as int);
        }
        let getter_count = n + mn;
        let pt = if is_mem {
            IdType::Mem
        } else {
            IdType::Pu
        };
        let _ = me.id_type.entry_or_insert(putter, pt);
        if putter > me.max_id_encountered {
            me.max_id_encountered = putter;
        }
        guard.set_byte(putter, 1);
        let ghost d = guard.data@;
        let guard = guard.minimize();
        let mut putter_in_mem = false;
        let mut q: usize = 0;
        while q < mn
            invariant
                mn == mem_vec@.len(),
                q <= mn,
                putter_in_mem == mem_vec@.take(q as int).contains(putter),
            decreases mn - q,
        {
            proof {
                let prev = mem_vec@.take(q as int);
                let next = mem_vec@.take(q + 1);
                assert(next =~= prev.push(mem_vec@[q as int]));
                assert(next.contains(putter) <==> (prev.contains(putter) || mem_vec@[q as int] == putter)) by {
                    if next.contains(putter) {
                        let w = choose|w: int| 0 <= w < next.len() && next[w] == putter;
                        if w < q {
                            assert(prev[w] == putter);
                        }
                    }
                    if prev.contains(putter) {
                        let w = choose|w: int| 0 <= w < prev.len() && prev[w] == putter;
                        assert(next[w] == putter);
                    }
                    if mem_vec@[q as int] == putter {
                        assert(next[q as int] == putter);
                    }
                }
            }
            if mem_vec[q] == putter {
                putter_in_mem = true;
            }
            q += 1;
        }
        let rule_type = if is_mem {
            if putter_in_mem {
                RuleType::CloneFromMem
            } else {
                RuleType::MoveFromMem
            }
        } else {
            RuleType::FromPort
        };
        let ghost gv = getters_vec@;
        let ghost mv = mem_vec@;
        let r = Rule { rule_type, mem_getters: mem_vec, guard, putter, getters: getters_vec, getter_count };
        me.rules.push(r);
        proof {
            let m1 = id_type_map_contents(me.id_type);
            let want = with_rule_types(m0, getters@, mem_getters@, putter, putter_type(is_mem));
            assert forall|k: usize| #[trigger] m1.contains_key(k) == want.contains_key(k) by {}
            assert forall|k: usize| m1.contains_key(k) implies #[trigger] m1[k] == want[k] by {}
            assert(m1 =~= want);
            assert forall|k: int| 0 <= k < d.len() * 8 implies #[trigger] byte_of(d, k) == guard_byte(
                k,
                putter,
                getters@,
                mem_getters@,
            ) by {}
            assert(max_with(max_with(max_with(self.max_id_encountered, gv), mv), seq![putter]) == (if putter > max_with(
                max_with(self.max_id_encountered, gv),
                mv,
            ) {
                putter
            } else {
                max_with(max_with(self.max_id_encountered, gv), mv)
            })) by {
                let base = max_with(max_with(self.max_id_encountered, gv), mv);
                assert(seq![putter].drop_last() =~= Seq::<usize>::empty());
                assert(max_with(base, Seq::<usize>::empty()) == base);
                assert(seq![putter].last() == putter);
            }
            assert(mv.take(mn as int) =~= mv);
        }
        me
    }
}

/// Whether location `k` is ready to put.
pub open spec fn has_putty(data: Seq<u64>, k: int) -> bool {
    byte_of(data, k) & 1 == 1
}

/// How many of the locations `0..n` are ready to put.
pub open spec fn putty_count(data: Seq<u64>, n: nat) -> nat
    decreases n,
{
    if n == 0 {
        0
    } else {
        putty_count(data, (n - 1) as nat) + (if has_putty(data, n - 1) { 1nat } else { 0nat })
    }
}

/// Clearing flags never raises the count of locations ready to put, and clearing one
/// that was ready lowers it.
pub proof fn lemma_putty_count_clear(d1: Seq<u64>, d2: Seq<u64>, n: nat, k0: int)
    requires
        forall|k: int| 0 <= k < n && #[trigger] has_putty(d2, k) ==> has_putty(d1, k),
    ensures
        putty_count(d2, n) <= putty_count(d1, n),
        0 <= k0 < n && has_putty(d1, k0) && !has_putty(d2, k0) ==> putty_count(d2, n) < putty_count(d1, n),
    decreases n,
{
    if n > 0 {
        lemma_putty_count_clear(d1, d2, (n - 1) as nat, k0);
    }
}

/// The flags after resetting, in order, each getter of `getters`.
pub open spec fn reset_getters(data: Seq<u64>, getters: Seq<usize>) -> Seq<u64>
    decreases getters.len(),
{
    if getters.len() == 0 {
        data
    } else {
        set_byte_spec(reset_getters(data, getters.drop_last()), getters.last() as int, 0)
    }
}

/// The flags after a rule fires: the putter's put flag cleared, then every getter reset.
pub open spec fn fire_data(data: Seq<u64>, r: Rule) -> Seq<u64> {
    reset_getters(drain_spec(data, r.putter as int, 1), r.getters@)
}

/// The messages a firing sends: each getter learns the putter, then the putter learns
/// how many getters there are.
pub open spec fn fire_msgs(r: Rule) -> Seq<(usize, usize)> {
    Seq::new(r.getters@.len(), |i: int| (r.getters@[i], r.putter)).push((r.putter, r.getter_count))
}

/// A firing tells each port getter, in order, which putter to take from, and then tells
/// the putter how many takers to wait for: for a rule built by [`ProtBuilder::add_rule`]
/// (whose count is its port getters and memory getters together), that many.
pub proof fn law_fire_tells_putter_its_takers(r: Rule)
    ensures
        fire_msgs(r).len() == r.getters@.len() + 1,
        forall|i: int| 0 <= i < r.getters@.len() ==> #[trigger] fire_msgs(r)[i] == (r.getters@[i], r.putter),
        fire_msgs(r).last() == (r.putter, r.getter_count),
        r.getter_count == r.getters@.len() + r.mem_getters@.len() ==> fire_msgs(r).last().1 == r.getters@.len()
            + r.mem_getters@.len(),
{
}

/// Whether rule `r` can fire: the flags cover its guard and its putter is ready to put.
pub open spec fn enabled(data: Seq<u64>, r: Rule) -> bool {
    byte_superset(data, r.guard.data@) && has_putty(data, r.putter as int)
}

/// The first rule from `i` on that can fire.
pub open spec fn first_enabled_from(data: Seq<u64>, rules: Seq<Rule>, i: int) -> Option<int>
    decreases rules.len() - i,
{
    if i < 0 || i >= rules.len() {
        None
    } else if enabled(data, rules[i]) {
        Some(i)
    } else {
        first_enabled_from(data, rules, i + 1)
    }
}

/// Whether every location a rule touches lies within `n` locations.
pub open spec fn rules_in_range(rules: Seq<Rule>, n: nat) -> bool {
    forall|i: int|
        0 <= i < rules.len() ==> {
            &&& (#[trigger] rules[i]).putter < n
            &&& forall|j: int| 0 <= j < rules[i].getters@.len() ==> #[trigger] rules[i].getters@[j] < n
        }
}

/// The flags and messages after firing, again and again, the first rule that can fire,
/// until none can.
pub open spec fn quiesce(data: Seq<u64>, rules: Seq<Rule>) -> (Seq<u64>, Seq<(usize, usize)>)
    decreases putty_count(data, data.len() * 8),
{
    match first_enabled_from(data, rules, 0) {
        None => (data, Seq::empty()),
        Some(i) => {
            let next = fire_data(data, rules[i]);
            if putty_count(next, next.len() * 8) < putty_count(data, data.len() * 8) {
                let rest = quiesce(next, rules);
                (rest.0, fire_msgs(rules[i]) + rest.1)
            } else {
                (data, Seq::empty())
            }
        },
    }
}

proof fn lemma_reset_getters(data: Seq<u64>, getters: Seq<usize>)
    requires
        forall|j: int| 0 <= j < getters.len() ==> #[trigger] getters[j] < data.len() * 8,
    ensures
        reset_getters(data, getters).len() == data.len(),
        forall|k: int|
            0 <= k < data.len() * 8 && #[trigger] has_putty(reset_getters(data, getters), k) ==> has_putty(data, k),
    decreases getters.len(),
{
    if getters.len() > 0 {
        let prev = reset_getters(data, getters.drop_last());
        lemma_reset_getters(data, getters.drop_last());
        lemma_set_byte_spec(prev, getters.last() as int, 0);
        assert forall|k: int| 0 <= k < data.len() * 8 && #[trigger] has_putty(reset_getters(data, getters), k) implies has_putty(
            data,
            k,
        ) by {
            if k == getters.last() {
                assert(byte_of(reset_getters(data, getters), k) == 0);
                assert(0u64 & 1 == 0) by (bit_vector);
            } else {
                assert(has_putty(prev, k));
            }
        }
    }
}

/// Firing a rule that can fire lowers the count of locations ready to put.
proof fn lemma_fire_decreases(data: Seq<u64>, r: Rule)
    requires
        r.putter < data.len() * 8,
        forall|j: int| 0 <= j < r.getters@.len() ==> #[trigger] r.getters@[j] < data.len() * 8,
        has_putty(data, r.putter as int),
    ensures
        fire_data(data, r).len() == data.len(),
        putty_count(fire_data(data, r), data.len() * 8) < putty_count(data, data.len() * 8),
{
    let drained = drain_spec(data, r.putter as int, 1);
    lemma_drain_spec(data, r.putter as int, 1);
    lemma_reset_getters(drained, r.getters@);
    let b = byte_of(data, r.putter as int);
    assert((b & !1u64 & 0xff) & 1 == 0) by (bit_vector);
    assert(!has_putty(drained, r.putter as int));
    assert forall|k: int| 0 <= k < data.len() * 8 && #[trigger] has_putty(fire_data(data, r), k) implies has_putty(data, k) by {
        assert(has_putty(drained, k));
        if k != r.putter {
            assert(byte_of(drained, k) == byte_of(data, k));
        }
    }
    assert(!has_putty(fire_data(data, r), r.putter as int)) by {
        if has_putty(fire_data(data, r), r.putter as int) {
            assert(has_putty(drained, r.putter as int));
        }
    }
    lemma_putty_count_clear(data, fire_data(data, r), data.len() * 8, r.putter as int);
}

/// Scans the rules in order for one whose guard the ready flags cover, clearing the put
/// flag of its putter, until that putter was ready to put; the index of that rule, or
/// `None` (flags unchanged) when no rule can fire.
fn find_enabled(ready: &mut ByteSet, rules: &Vec<Rule>) -> (r: Option<usize>)
    requires
        rules_in_range(rules@, old(ready).data@.len() * 8),
    ensures
        match first_enabled_from(old(ready).data@, rules@, 0) {
            None => r is None && final(ready).data@ == old(ready).data@,
            Some(i) => r == Some(i as usize) && final(ready).data@ == drain_spec(
                old(ready).data@,
                rules@[i].putter as int,
                1,
            ),
        },
{
    let n = ready.data.len();
    let mut i: usize = 0;
    while i < rules.len()
        invariant
            ready.data@ == old(ready).data@,
            n == ready.data@.len(),
            rules_in_range(rules@, (n * 8) as nat),
            i <= rules@.len(),
            first_enabled_from(ready.data@, rules@, 0) == first_enabled_from(ready.data@, rules@, i as int),
        decreases rules@.len() - i,
    {
        let rule = &rules[i];
        assert(rule.putter < n * 8);
        if ready.is_superset(&rule.guard) {
            let ghost before = ready.data@;
            let got = ready.drain_byte(rule.putter, ByteSet::PUTTY);
            let ghost b = byte_of(before, rule.putter as int);
            let ghost c = before[rule.putter as int / 8];
            let ghost m = (rule.putter as int % 8) as u64;
            proof {
                assert(b < 256) by {
                    lemma_drain_byte(c, 0, m, m);
                }
                assert(got == b);
            }
            if got & ByteSet::PUTTY != ByteSet::PUTTY {
                proof {
                    assert((got & 1u8) != 1u8 ==> (b & 1u64) != 1u64) by (bit_vector)
                        requires
                            got == b,
                    ;
                    assert(chunk_byte(c, m) & 1 != 1 ==> c & !(1u64 << (8 * m)) == c) by (bit_vector)
                        requires
                            m < 8,
                    ;
                    assert(ready.data@ =~= before);
                }
            } else {
                proof {
                    assert((got & 1u8) == 1u8 ==> (b & 1u64) == 1u64) by (bit_vector)
                        requires
                            got == b,
                    ;
                }
                return Some(i);
            }
        }
        i += 1;
    }
    None
}

/// Fires `rule`, whose putter's put flag was cleared already: resets every getter and
/// appends the messages of the firing.
fn fire(ready: &mut ByteSet, rule: &Rule, msgs: &mut Vec<(usize, usize)>)
    requires
        rule.putter < old(ready).data@.len() * 8,
        forall|j: int| 0 <= j < rule.getters@.len() ==> #[trigger] rule.getters@[j] < old(ready).data@.len() * 8,
    ensures
        final(ready).data@ == reset_getters(old(ready).data@, rule.getters@),
        final(msgs)@ == old(msgs)@ + fire_msgs(*rule),
{
    let ghost start = ready.data@;
    let gn = rule.getters.len();
    let mut j: usize = 0;
    while j < gn
        invariant
            gn == rule.getters@.len(),
            j <= gn,
            ready.data@.len() == start.len(),
            forall|q: int| 0 <= q < gn ==> #[trigger] rule.getters@[q] < start.len() * 8,
            ready.data@ == reset_getters(start, rule.getters@.take(j as int)),
            msgs@ == old(msgs)@ + Seq::new(j as nat, |q: int| (rule.getters@[q], rule.putter)),
        decreases gn - j,
    {
        let g = rule.getters[j];
        proof {
            assert(rule.getters@.take(j + 1).drop_last() =~= rule.getters@.take(j as int));
            lemma_set_byte_spec(ready.data@, g as int, 0);
        }
        ready.set_byte(g, 0);
        msgs.push((g, rule.putter));
        proof {
            assert(msgs@ =~= old(msgs)@ + Seq::new((j + 1) as nat, |q: int| (rule.getters@[q], rule.putter)));
        }
        j += 1;
    }
    msgs.push((rule.putter, rule.getter_count));
    proof {
        assert(rule.getters@.take(gn as int) =~= rule.getters@);
        assert(msgs@ =~= old(msgs)@ + fire_msgs(*rule));
    }
}

/// Whether every location the rules touch has flags in `ready`.
pub fn rules_fit(rules: &Vec<Rule>, ready: &ByteSet) -> (r: bool)
    ensures
        r == rules_in_range(rules@, (ready.data@.len() * 8) as nat),
{
    let n = ready.data.len();
    if n > usize::MAX / 8 {
        proof {
            assert forall|i: int| 0 <= i < rules@.len() implies (#[trigger] rules@[i]).putter < n * 8 by {}
            assert forall|i: int, j: int| 0 <= i < rules@.len() && 0 <= j < rules@[i].getters@.len() implies #[trigger] rules@[i].getters@[j] < n * 8 by {}
        }
        return true;
    }
    let limit = n * 8;
    let mut i: usize = 0;
    while i < rules.len()
        invariant
            limit == n * 8,
            n == ready.data@.len(),
            i <= rules@.len(),
            forall|q: int|
                0 <= q < i ==> {
                    &&& (#[trigger] rules@[q]).putter < limit
                    &&& forall|j: int| 0 <= j < rules@[q].getters@.len() ==> #[trigger] rules@[q].getters@[j] < limit
                },
        decreases rules@.len() - i,
    {
        let rule = &rules[i];
        if rule.putter >= limit {
            return false;
        }
        let mut j: usize = 0;
        while j < rule.getters.len()
            invariant
                rule == &rules@[i as int],
                i < rules@.len(),
                limit == n * 8,
                n == ready.data@.len(),
                j <= rule.getters@.len(),
                forall|q: int| 0 <= q < j ==> #[trigger] rule.getters@[q] < limit,
            decreases rule.getters@.len() - j,
        {
            if rule.getters[j] >= limit {
                proof {
                    assert(rules@[i as int].getters@[j as int] >= limit);
                }
                return false;
            }
            j += 1;
        }
        i += 1;
    }
    true
}

/// Fires, again and again, the first rule (in order) whose guard the ready flags cover
/// and whose putter is ready to put: the putter's put flag is cleared, every getter's
/// flags are reset, each getter is sent the putter's id and the putter the number of
/// getters. Ends when no rule can fire; the messages come back in the order sent.
pub fn enter(ready: &mut ByteSet, rules: &Vec<Rule>) -> (msgs: Vec<(usize, usize)>)
    requires
        rules_in_range(rules@, old(ready).data@.len() * 8),
    ensures
        final(ready).data@ == quiesce(old(ready).data@, rules@).0,
        msgs@ == quiesce(old(ready).data@, rules@).1,
{
    let mut msgs: Vec<(usize, usize)> = Vec::new();
    let n = ready.data.len();
    loop
        invariant
            ready.data@.len() == n,
            n == old(ready).data@.len(),
            rules_in_range(rules@, (n * 8) as nat),
            quiesce(old(ready).data@, rules@).0 == quiesce(ready.data@, rules@).0,
            quiesce(old(ready).data@, rules@).1 == msgs@ + quiesce(ready.data@, rules@).1,
        decreases putty_count(ready.data@, ready.data@.len() * 8),
    {
        let ghost before = ready.data@;
        let ghost msgs_before = msgs@;
        match find_enabled(ready, rules) {
            None => {
                proof {
                    assert(msgs@ =~= msgs@ + Seq::<(usize, usize)>::empty());
                }
                return msgs;
            },
            Some(i) => {
                proof {
                    lemma_first_enabled(before, rules@, 0);
                    let fe = first_enabled_from(before, rules@, 0);
                    assert(fe is Some);
                    let k = fe.unwrap();
                    assert(0 <= k < rules@.len());
                    assert(rules@.len() == rules.len());
                    assert(k <= usize::MAX);
                    assert(k as usize == i);
                    assert(k == i);
                    assert(fe == Some(i as int));
                }
                let rule = &rules[i];
                proof {
                    assert(rule.putter < n * 8);
                    lemma_drain_spec(before, rule.putter as int, 1);
                }
                fire(ready, rule, &mut msgs);
                proof {
                    assert(has_putty(before, rules@[i as int].putter as int)) by {
                        lemma_first_enabled(before, rules@, 0);
                    }
                    lemma_fire_decreases(before, rules@[i as int]);
                    assert(ready.data@ == fire_data(before, rules@[i as int]));
                    let rest = quiesce(ready.data@, rules@);
                    assert(quiesce(before, rules@) == (rest.0, fire_msgs(rules@[i as int]) + rest.1));
                    assert(msgs_before + (fire_msgs(rules@[i as int]) + rest.1) =~= (msgs_before + fire_msgs(
                        rules@[i as int],
                    )) + rest.1);
                }
            },
        }
    }
}

/// After [`enter`] no rule can fire any more, and every location ready to put was
/// ready before.
pub proof fn law_enter_settles(data: Seq<u64>, rules: Seq<Rule>)
    requires
        rules_in_range(rules, data.len() * 8),
    ensures
        first_enabled_from(quiesce(data, rules).0, rules, 0) is None,
        quiesce(data, rules).0.len() == data.len(),
        forall|k: int| 0 <= k < data.len() * 8 && #[trigger] has_putty(quiesce(data, rules).0, k) ==> has_putty(data, k),
    decreases putty_count(data, data.len() * 8),
{
    lemma_first_enabled(data, rules, 0);
    match first_enabled_from(data, rules, 0) {
        None => {},
        Some(i) => {
            let r = rules[i];
            lemma_fire_decreases(data, r);
            let next = fire_data(data, r);
            law_enter_settles(next, rules);
            let drained = drain_spec(data, r.putter as int, 1);
            lemma_drain_spec(data, r.putter as int, 1);
            lemma_reset_getters(drained, r.getters@);
            assert forall|k: int| 0 <= k < data.len() * 8 && #[trigger] has_putty(quiesce(data, rules).0, k) implies has_putty(
                data,
                k,
            ) by {
                assert(has_putty(next, k));
                assert(has_putty(drained, k));
                if k != r.putter {
                    assert(byte_of(drained, k) == byte_of(data, k));
                }
            }
        },
    }
}

proof fn lemma_first_enabled(data: Seq<u64>, rules: Seq<Rule>, i: int)
    requires
        0 <= i,
    ensures
        first_enabled_from(data, rules, i) matches Some(k) ==> i <= k < rules.len() && enabled(data, rules[k]),
    decreases rules.len() - i,
{
    if i < rules.len() && !enabled(data, rules[i]) {
        lemma_first_enabled(data, rules, i + 1);
    }
}

} // verus!
