//! The identifier allocator: one bit per identifier in a bitmap that grows
//! by fixed-size blocks and never shrinks. The lowest clear bit wins, so
//! released identifiers are reused before the map grows.

use vstd::prelude::*;

use crate::id::ID;

verus! {

/// The bitmap grows by this many bytes at a time.
pub const BLOCK_SIZE: usize = 512;

/// Ceiling on the bitmap size, so that `8 * byte_index + bit_index` always
/// fits in 64 bits.
pub const MAX_BYTES: u64 = 0x0100_0000_0000_0000;

/// Whether bit `i` (lowest first) of `byte` is set.
pub open spec fn spec_bit_set(byte: u8, i: u8) -> bool {
    byte & (1u8 << i) != 0
}

/// Setting one bit touches exactly that bit.
pub proof fn lemma_set_bit(byte: u8, i: u8)
    by (bit_vector)
    requires
        i < 8,
    ensures
        spec_bit_set(byte | (1u8 << i), i),
        forall|j: u8|
            j < 8 && j != i ==> spec_bit_set(byte | (1u8 << i), j) == spec_bit_set(byte, j),
{
}

/// Clearing one bit touches exactly that bit.
pub proof fn lemma_clear_bit(byte: u8, i: u8)
    by (bit_vector)
    requires
        i < 8,
    ensures
        !spec_bit_set(byte & !(1u8 << i), i),
        forall|j: u8|
            j < 8 && j != i ==> spec_bit_set(byte & !(1u8 << i), j) == spec_bit_set(byte, j),
{
}

/// A full byte has every bit set; an empty byte none.
pub proof fn lemma_byte_extremes(b: u8)
    by (bit_vector)
    ensures
        b == 0xFF ==> forall|j: u8| j < 8 ==> spec_bit_set(b, j),
        b == 0x00 ==> forall|j: u8| j < 8 ==> !spec_bit_set(b, j),
{
}

/// The index of the lowest clear bit of a byte that is not all ones.
pub fn find_zero_in_byte(byte: u8) -> (r: usize)
    requires
        byte != 0xFF,
    ensures
        r < 8,
        !spec_bit_set(byte, r as u8),
        forall|j: u8| j < r ==> spec_bit_set(byte, j),
{
    let mut j: u8 = 0;
    while j < 8
        invariant
            0 <= j <= 8,
            byte != 0xFF,
            forall|k: u8| k < j ==> spec_bit_set(byte, k),
        decreases 8 - j,
    {
        if byte & (1u8 << j) == 0 {
            return j as usize;
        }
        j = j + 1;
    }
    proof {
        assert(byte == 0xFF) by (bit_vector)
            requires
                spec_bit_set(byte, 0) && spec_bit_set(byte, 1) && spec_bit_set(byte, 2)
                    && spec_bit_set(byte, 3) && spec_bit_set(byte, 4) && spec_bit_set(byte, 5)
                    && spec_bit_set(byte, 6) && spec_bit_set(byte, 7),
        ;
        assert(false);
    }
    0
}

/// Returns `byte` with bit `index` set.
pub fn set_one_in_byte(byte: u8, index: usize) -> (r: u8)
    requires
        index < 8,
    ensures
        r == byte | (1u8 << (index as u8)),
{
    byte | (1u8 << (index as u8))
}

/// Returns `byte` with bit `index` cleared.
pub fn set_zero_in_byte(byte: u8, index: usize) -> (r: u8)
    requires
        index < 8,
    ensures
        r == byte & !(1u8 << (index as u8)),
{
    byte & !(1u8 << (index as u8))
}

/// The allocator's backing state: a bit per identifier, set while the
/// identifier is out. The caller persists the bytes; this type owns the
/// first-fit policy.
pub struct AvailableIDList {
    bytes: Vec<u8>,
}

impl AvailableIDList {
    pub closed spec fn spec_bytes(self) -> Seq<u8> {
        self.bytes@
    }

    pub open spec fn spec_byte_count(self) -> int {
        self.spec_bytes().len() as int
    }

    /// Whether `id` is currently issued: its bit is inside the map and set.
    pub open spec fn spec_allocated(self, id: int) -> bool {
        0 <= id < 8 * self.spec_byte_count() && spec_bit_set(
            self.spec_bytes()[id / 8],
            (id % 8) as u8,
        )
    }

    /// Whole blocks only, and small enough that every bit index fits in 64
    /// bits.
    pub open spec fn wf(self) -> bool {
        self.spec_byte_count() % (BLOCK_SIZE as int) == 0 && self.spec_byte_count()
            <= MAX_BYTES as int
    }

    /// A fresh map of one zeroed block: no identifier issued.
    pub fn new() -> (r: Self)
        ensures
            r.wf(),
            r.spec_byte_count() == BLOCK_SIZE as int,
            forall|id: int| !r.spec_allocated(id),
    {
        let mut bytes: Vec<u8> = Vec::new();
        let mut k: usize = 0;
        while k < BLOCK_SIZE
            invariant
                0 <= k <= BLOCK_SIZE,
                bytes@.len() == k,
                forall|i: int| 0 <= i < k ==> bytes@[i] == 0u8,
            decreases BLOCK_SIZE - k,
        {
            bytes.push(0);
            k = k + 1;
        }
        let r = AvailableIDList { bytes };
        proof {
            assert forall|id: int| !r.spec_allocated(id) by {
                if 0 <= id < 8 * r.spec_byte_count() {
                    lemma_byte_extremes(r.spec_bytes()[id / 8]);
                }
            }
        }
        r
    }

    /// Rebuilds the allocator from persisted bytes; `None` when the size is
    /// not a whole number of blocks or too large to index.
    pub fn from_bytes(bytes: Vec<u8>) -> (r: Option<Self>)
        ensures
            match r {
                Some(a) => a.wf() && a.spec_bytes() == bytes@,
                None => bytes@.len() as int % (BLOCK_SIZE as int) != 0 || bytes@.len() as int > MAX_BYTES as int,
            },
    {
        if bytes.len() % BLOCK_SIZE != 0 || bytes.len() as u64 > MAX_BYTES {
            return None;
        }
        Some(AvailableIDList { bytes })
    }

    /// The raw bitmap, for persisting.
    pub fn bytes(&self) -> (r: &Vec<u8>)
        ensures
            r@ == self.spec_bytes(),
    {
        &self.bytes
    }

    pub fn byte_count(&self) -> (r: usize)
        ensures
            r == self.spec_byte_count(),
    {
        self.bytes.len()
    }

    /// Appends one zeroed block.
    fn grow(&mut self)
        requires
            old(self).wf(),
            old(self).spec_byte_count() + BLOCK_SIZE as int <= MAX_BYTES as int,
        ensures
            final(self).wf(),
            final(self).spec_byte_count() == old(self).spec_byte_count() + BLOCK_SIZE as int,
            forall|i: int|
                0 <= i < old(self).spec_byte_count() ==> final(self).spec_bytes()[i] == old(
                    self,
                ).spec_bytes()[i],
            forall|i: int|
                old(self).spec_byte_count() <= i < final(self).spec_byte_count() ==> final(self).spec_bytes()[i] == 0u8,
    {
        let mut k: usize = 0;
        while k < BLOCK_SIZE
            invariant
                0 <= k <= BLOCK_SIZE,
                self.bytes@.len() == old(self).spec_bytes().len() + k,
                forall|i: int|
                    0 <= i < old(self).spec_byte_count() ==> self.bytes@[i] == old(
                        self,
                    ).spec_bytes()[i],
                forall|i: int|
                    old(self).spec_byte_count() <= i < self.bytes@.len() ==> self.bytes@[i] == 0u8,
                old(self).spec_byte_count() + BLOCK_SIZE as int <= MAX_BYTES as int,
            decreases BLOCK_SIZE - k,
        {
            self.bytes.push(0);
            k = k + 1;
        }
    }

    /// Issues the lowest free identifier, growing the map when every bit is
    /// set.
    pub fn grab_id(&mut self) -> (r: ID)
        requires
            old(self).wf(),
            old(self).spec_byte_count() + BLOCK_SIZE as int <= MAX_BYTES as int,
        ensures
            final(self).wf(),
            !old(self).spec_allocated(r.0 as int),
            forall|j: int| 0 <= j < r.0 ==> old(self).spec_allocated(j),
            forall|j: int|
                final(self).spec_allocated(j) == (old(self).spec_allocated(j) || j == r.0 as int),
            final(self).spec_byte_count() == old(self).spec_byte_count() || final(self).spec_byte_count() == old(self).spec_byte_count() + BLOCK_SIZE as int,
    {
        let n = self.bytes.len();
        let mut bi: usize = 0;
        while bi < n && self.bytes[bi] == 0xFF
            invariant
                0 <= bi <= n,
                n == self.spec_byte_count(),
                *self == *old(self),
                forall|k: int| 0 <= k < bi ==> self.spec_bytes()[k] == 0xFFu8,
            decreases n - bi,
        {
            bi = bi + 1;
        }
        if bi == n {
            self.grow();
        }
        proof {
            assert(self.spec_bytes()[bi as int] != 0xFFu8);
            // every identifier below the chosen byte is taken
            let obc = old(self).spec_byte_count();
            let bii = bi as int;
            assert forall|j: int| 0 <= j < 8 * bii implies old(self).spec_allocated(j) by {
                assert(0 <= j / 8 < bii && 0 <= j % 8 < 8) by (nonlinear_arith)
                    requires
                        0 <= j < 8 * bii,
                ;
                lemma_byte_extremes(old(self).spec_bytes()[j / 8]);
                assert(j < 8 * obc) by (nonlinear_arith)
                    requires
                        j < 8 * bii && bii <= obc,
                ;
            }
        }
        let byte = self.bytes[bi];
        let ib = find_zero_in_byte(byte);
        let updated = set_one_in_byte(byte, ib);
        let ghost pre = *self;
        self.bytes.set(bi, updated);
        let id_val: u64 = 8 * (bi as u64) + (ib as u64);
        proof {
            lemma_set_bit(byte, ib as u8);
            let bii = bi as int;
            let ibi = ib as int;
            let idv = id_val as int;
            let obc = old(self).spec_byte_count();
            let fbc = self.spec_byte_count();
            assert(idv / 8 == bii && idv % 8 == ibi) by (nonlinear_arith)
                requires
                    idv == 8 * bii + ibi && 0 <= ibi < 8 && 0 <= bii,
            ;
            assert(id_val / 8 == bi as u64 && id_val % 8 == ib as u64);
            // when the map grew, the fresh byte is zero and the lowest bit wins
            if bii == obc {
                assert(byte == 0u8);
                lemma_byte_extremes(byte);
                if ibi > 0 {
                    assert(spec_bit_set(byte, 0u8));
                    assert(false);
                }
            }
            // the chosen identifier was free
            assert(!old(self).spec_allocated(idv));
            // everything below it was taken
            assert forall|j: int| 0 <= j < idv implies old(self).spec_allocated(j) by {
                assert(j < 8 * bii || (j / 8 == bii && 0 <= j % 8 < ibi)) by (nonlinear_arith)
                    requires
                        0 <= j < idv && idv == 8 * bii + ibi && 0 <= ibi < 8 && 0 <= bii,
                ;
                if !(j < 8 * bii) {
                    assert(bii < obc);
                    assert(old(self).spec_bytes()[bii] == byte);
                    assert(spec_bit_set(byte, (j % 8) as u8));
                    assert(j < 8 * obc) by (nonlinear_arith)
                        requires
                            0 <= j && j / 8 < obc,
                    ;
                }
            }
            // afterwards: exactly the old set plus the new identifier
            assert forall|j: int|
                self.spec_allocated(j) == (old(self).spec_allocated(j) || j == idv) by {
                if 0 <= j < 8 * fbc {
                    assert(0 <= j / 8 < fbc && 0 <= j % 8 < 8) by (nonlinear_arith)
                        requires
                            0 <= j < 8 * fbc,
                    ;
                    if j / 8 == bii {
                        if j != idv {
                            assert(j % 8 != ibi) by (nonlinear_arith)
                                requires
                                    j / 8 == bii && 0 <= j % 8 < 8 && j != idv && idv == 8 * bii
                                        + ibi && 0 <= ibi < 8 && 0 <= j,
                            ;
                        }
                        if bii < obc {
                            assert(old(self).spec_bytes()[bii] == byte);
                            assert(0 <= j < 8 * obc) by (nonlinear_arith)
                                requires
                                    0 <= j && j / 8 < obc,
                            ;
                        } else {
                            assert(!(j < 8 * obc)) by (nonlinear_arith)
                                requires
                                    j / 8 == bii && bii >= obc && 0 <= j,
                            ;
                            assert(!old(self).spec_allocated(j));
                            lemma_byte_extremes(byte);
                            assert(byte == 0u8);
                            assert(self.spec_bytes()[j / 8] == updated);
                            if j == idv {
                                assert(spec_bit_set(updated, ib as u8));
                            } else {
                                assert(spec_bit_set(updated, (j % 8) as u8) == spec_bit_set(
                                    byte,
                                    (j % 8) as u8,
                                ));
                                assert(!spec_bit_set(byte, (j % 8) as u8));
                            }
                        }
                    } else {
                        assert(self.spec_bytes()[j / 8] == pre.spec_bytes()[j / 8]);
                        if j / 8 < obc {
                            assert(pre.spec_bytes()[j / 8] == old(self).spec_bytes()[j / 8]);
                            assert(0 <= j < 8 * obc) by (nonlinear_arith)
                                requires
                                    0 <= j && j / 8 < obc,
                            ;
                        } else {
                            assert(pre.spec_bytes()[j / 8] == 0u8);
                            lemma_byte_extremes(0u8);
                            assert(!(j < 8 * obc)) by (nonlinear_arith)
                                requires
                                    0 <= j && j / 8 >= obc,
                            ;
                            assert(j != idv);
                        }
                    }
                } else {
                    assert(j != idv) by (nonlinear_arith)
                        requires
                            !(0 <= j < 8 * fbc) && idv == 8 * bii + ibi && 0 <= bii && bii < fbc
                                && 0 <= ibi < 8,
                    ;
                    assert(!(0 <= j < 8 * obc)) by (nonlinear_arith)
                        requires
                            !(0 <= j < 8 * fbc) && obc <= fbc,
                    ;
                }
            }
        }
        ID(id_val)
    }

    /// Returns an identifier to the pool; an identifier beyond the map is a
    /// silent no-op.
    pub fn release_id(&mut self, id: ID)
        requires
            old(self).wf(),
        ensures
            final(self).wf(),
            final(self).spec_byte_count() == old(self).spec_byte_count(),
            forall|j: int|
                final(self).spec_allocated(j) == (old(self).spec_allocated(j) && j != id.0 as int),
    {
        let n = self.bytes.len();
        proof {
            let ni = n as int;
            assert(8 * ni <= 8 * (MAX_BYTES as int)) by (nonlinear_arith)
                requires
                    ni <= MAX_BYTES as int,
            ;
        }
        if id.0 < 8 * (n as u64) {
            let byte_index = (id.0 / 8) as usize;
            let index_in_byte = (id.0 % 8) as usize;
            proof {
                let idv = id.0 as int;
                let ni = n as int;
                assert(0 <= idv / 8 < ni && 0 <= idv % 8 < 8) by (nonlinear_arith)
                    requires
                        0 <= idv < 8 * ni,
                ;
            }
            let cleared = set_zero_in_byte(self.bytes[byte_index], index_in_byte);
            let ghost pre = *self;
            self.bytes.set(byte_index, cleared);
            proof {
                lemma_clear_bit(pre.spec_bytes()[byte_index as int], index_in_byte as u8);
                let bxi = byte_index as int;
                let idv = id.0 as int;
                let fbc = self.spec_byte_count();
                assert(bxi == idv / 8 && index_in_byte as int == idv % 8);
                assert forall|j: int|
                    self.spec_allocated(j) == (old(self).spec_allocated(j) && j != idv) by {
                    if 0 <= j < 8 * fbc {
                        assert(0 <= j / 8 < fbc && 0 <= j % 8 < 8) by (nonlinear_arith)
                            requires
                                0 <= j < 8 * fbc,
                        ;
                        if j / 8 == bxi {
                            if j != idv {
                                assert(j % 8 != idv % 8) by (nonlinear_arith)
                                    requires
                                        j / 8 == bxi && bxi == idv / 8 && j != idv && 0 <= j && 0
                                            <= idv,
                                ;
                            } else {
                                assert((j % 8) as u8 == index_in_byte as u8);
                            }
                        } else {
                            assert(j != idv) by (nonlinear_arith)
                                requires
                                    j / 8 != bxi && bxi == idv / 8,
                            ;
                        }
                    }
                }
            }
        } else {
            proof {
                let idv = id.0 as int;
                let ni = n as int;
                assert forall|j: int|
                    self.spec_allocated(j) == (old(self).spec_allocated(j) && j != idv) by {
                    if old(self).spec_allocated(idv) {
                        assert(idv < 8 * ni);
                        assert(id.0 < 8 * (n as u64)) by (nonlinear_arith)
                            requires
                                idv < 8 * ni && idv == id.0 as int && ni == n as u64,
                        ;
                        assert(false);
                    }
                }
            }
        }
    }
}

/// From a state whose issued identifiers are exactly `{0, ..., n-1}`, the
/// allocator hands out `n` next: repeated grabs with no releases count up
/// from zero.
pub proof fn lemma_first_fit_counts_up(
    pre: AvailableIDList,
    post: AvailableIDList,
    r: ID,
    n: int,
)
    requires
        0 <= n,
        forall|j: int| pre.spec_allocated(j) == (0 <= j < n),
        !pre.spec_allocated(r.0 as int),
        forall|j: int| 0 <= j < r.0 ==> pre.spec_allocated(j),
        forall|j: int| post.spec_allocated(j) == (pre.spec_allocated(j) || j == r.0 as int),
    ensures
        r.0 == n,
        forall|j: int| post.spec_allocated(j) == (0 <= j < n + 1),
{
    assert(r.0 >= n);
    if r.0 > n {
        assert(pre.spec_allocated(n));
    }
}

/// The lowest free identifier depends only on which identifiers are issued:
/// releasing an identifier and grabbing again returns the same one.
pub proof fn lemma_smallest_free_unique(
    a: AvailableIDList,
    b: AvailableIDList,
    r1: int,
    r2: int,
)
    requires
        0 <= r1,
        0 <= r2,
        forall|j: int| a.spec_allocated(j) == b.spec_allocated(j),
        !a.spec_allocated(r1),
        forall|j: int| 0 <= j < r1 ==> a.spec_allocated(j),
        !b.spec_allocated(r2),
        forall|j: int| 0 <= j < r2 ==> b.spec_allocated(j),
    ensures
        r1 == r2,
{
    if r1 < r2 {
        assert(b.spec_allocated(r1));
    }
    if r2 < r1 {
        assert(a.spec_allocated(r2));
    }
}

} // verus!
