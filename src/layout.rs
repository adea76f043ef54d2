use vstd::arithmetic::div_mod::{
    lemma_fundamental_div_mod, lemma_mod_multiples_basic, lemma_mod_self_0, lemma_small_mod,
};
use vstd::prelude::*;

verus! {

/// Size in bytes of one memory page.
pub const PAGE_SIZE_BYTES: usize = 65536;

/// The smallest multiple of `alignment` that is at least `prev_end`.
pub open spec fn aligned_start(prev_end: int, alignment: int) -> int {
    prev_end + (alignment - prev_end % alignment) % alignment
}

/// Start of a buffer placed right after `prev_end`, under `alignment`.
pub(crate) fn align_up(prev_end: usize, alignment: usize) -> (r: usize)
    requires
        alignment >= 1,
        aligned_start(prev_end as int, alignment as int) <= usize::MAX,
    ensures
        r == aligned_start(prev_end as int, alignment as int),
{
    prev_end + (alignment - prev_end % alignment) % alignment
}

/// Pages needed to hold `extent` bytes: the ceiling of `extent / PAGE_SIZE_BYTES`.
pub open spec fn pages_to_hold(extent: int) -> int {
    if extent % PAGE_SIZE_BYTES as int == 0 {
        extent / PAGE_SIZE_BYTES as int
    } else {
        extent / PAGE_SIZE_BYTES as int + 1
    }
}

/// `aligned_start(p, a)` is a multiple of `a`, lies in `[p, p + a)`, and no multiple of `a`
/// at or after `p` comes before it.
pub proof fn lemma_aligned_start(prev_end: int, alignment: int)
    requires
        prev_end >= 0,
        alignment >= 1,
    ensures
        prev_end <= aligned_start(prev_end, alignment) < prev_end + alignment,
        aligned_start(prev_end, alignment) % alignment == 0,
        forall|k: int|
            k >= prev_end && #[trigger] (k % alignment) == 0 ==> k >= aligned_start(prev_end, alignment),
{
    let p = prev_end;
    let a = alignment;
    let q = p / a;
    let r = p % a;
    assert(p == q * a + r && 0 <= r < a) by {
        lemma_fundamental_div_mod(p, a);
    }
    if r == 0 {
        assert((a - r) % a == 0) by {
            lemma_mod_self_0(a);
        }
    } else {
        assert((a - r) % a == a - r) by {
            lemma_small_mod((a - r) as nat, a as nat);
        }
        assert((q + 1) * a == q * a + a) by (nonlinear_arith);
        assert((q + 1) * a % a == 0) by {
            lemma_mod_multiples_basic(q + 1, a);
        }
    }
    assert forall|k: int| k >= p && #[trigger] (k % a) == 0 implies k >= aligned_start(p, a) by {
        if r != 0 {
            let m = k / a;
            assert(k == m * a) by {
                lemma_fundamental_div_mod(k, a);
            }
            if m <= q {
                assert(m * a <= q * a) by (nonlinear_arith)
                    requires m <= q, a >= 1;
            } else {
                assert(m * a >= (q + 1) * a) by (nonlinear_arith)
                    requires m >= q + 1, a >= 1;
                assert((q + 1) * a == q * a + a) by (nonlinear_arith);
            }
        }
    }
}

} // verus!
