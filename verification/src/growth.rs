//! The capacity policy: how large the block is after a push, and when a
//! push has to be refused because the block could not be described in bytes.

use vstd::arithmetic::div_mod::{lemma_fundamental_div_mod, lemma_mod_bound};
use vstd::arithmetic::power2::{
    lemma2_to64, lemma_pow2_pos, lemma_pow2_strictly_increases, lemma_pow2_unfold, pow2,
};
use vstd::prelude::*;

verus! {

/// The number of slots of the first block.
pub const INITIAL_CAPACITY: usize = 4;

/// Why a push did not take place.
#[derive(Clone, Copy, Debug, PartialEq, Eq, Structural)]
pub enum PushError {
    /// The element type occupies no bytes.
    ZeroSized,
    /// The block that the push needs is larger than a block may be.
    CapacityOverflow,
    /// The allocator did not grant the room that the push needs.
    AllocationFailed,
}

/// The capacity after a push into a block of `cap` slots of which `len` are
/// live: the initial capacity where there is no block, the same capacity
/// where a slot is vacant, and twice the capacity where the block is full.
pub open spec fn next_capacity(len: nat, cap: nat) -> nat {
    if cap == 0 {
        INITIAL_CAPACITY as nat
    } else if len < cap {
        cap
    } else {
        2 * cap
    }
}

/// Whether a push into a block of `cap` slots with `len` live elements has
/// to obtain a larger block.
pub open spec fn needs_growth(len: nat, cap: nat) -> bool {
    cap == 0 || len >= cap
}

/// The largest size in bytes of a block whose elements are aligned to
/// `align`: the largest `isize`, rounded down to a multiple of `align`.
pub open spec fn byte_limit(align: nat) -> nat
    recommends
        align > 0,
{
    (isize::MAX as int - (isize::MAX as int) % (align as int)) as nat
}

/// What a push decides before it touches the block: the capacity to go on
/// with, or the reason to refuse.
pub open spec fn push_plan(len: nat, cap: nat, elem_size: nat, elem_align: nat) -> Result<
    nat,
    PushError,
> {
    if elem_size == 0 {
        Err(PushError::ZeroSized)
    } else if !needs_growth(len, cap) {
        Ok(cap)
    } else if next_capacity(len, cap) * elem_size <= byte_limit(elem_align) {
        Ok(next_capacity(len, cap))
    } else {
        Err(PushError::CapacityOverflow)
    }
}

/// Computes [`byte_limit`].
pub fn max_block_bytes(elem_align: usize) -> (limit: usize)
    requires
        elem_align > 0,
    ensures
        limit == byte_limit(elem_align as nat),
{
    let max: usize = isize::MAX as usize;
    let rest: usize = max % elem_align;
    assert(rest <= max) by (nonlinear_arith)
        requires
            rest == max % elem_align,
            elem_align > 0,
    ;
    max - rest
}

/// Computes [`push_plan`] with checked arithmetic.
pub fn plan_push(len: usize, cap: usize, elem_size: usize, elem_align: usize) -> (plan: Result<
    usize,
    PushError,
>)
    requires
        elem_align > 0,
    ensures
        match plan {
            Ok(c) => push_plan(len as nat, cap as nat, elem_size as nat, elem_align as nat) == Ok::<
                nat,
                PushError,
            >(c as nat),
            Err(e) => push_plan(len as nat, cap as nat, elem_size as nat, elem_align as nat)
                == Err::<nat, PushError>(e),
        },
{
    if elem_size == 0 {
        return Err(PushError::ZeroSized);
    }
    if cap != 0 && len < cap {
        return Ok(cap);
    }
    let grown: Option<usize> = if cap == 0 {
        Some(INITIAL_CAPACITY)
    } else {
        cap.checked_mul(2)
    };
    let limit: usize = max_block_bytes(elem_align);
    match grown {
        None => {
            proof {
                lemma_product_exceeds(2 * cap as nat, elem_size as nat, limit as nat);
            }
            Err(PushError::CapacityOverflow)
        },
        Some(new_cap) => match new_cap.checked_mul(elem_size) {
            None => Err(PushError::CapacityOverflow),
            Some(bytes) => if bytes <= limit {
                Ok(new_cap)
            } else {
                Err(PushError::CapacityOverflow)
            },
        },
    }
}

/// Whether `cap` is a capacity that the policy hands out: the initial
/// capacity, doubled any number of times.
pub open spec fn is_block_capacity(cap: nat) -> bool {
    exists|k: nat| cap == INITIAL_CAPACITY * #[trigger] pow2(k)
}

/// The initial capacity is one that the policy hands out.
pub proof fn lemma_initial_block_capacity()
    ensures
        is_block_capacity(INITIAL_CAPACITY as nat),
{
    lemma2_to64();
    assert(INITIAL_CAPACITY as nat == INITIAL_CAPACITY * pow2(0));
}

/// Twice a capacity that the policy hands out is another one.
pub proof fn lemma_block_capacity_doubles(cap: nat)
    requires
        is_block_capacity(cap),
    ensures
        is_block_capacity(2 * cap),
{
    let k = choose|k: nat| cap == INITIAL_CAPACITY * #[trigger] pow2(k);
    lemma_pow2_unfold(k + 1);
    assert(2 * cap == INITIAL_CAPACITY * pow2(k + 1));
}

/// The capacity after `n` pushes into a container that started without a
/// block and never lost an element.
pub open spec fn capacity_after(n: nat) -> nat
    decreases n,
{
    if n == 0 {
        0
    } else {
        next_capacity((n - 1) as nat, capacity_after((n - 1) as nat))
    }
}

/// Whether `cap` is the least capacity that the policy hands out and that
/// holds `n` elements.
pub open spec fn is_least_block_capacity(cap: nat, n: nat) -> bool {
    &&& is_block_capacity(cap)
    &&& cap >= n
    &&& forall|k: nat| INITIAL_CAPACITY * #[trigger] pow2(k) >= n ==> INITIAL_CAPACITY * pow2(k) >= cap
}

/// Whether `cap` holds `n` elements and half of it would not.
spec fn is_tight(cap: nat, n: nat) -> bool {
    &&& is_block_capacity(cap)
    &&& n <= cap
    &&& cap == INITIAL_CAPACITY || cap < 2 * n
}

/// A capacity that holds `n` elements, and whose half would not, is the
/// least one that does.
proof fn lemma_tight_is_least(cap: nat, n: nat)
    requires
        is_tight(cap, n),
    ensures
        is_least_block_capacity(cap, n),
{
    let k = choose|k: nat| cap == INITIAL_CAPACITY * #[trigger] pow2(k);
    assert forall|j: nat| INITIAL_CAPACITY * #[trigger] pow2(j) >= n implies INITIAL_CAPACITY
        * pow2(j) >= cap by {
        if j < k {
            lemma_pow2_pos(j);
            lemma_pow2_unfold(j + 1);
            if j + 1 < k {
                lemma_pow2_strictly_increases(j + 1, k);
            }
        } else if j > k {
            lemma_pow2_strictly_increases(k, j);
        }
    }
}

/// One more push keeps the capacity tight.
proof fn lemma_tight_step(cap: nat, n: nat)
    requires
        n == 0 && cap == 0 || n > 0 && is_tight(cap, n),
    ensures
        is_tight(next_capacity(n, cap), n + 1),
{
    if cap == 0 {
        lemma_initial_block_capacity();
    } else {
        let k = choose|k: nat| cap == INITIAL_CAPACITY * #[trigger] pow2(k);
        lemma_pow2_pos(k);
        if n >= cap {
            lemma_block_capacity_doubles(cap);
        }
    }
}

/// The capacities of a container that is only pushed to are tight.
proof fn lemma_capacity_after_is_tight(n: nat)
    requires
        n > 0,
    ensures
        is_tight(capacity_after(n), n),
    decreases n,
{
    if n > 1 {
        lemma_capacity_after_is_tight((n - 1) as nat);
    }
    lemma_tight_step(capacity_after((n - 1) as nat), (n - 1) as nat);
}

/// The growth law: after `n` pushes into a container that started without
/// a block, the capacity is the least one among the initial capacity and
/// its doublings that holds `n` elements.
pub proof fn lemma_growth_law(n: nat)
    requires
        n > 0,
    ensures
        is_least_block_capacity(capacity_after(n), n),
{
    lemma_capacity_after_is_tight(n);
    lemma_tight_is_least(capacity_after(n), n);
}

/// A size in bytes that is a multiple of the alignment and fits `isize`
/// is within the byte limit: rounding the limit down takes nothing from it.
/// The size of a type is a multiple of its alignment, and so is the size of
/// a block of its values.
pub proof fn lemma_aligned_block_fits(count: nat, elem_size: nat, elem_align: nat)
    requires
        elem_align > 0,
        elem_size % elem_align == 0,
        count * elem_size <= isize::MAX,
    ensures
        count * elem_size <= byte_limit(elem_align),
{
    let max = isize::MAX as int;
    let align = elem_align as int;
    let size = elem_size as int;
    let per_elem = size / align;
    let units = count * per_elem;
    lemma_fundamental_div_mod(size, align);
    lemma_fundamental_div_mod(max, align);
    lemma_mod_bound(max, align);
    assert(count * size == units * align) by (nonlinear_arith)
        requires
            size == align * per_elem,
            units == count * per_elem,
    ;
    assert(units * align <= max - max % align) by (nonlinear_arith)
        requires
            units * align <= max,
            max == align * (max / align) + max % align,
            0 <= max % align < align,
    ;
}

/// A product with a positive factor is at least the other factor.
proof fn lemma_product_exceeds(count: nat, elem_size: nat, limit: nat)
    requires
        elem_size > 0,
        count > limit,
    ensures
        count * elem_size > limit,
{
    assert(count * elem_size >= count) by (nonlinear_arith)
        requires
            elem_size >= 1,
    ;
}

} // verus!
