//! Alignment arithmetic on addresses.

use vstd::prelude::*;

verus! {

/// The number of bytes to add to `addr` to reach the next multiple of `align`.
pub open spec fn padding(addr: int, align: int) -> int {
    if addr % align == 0 {
        0
    } else {
        align - addr % align
    }
}

/// The padding is the least step from `addr` to a multiple of `align`: it is
/// smaller than `align`, it lands on a multiple, and no shorter step does.
pub proof fn lemma_padding_is_least(addr: int, align: int)
    requires
        0 <= addr,
        0 < align,
    ensures
        0 <= padding(addr, align) < align,
        (addr + padding(addr, align)) % align == 0,
        forall|k: int| 0 <= k < padding(addr, align) ==> #[trigger] ((addr + k) % align) != 0,
{
    let r = addr % align;
    let q = addr / align;
    assert(addr == align * q + r && 0 <= r < align) by {
        vstd::arithmetic::div_mod::lemma_fundamental_div_mod(addr, align);
        vstd::arithmetic::div_mod::lemma_mod_bound(addr, align);
    }
    if r != 0 {
        assert((addr + (align - r)) % align == 0) by {
            assert(addr + (align - r) == align * (q + 1)) by (nonlinear_arith)
                requires
                    addr == align * q + r,
            ;
            vstd::arithmetic::div_mod::lemma_mod_multiples_basic(q + 1, align);
            assert(align * (q + 1) == (q + 1) * align) by (nonlinear_arith);
        }
        assert forall|k: int| 0 <= k < align - r implies #[trigger] ((addr + k) % align) != 0 by {
            assert(addr + k == align * q + (r + k));
            vstd::arithmetic::div_mod::lemma_fundamental_div_mod_converse(
                addr + k,
                align,
                q,
                r + k,
            );
        }
    }
}

/// Computes the number of bytes by which `addr` must be advanced to be a
/// multiple of `align`.
pub fn align_address(addr: usize, align: usize) -> (pad: usize)
    requires
        align > 0,
    ensures
        pad == padding(addr as int, align as int),
        pad < align,
        (addr + pad) % (align as int) == 0,
{
    proof {
        lemma_padding_is_least(addr as int, align as int);
    }
    let rem: usize = addr % align;
    if rem != 0 {
        align - rem
    } else {
        0
    }
}

} // verus!
