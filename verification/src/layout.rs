use vstd::prelude::*;
use crate::flow::{NNODES, NQUAD};

verus! {

/// Position of entry `k` of element `it` in a per-element table stored
/// by columns (`node`, `xm`, `ym`): `it + k * nelemn`.
pub fn element_slot(it: usize, k: usize, nelemn: usize, width: usize) -> (pos: usize)
    requires
        it < nelemn,
        k < width,
        nelemn * width <= usize::MAX,
    ensures
        pos == it + k * nelemn,
        pos < nelemn * width,
{
    assert(it + k * nelemn < nelemn * width) by (nonlinear_arith)
        requires it < nelemn, k < width;
    it + k * nelemn
}

/// Position in the basis tables of component `comp` (0 value, 1 x
/// derivative, 2 y derivative) of the basis function of local node `iq`
/// of element `it` at its quadrature point `iquad`.
pub open spec fn basis_slot(it: int, iquad: int, iq: int, comp: int, nelemn: int) -> int {
    it + iquad * nelemn + iq * nelemn * NQUAD + comp * nelemn * NQUAD * NNODES
}

/// [`basis_slot`] for the tables `phi` (three components) and `psi` (one).
pub fn basis_index(it: usize, iquad: usize, iq: usize, comp: usize, nelemn: usize) -> (pos: usize)
    requires
        it < nelemn,
        iquad < NQUAD,
        iq < NNODES,
        comp < 3,
        nelemn * 54 <= usize::MAX,
    ensures
        pos == basis_slot(it as int, iquad as int, iq as int, comp as int, nelemn as int),
        pos < nelemn * NQUAD * NNODES * (comp + 1),
        pos == it + (iquad + iq * NQUAD + comp * NQUAD * NNODES) * nelemn,
        pos == basis_slot(it as int, iquad as int, iq as int, 0, nelemn as int) + comp * (nelemn * NQUAD * NNODES),
        nelemn * NQUAD * NNODES * comp <= pos,
{
    assert(iquad * nelemn <= 2 * nelemn && iq * nelemn * 3 <= 15 * nelemn
        && comp * nelemn * 3 * 6 <= 36 * nelemn) by (nonlinear_arith)
        requires iquad < 3, iq < 6, comp < 3;
    assert(iq * nelemn <= 5 * nelemn && comp * nelemn <= 2 * nelemn && comp * nelemn * 3 <= 6 * nelemn)
        by (nonlinear_arith) requires iq < 6, comp < 3;
    let pos = it + iquad * nelemn + iq * nelemn * NQUAD + comp * nelemn * NQUAD * NNODES;
    assert(pos < nelemn * NQUAD * NNODES * (comp + 1)) by (nonlinear_arith)
        requires it < nelemn, iquad < 3, iq < 6, comp < 3,
            pos == it + iquad * nelemn + iq * nelemn * 3 + comp * nelemn * 3 * 6;
    proof {
        lemma_basis_slot_blocks(it as int, iquad as int, iq as int, comp as int, nelemn as int);
        assert(nelemn * 3 * 6 * comp == comp * (nelemn * 3 * 6)) by (nonlinear_arith);
    }
    pos
}

/// The tables hold one block of `nelemn * NQUAD * NNODES` entries per
/// component: the value of a basis function at a quadrature point lies in
/// the first block, and its x and y derivatives at the same offset in the
/// second and third.
pub proof fn lemma_basis_slot_blocks(it: int, iquad: int, iq: int, comp: int, nelemn: int)
    requires
        0 <= it < nelemn,
        0 <= iquad < NQUAD,
        0 <= iq < NNODES,
        0 <= comp < 3,
    ensures
        basis_slot(it, iquad, iq, comp, nelemn) == basis_slot(it, iquad, iq, 0, nelemn) + comp * (nelemn * NQUAD * NNODES),
        0 <= basis_slot(it, iquad, iq, 0, nelemn) < nelemn * NQUAD * NNODES,
        basis_slot(it, iquad, iq, comp, nelemn) == it + (iquad + iq * NQUAD + comp * NQUAD * NNODES) * nelemn,
{
    assert(basis_slot(it, iquad, iq, comp, nelemn) == it + (iquad + iq * 3 + comp * 18) * nelemn
        && basis_slot(it, iquad, iq, 0, nelemn) == it + (iquad + iq * 3) * nelemn
        && comp * (nelemn * 3 * 6) == comp * 18 * nelemn
        && basis_slot(it, iquad, iq, comp, nelemn) == basis_slot(it, iquad, iq, 0, nelemn) + comp * (nelemn * 3 * 6))
        by (nonlinear_arith)
        requires basis_slot(it, iquad, iq, comp, nelemn) == it + iquad * nelemn + iq * nelemn * 3 + comp * nelemn * 3 * 6,
            basis_slot(it, iquad, iq, 0, nelemn) == it + iquad * nelemn + iq * nelemn * 3 + 0 * nelemn * 3 * 6;
    assert(0 <= it + (iquad + iq * 3) * nelemn < nelemn * 3 * 6) by (nonlinear_arith)
        requires 0 <= it < nelemn, 0 <= iquad < 3, 0 <= iq < 6;
}

/// Different basis values (element, quadrature point, local node,
/// component) never share a slot of the tables.
pub proof fn lemma_basis_slot_injective(
    it: int, iquad: int, iq: int, comp: int,
    it2: int, iquad2: int, iq2: int, comp2: int,
    nelemn: int,
)
    requires
        0 <= it < nelemn,
        0 <= iquad < NQUAD,
        0 <= iq < NNODES,
        0 <= comp < 3,
        0 <= it2 < nelemn,
        0 <= iquad2 < NQUAD,
        0 <= iq2 < NNODES,
        0 <= comp2 < 3,
        basis_slot(it, iquad, iq, comp, nelemn) == basis_slot(it2, iquad2, iq2, comp2, nelemn),
    ensures
        it == it2 && iquad == iquad2 && iq == iq2 && comp == comp2,
{
    lemma_basis_slot_blocks(it, iquad, iq, comp, nelemn);
    lemma_basis_slot_blocks(it2, iquad2, iq2, comp2, nelemn);
    let b = iquad + iq * 3 + comp * 18;
    let b2 = iquad2 + iq2 * 3 + comp2 * 18;
    vstd::arithmetic::div_mod::lemma_fundamental_div_mod_converse(it + b * nelemn, nelemn, b, it);
    vstd::arithmetic::div_mod::lemma_fundamental_div_mod_converse(it2 + b2 * nelemn, nelemn, b2, it2);
    assert(b == b2 && it == it2);
}

} // verus!
