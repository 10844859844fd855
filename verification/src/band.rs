use vstd::prelude::*;
use crate::flow::Flow_struct;
use crate::grid::{node_of, same_controls};

verus! {

/// The unknown held in slot `a` (0..18) of element `it`: slot `a` is
/// variable `a % 3` (horizontal velocity, vertical velocity, pressure) of
/// local node `a / 3`.
pub open spec fn slot_var(flow: &Flow_struct, it: int, a: int) -> int {
    let ip = node_of(flow.node@, flow.nelemn as int, it, a / 3);
    if a % 3 == 2 {
        flow.insc@[ip] as int
    } else {
        flow.indx@[ip + (a % 3) * flow.np] as int
    }
}

/// How far below the diagonal the equation of slot `a` reaches the
/// variable of slot `b` in element `it`.
pub open spec fn gap(flow: &Flow_struct, it: int, a: int, b: int) -> int {
    slot_var(flow, it, b) - slot_var(flow, it, a)
}

/// Slots `a` and `b` of element `it` exist and `a` is an unknown.
pub open spec fn coupled(flow: &Flow_struct, it: int, a: int, b: int) -> bool {
    0 <= it < flow.nelemn && 0 <= a < 18 && 0 <= b < 18 && slot_var(flow, it, a) > 0
}

/// `b` is the lower band width of the system: the largest gap between an
/// unknown and any variable of the same element, or 0 when there is no
/// positive gap.
pub open spec fn is_lower_band(flow: &Flow_struct, b: int) -> bool {
    &&& b >= 0
    &&& forall|it: int, a: int, c: int| #[trigger] coupled(flow, it, a, c) ==> gap(flow, it, a, c) <= b
    &&& (b == 0 || exists|it: int, a: int, c: int| #[trigger] coupled(flow, it, a, c) && gap(flow, it, a, c) == b)
}

/// Every local node of every element is a grid point.
pub open spec fn nodes_in_range(flow: &Flow_struct) -> bool {
    forall|e: int, k: int|
        0 <= e < flow.nelemn && 0 <= k < 6 ==> #[trigger] node_of(flow.node@, flow.nelemn as int, e, k) < flow.np
}

/// `(it2, a2, c2)` comes before `(it, a, c)` in the order of the loops.
pub open spec fn lex_before(it2: int, a2: int, c2: int, it: int, a: int, c: int) -> bool {
    it2 < it || (it2 == it && (a2 < a || (a2 == a && c2 < c)))
}

/// `cur` is the band width of the couplings met before `(it, a, c)`.
pub open spec fn band_so_far(flow: &Flow_struct, cur: int, it: int, a: int, c: int) -> bool {
    &&& cur >= 0
    &&& forall|it2: int, a2: int, c2: int|
        #[trigger] coupled(flow, it2, a2, c2) && lex_before(it2, a2, c2, it, a, c) ==> gap(flow, it2, a2, c2) <= cur
    &&& (cur == 0 || exists|it2: int, a2: int, c2: int|
        #[trigger] coupled(flow, it2, a2, c2) && lex_before(it2, a2, c2, it, a, c) && gap(flow, it2, a2, c2) == cur)
}

/// Why the band matrix cannot be stored.
#[derive(Debug, Clone, Copy, PartialEq, Eq, Structural)]
pub enum BandError {
    /// The band needs more rows than `maxrow`.
    TooManyRows,
}

/// The unknown of slot `a` of element `it`.
fn slot_value(flow: &Flow_struct, it: usize, a: usize) -> (v: i64)
    requires
        flow.dims_wf(),
        nodes_in_range(flow),
        it < flow.nelemn,
        a < 18,
    ensures
        v == slot_var(flow, it as int, a as int),
{
    let iq = a / 3;
    let iuk = a % 3;
    proof { crate::grid::lemma_slot(flow.nelemn as int, it as int, iq as int, 0, 0); }
    assert(flow.np * 2 == 2 * flow.np);
    let ip: usize = flow.node[it + iq * flow.nelemn];
    assert(ip == node_of(flow.node@, flow.nelemn as int, it as int, iq as int));
    if iuk == 2 {
        flow.insc[ip] as i64
    } else {
        let len = flow.indx.len();
        assert(ip + iuk * flow.np < len) by (nonlinear_arith)
            requires ip < flow.np, iuk <= 1, len == 2 * flow.np;
        flow.indx[ip + iuk * flow.np] as i64
    }
}

/// Computes the lower band width `nlband` of the system matrix, the total
/// band width `nband = 2 * nlband + 1` and the rows `nrow = 3 * nlband + 1`
/// that the band storage needs (the extra `nlband` rows hold the fill-in
/// of the factorisation). Fails, leaving `flow` as it was, when `nrow`
/// would exceed `maxrow`.
pub fn setban(flow: &mut Flow_struct) -> (res: Result<(), BandError>)
    requires
        old(flow).dims_wf(),
        nodes_in_range(old(flow)),
    ensures
        res is Ok <==> (exists|b: int| is_lower_band(old(flow), b) && 3 * b + 1 <= old(flow).maxrow),
        res is Ok ==> is_lower_band(old(flow), final(flow).nlband as int),
        res is Ok ==> final(flow).nband == 2 * final(flow).nlband + 1,
        res is Ok ==> final(flow).nrow == 3 * final(flow).nlband + 1,
        res is Ok ==> final(flow).nrow <= final(flow).maxrow,
        res is Ok ==> *final(flow) == (Flow_struct {
            nlband: final(flow).nlband,
            nband: final(flow).nband,
            nrow: final(flow).nrow,
            ..*old(flow)
        }),
        res is Err ==> *final(flow) == *old(flow),
{
    let mut cur: i64 = 0;
    let mut it: usize = 0;
    while it < flow.nelemn
        invariant
            flow.dims_wf(),
            nodes_in_range(flow),
            it <= flow.nelemn,
            0 <= cur <= i32::MAX as i64 + 1,
            band_so_far(flow, cur as int, it as int, 0, 0),
        decreases flow.nelemn - it,
    {
        let mut a: usize = 0;
        while a < 18
            invariant
                flow.dims_wf(),
                nodes_in_range(flow),
                it < flow.nelemn,
                a <= 18,
                0 <= cur <= i32::MAX as i64 + 1,
                band_so_far(flow, cur as int, it as int, a as int, 0),
            decreases 18 - a,
        {
            let i = slot_value(flow, it, a);
            if 0 < i {
                let mut c: usize = 0;
                while c < 18
                    invariant
                        flow.dims_wf(),
                        nodes_in_range(flow),
                        it < flow.nelemn,
                        a < 18,
                        c <= 18,
                        i == slot_var(flow, it as int, a as int),
                        0 < i,
                        0 <= cur <= i32::MAX as i64 + 1,
                        band_so_far(flow, cur as int, it as int, a as int, c as int),
                    decreases 18 - c,
                {
                    let j = slot_value(flow, it, c);
                    assert(coupled(flow, it as int, a as int, c as int));
                    if j - i > cur {
                        cur = j - i;
                    }
                    c = c + 1;
                }
            }
            assert(band_so_far(flow, cur as int, it as int, (a + 1) as int, 0));
            a = a + 1;
        }
        assert(band_so_far(flow, cur as int, (it + 1) as int, 0, 0));
        it = it + 1;
    }
    assert(is_lower_band(flow, cur as int));
    if cur as u64 * 3 + 1 > flow.maxrow as u64 {
        return Err(BandError::TooManyRows);
    }
    let nlband = cur as usize;
    flow.nlband = nlband;
    flow.nband = nlband + nlband + 1;
    flow.nrow = nlband + nlband + nlband + 1;
    Ok(())
}


/// Position in the band storage of entry `(i, j)` (0-based) of the system
/// matrix: row `i - j + 2 * nlband` of column `j`, the first `nlband` rows
/// being kept for the fill-in of the factorisation.
pub open spec fn band_slot(i: int, j: int, nlband: int, nrow: int) -> int {
    (i - j + 2 * nlband) + j * nrow
}

/// Where entry `(i, j)` of a band matrix of order `neqn` with `nlband`
/// diagonals on each side lives in its band storage.
pub fn band_position(i: usize, j: usize, nlband: usize, nrow: usize, neqn: usize) -> (pos: usize)
    requires
        i < neqn,
        j < neqn,
        i <= j + nlband,
        j <= i + nlband,
        nrow == 3 * nlband + 1,
        nrow * neqn <= usize::MAX,
    ensures
        pos == band_slot(i as int, j as int, nlband as int, nrow as int),
        pos < nrow * neqn,
        nlband <= pos - j * nrow <= 3 * nlband,
        pos == j * nrow + (i - j + 2 * nlband),
{
    assert(j * nrow + nrow <= nrow * neqn) by (nonlinear_arith) requires j < neqn, nrow >= 1;
    assert(0 <= j * nrow && j <= j * nrow) by (nonlinear_arith) requires nrow >= 1;
    (i + 2 * nlband - j) + j * nrow
}

/// The band storage keeps each diagonal of the matrix in one row: the
/// main diagonal in row `2 * nlband`, the diagonal `d` places below it in
/// row `2 * nlband + d`. So going down a column moves one row down the
/// storage, and going down a diagonal moves one column (`nrow` entries)
/// along it.
pub proof fn lemma_band_slot_diagonals(i: int, j: int, nlband: int, nrow: int)
    ensures
        band_slot(j, j, nlband, nrow) == j * nrow + 2 * nlband,
        band_slot(i + 1, j, nlband, nrow) == band_slot(i, j, nlband, nrow) + 1,
        band_slot(i + 1, j + 1, nlband, nrow) == band_slot(i, j, nlband, nrow) + nrow,
        band_slot(i, j, nlband, nrow) - j * nrow == 2 * nlband + (i - j),
{
    assert((j + 1) * nrow == j * nrow + nrow) by (nonlinear_arith);
}

/// Different entries inside the band never share a position of the band
/// storage.
pub proof fn lemma_band_slot_injective(i: int, j: int, i2: int, j2: int, nlband: int, nrow: int)
    requires
        nrow == 3 * nlband + 1,
        nlband >= 0,
        j - nlband <= i <= j + nlband,
        j2 - nlband <= i2 <= j2 + nlband,
        band_slot(i, j, nlband, nrow) == band_slot(i2, j2, nlband, nrow),
    ensures
        i == i2 && j == j2,
{
    vstd::arithmetic::div_mod::lemma_fundamental_div_mod_converse(
        band_slot(i, j, nlband, nrow), nrow, j, i - j + 2 * nlband);
    vstd::arithmetic::div_mod::lemma_fundamental_div_mod_converse(
        band_slot(i2, j2, nlband, nrow), nrow, j2, i2 - j2 + 2 * nlband);
    assert(j * nrow == nrow * j && j2 * nrow == nrow * j2) by (nonlinear_arith);
}

/// Slot `a` of an element holds the unknown of variable `a % 3` (0
/// horizontal velocity, 1 vertical velocity, 2 pressure) of the element's
/// local node `a / 3`: the same entry that `unknown_owners` lists for that
/// point and variable.
pub proof fn lemma_slot_var_owner(flow: &Flow_struct, it: int, a: int)
    requires
        0 <= a < 18,
    ensures
        ({
            let ip = node_of(flow.node@, flow.nelemn as int, it, a / 3);
            &&& slot_var(flow, it, a) == crate::grid::owner_key(
                flow.indx@, flow.insc@, flow.np as int, (ip as usize, (a % 3) as usize))
            &&& a % 3 == 0 ==> slot_var(flow, it, a) == flow.indx@[ip] as int
            &&& a % 3 == 1 ==> slot_var(flow, it, a) == flow.indx@[ip + flow.np] as int
            &&& a % 3 == 2 ==> slot_var(flow, it, a) == flow.insc@[ip] as int
        }),
{
    assert(0 * flow.np == 0 && 1 * flow.np == flow.np);
}

/// The lower band width spelled out: `b` is at least 0, no variable of an
/// element lies more than `b` above an unknown of the same element, and
/// unless `b` is 0 some variable lies exactly `b` above one. So it is the
/// largest such distance, and there is only one.
pub proof fn lemma_lower_band_explicit(flow: &Flow_struct, b: int, b2: int)
    ensures
        is_lower_band(flow, b) <==> {
            &&& b >= 0
            &&& forall|it: int, a: int, c: int|
                0 <= it < flow.nelemn && 0 <= a < 18 && 0 <= c < 18 && #[trigger] slot_var(flow, it, a) > 0
                    ==> #[trigger] slot_var(flow, it, c) - slot_var(flow, it, a) <= b
            &&& (b == 0 || exists|it: int, a: int, c: int|
                0 <= it < flow.nelemn && 0 <= a < 18 && 0 <= c < 18 && #[trigger] slot_var(flow, it, a) > 0
                    && #[trigger] slot_var(flow, it, c) - slot_var(flow, it, a) == b)
        },
        is_lower_band(flow, b) && is_lower_band(flow, b2) ==> b == b2,
{
    if is_lower_band(flow, b) {
        assert forall|it: int, a: int, c: int|
            0 <= it < flow.nelemn && 0 <= a < 18 && 0 <= c < 18 && #[trigger] slot_var(flow, it, a) > 0
                implies #[trigger] slot_var(flow, it, c) - slot_var(flow, it, a) <= b by {
            assert(coupled(flow, it, a, c));
        }
        if b != 0 {
            let (it, a, c) = choose|it: int, a: int, c: int| #[trigger] coupled(flow, it, a, c) && gap(flow, it, a, c) == b;
            assert(slot_var(flow, it, c) - slot_var(flow, it, a) == b);
        }
    }
    if ({
            &&& b >= 0
            &&& forall|it: int, a: int, c: int|
                0 <= it < flow.nelemn && 0 <= a < 18 && 0 <= c < 18 && #[trigger] slot_var(flow, it, a) > 0
                    ==> #[trigger] slot_var(flow, it, c) - slot_var(flow, it, a) <= b
            &&& (b == 0 || exists|it: int, a: int, c: int|
                0 <= it < flow.nelemn && 0 <= a < 18 && 0 <= c < 18 && #[trigger] slot_var(flow, it, a) > 0
                    && #[trigger] slot_var(flow, it, c) - slot_var(flow, it, a) == b)
        }) {
        assert forall|it: int, a: int, c: int| #[trigger] coupled(flow, it, a, c) implies gap(flow, it, a, c) <= b by {
            assert(slot_var(flow, it, a) > 0);
            assert(slot_var(flow, it, c) - slot_var(flow, it, a) <= b);
        }
        if b != 0 {
            let (it, a, c) = choose|it: int, a: int, c: int|
                0 <= it < flow.nelemn && 0 <= a < 18 && 0 <= c < 18 && #[trigger] slot_var(flow, it, a) > 0
                    && #[trigger] slot_var(flow, it, c) - slot_var(flow, it, a) == b;
            assert(coupled(flow, it, a, c) && gap(flow, it, a, c) == b);
        }
    }
    if is_lower_band(flow, b) && is_lower_band(flow, b2) {
        if b != 0 {
            let (it, a, c) = choose|it: int, a: int, c: int| #[trigger] coupled(flow, it, a, c) && gap(flow, it, a, c) == b;
            assert(gap(flow, it, a, c) <= b2);
        }
        if b2 != 0 {
            let (it, a, c) = choose|it: int, a: int, c: int| #[trigger] coupled(flow, it, a, c) && gap(flow, it, a, c) == b2;
            assert(gap(flow, it, a, c) <= b);
        }
    }
}

/// Once the grid is set up, the elements' nodes are grid points.
pub proof fn lemma_grid_nodes_in_range(flow: &Flow_struct)
    requires
        flow.grid_set(),
    ensures
        nodes_in_range(flow),
{
    assert forall|e: int, k: int|
        0 <= e < flow.nelemn && 0 <= k < 6 implies #[trigger] node_of(flow.node@, flow.nelemn as int, e, k) < flow.np by {
        crate::grid::lemma_element_geometry(flow, e);
    }
}

/// Every entry of the system matrix that an element contributes to, the
/// equation of one of its unknowns against one of its unknowns, lies
/// inside the band that `setban` measured: both unknowns are numbers of
/// equations (1..`neqn`), and the entry's row in the band storage is
/// between `nlband` and `3 * nlband`, inside the `nrow` rows.
pub proof fn lemma_couplings_in_band(flow: &Flow_struct, it: int, a: int, c: int)
    requires
        flow.grid_set(),
        is_lower_band(flow, flow.nlband as int),
        flow.nrow == 3 * flow.nlband + 1,
        0 <= it < flow.nelemn,
        0 <= a < 18,
        0 <= c < 18,
        slot_var(flow, it, a) > 0,
        slot_var(flow, it, c) > 0,
    ensures
        1 <= slot_var(flow, it, a) <= flow.neqn,
        1 <= slot_var(flow, it, c) <= flow.neqn,
        flow.nlband <= (slot_var(flow, it, a) - 1) - (slot_var(flow, it, c) - 1) + 2 * flow.nlband < flow.nrow,
        0 <= band_slot(slot_var(flow, it, a) - 1, slot_var(flow, it, c) - 1, flow.nlband as int, flow.nrow as int)
            < flow.nrow * flow.neqn,
{
    crate::grid::lemma_element_geometry(flow, it);
    let ia = node_of(flow.node@, flow.nelemn as int, it, a / 3);
    let ic = node_of(flow.node@, flow.nelemn as int, it, c / 3);
    crate::grid::lemma_numbers_bounded(flow, ia);
    crate::grid::lemma_numbers_bounded(flow, ic);
    assert(coupled(flow, it, a, c));
    assert(coupled(flow, it, c, a));
    assert(0 * flow.np == 0 && 1 * flow.np == flow.np);
    assert(a % 3 == 0 || a % 3 == 1 || a % 3 == 2);
    assert(c % 3 == 0 || c % 3 == 1 || c % 3 == 2);
    let i = slot_var(flow, it, a) - 1;
    let j = slot_var(flow, it, c) - 1;
    let (b, nrow, neqn) = (flow.nlband as int, flow.nrow as int, flow.neqn as int);
    assert(0 <= (i - j + 2 * b) + j * nrow < nrow * neqn) by (nonlinear_arith)
        requires 0 <= i < neqn, 0 <= j < neqn, i - j + 2 * b < nrow, 0 <= i - j + 2 * b, nrow >= 1;
}

} // verus!
