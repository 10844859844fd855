use vstd::prelude::*;
use crate::flow::{Flow_struct, NNODES};

verus! {

// ---------------------------------------------------------------------
// Grid points
// ---------------------------------------------------------------------

/// Column (0-based, along the channel) of grid point `ip`.
pub open spec fn node_col(long: bool, mx: int, my: int, ip: int) -> int {
    if long { ip / my } else { ip % mx }
}

/// Row (0-based, across the channel) of grid point `ip`.
pub open spec fn node_row(long: bool, mx: int, my: int, ip: int) -> int {
    if long { ip % my } else { ip / mx }
}

/// Number of the grid point in column `c` and row `r`: up the columns
/// for a long region, along the rows otherwise.
pub open spec fn node_at(long: bool, mx: int, my: int, c: int, r: int) -> int {
    if long { c * my + r } else { r * mx + c }
}

pub proof fn lemma_node_at_col_row(long: bool, mx: int, my: int, ip: int)
    requires
        0 < mx,
        0 < my,
        0 <= ip < mx * my,
    ensures
        0 <= node_col(long, mx, my, ip) < mx,
        0 <= node_row(long, mx, my, ip) < my,
        node_at(long, mx, my, node_col(long, mx, my, ip), node_row(long, mx, my, ip)) == ip,
{
    if long {
        vstd::arithmetic::div_mod::lemma_fundamental_div_mod(ip, my);
        assert(ip / my < mx) by (nonlinear_arith)
            requires 0 <= ip < mx * my, 0 < my, ip == my * (ip / my) + ip % my, 0 <= ip % my;
        assert(0 <= ip / my) by (nonlinear_arith) requires 0 <= ip, 0 < my;
        assert(ip % my < my) by (nonlinear_arith) requires 0 <= ip, 0 < my;
        assert((ip / my) * my == my * (ip / my)) by (nonlinear_arith);
    } else {
        vstd::arithmetic::div_mod::lemma_fundamental_div_mod(ip, mx);
        assert(ip / mx < my) by (nonlinear_arith)
            requires 0 <= ip < mx * my, 0 < mx, ip == mx * (ip / mx) + ip % mx, 0 <= ip % mx;
        assert(0 <= ip / mx) by (nonlinear_arith) requires 0 <= ip, 0 < mx;
        assert(ip % mx < mx) by (nonlinear_arith) requires 0 <= ip, 0 < mx;
        assert((ip / mx) * mx == mx * (ip / mx)) by (nonlinear_arith);
    }
}

pub proof fn lemma_col_row_node_at(long: bool, mx: int, my: int, c: int, r: int)
    requires
        0 <= c < mx,
        0 <= r < my,
    ensures
        0 <= node_at(long, mx, my, c, r) < mx * my,
        node_col(long, mx, my, node_at(long, mx, my, c, r)) == c,
        node_row(long, mx, my, node_at(long, mx, my, c, r)) == r,
{
    if long {
        vstd::arithmetic::div_mod::lemma_fundamental_div_mod_converse(c * my + r, my, c, r);
        assert(c * my + r < mx * my) by (nonlinear_arith) requires 0 <= c < mx, 0 <= r < my;
        assert(0 <= c * my + r) by (nonlinear_arith) requires 0 <= c, 0 <= r, 0 < my;
        assert(c * my == my * c) by (nonlinear_arith);
    } else {
        vstd::arithmetic::div_mod::lemma_fundamental_div_mod_converse(r * mx + c, mx, r, c);
        assert(r * mx + c < mx * my) by (nonlinear_arith) requires 0 <= c < mx, 0 <= r < my;
        assert(0 <= r * mx + c) by (nonlinear_arith) requires 0 <= c, 0 <= r, 0 < mx;
        assert(r * mx == mx * r) by (nonlinear_arith);
    }
}

/// The 1-based column and row `(ic, jc)` of grid point `ip`.
pub fn node_position(long: bool, mx: usize, my: usize, ip: usize) -> (pos: (usize, usize))
    requires
        0 < mx,
        0 < my,
        ip < mx * my,
    ensures
        pos.0 == node_col(long, mx as int, my as int, ip as int) + 1,
        pos.1 == node_row(long, mx as int, my as int, ip as int) + 1,
        1 <= pos.0 <= mx,
        1 <= pos.1 <= my,
        node_at(long, mx as int, my as int, pos.0 - 1, pos.1 - 1) == ip,
{
    proof { lemma_node_at_col_row(long, mx as int, my as int, ip as int); }
    if long {
        (ip / my + 1, ip % my + 1)
    } else {
        (ip % mx + 1, ip / mx + 1)
    }
}

// ---------------------------------------------------------------------
// Unknowns
// ---------------------------------------------------------------------

/// Column 0 between the walls: the inflow profile fixes the horizontal
/// velocity; the vertical one is zero.
pub open spec fn is_inflow(mx: int, my: int, c: int, r: int) -> bool {
    c == 0 && 0 < r < my - 1
}

/// Last column between the walls: the horizontal velocity is unknown, the
/// vertical one is zero.
pub open spec fn is_outflow(mx: int, my: int, c: int, r: int) -> bool {
    !is_inflow(mx, my, c, r) && c == mx - 1 && 0 < r < my - 1
}

/// Bottom or top wall (and not one of the above): both velocities are zero.
pub open spec fn is_wall(mx: int, my: int, c: int, r: int) -> bool {
    !is_inflow(mx, my, c, r) && !is_outflow(mx, my, c, r) && (r == 0 || r == my - 1)
}

/// Number of velocity unknowns at the grid point in column `c`, row `r`.
pub open spec fn velocity_unknowns(mx: int, my: int, c: int, r: int) -> int {
    if is_inflow(mx, my, c, r) {
        0
    } else if is_outflow(mx, my, c, r) {
        1
    } else if is_wall(mx, my, c, r) {
        0
    } else {
        2
    }
}

/// A pressure unknown sits at the points of odd 1-based column and row,
/// the vertices of the elements.
pub open spec fn has_pressure(c: int, r: int) -> bool {
    c % 2 == 0 && r % 2 == 0
}

/// Number of unknowns (velocities, then pressure) at a grid point.
pub open spec fn unknowns_at(mx: int, my: int, c: int, r: int) -> int {
    velocity_unknowns(mx, my, c, r) + if has_pressure(c, r) { 1int } else { 0int }
}

/// Number of unknowns attached to the grid points numbered below `n`.
pub open spec fn unknowns_before(long: bool, mx: int, my: int, n: nat) -> int
    decreases n,
{
    if n == 0 {
        0
    } else {
        let ip = n - 1;
        unknowns_before(long, mx, my, (n - 1) as nat) + unknowns_at(
            mx,
            my,
            node_col(long, mx, my, ip),
            node_row(long, mx, my, ip),
        )
    }
}

/// 1-based number of the horizontal velocity unknown of grid point `ip`;
/// 0 for a zero velocity, -1 for the inflow profile.
pub open spec fn horizontal_number(long: bool, mx: int, my: int, ip: int) -> int {
    let c = node_col(long, mx, my, ip);
    let r = node_row(long, mx, my, ip);
    let b = unknowns_before(long, mx, my, ip as nat);
    if is_inflow(mx, my, c, r) {
        -1
    } else if is_outflow(mx, my, c, r) {
        b + 1
    } else if is_wall(mx, my, c, r) {
        0
    } else {
        b + 1
    }
}

/// 1-based number of the vertical velocity unknown of grid point `ip`; 0
/// for a zero velocity.
pub open spec fn vertical_number(long: bool, mx: int, my: int, ip: int) -> int {
    let c = node_col(long, mx, my, ip);
    let r = node_row(long, mx, my, ip);
    if velocity_unknowns(mx, my, c, r) == 2 {
        unknowns_before(long, mx, my, ip as nat) + 2
    } else {
        0
    }
}

/// 1-based number of the pressure unknown of grid point `ip`; 0 where
/// there is none.
pub open spec fn pressure_number(long: bool, mx: int, my: int, ip: int) -> int {
    let c = node_col(long, mx, my, ip);
    let r = node_row(long, mx, my, ip);
    if has_pressure(c, r) {
        unknowns_before(long, mx, my, ip as nat) + velocity_unknowns(mx, my, c, r) + 1
    } else {
        0
    }
}

pub proof fn lemma_unknowns_at_bounds(mx: int, my: int, c: int, r: int)
    ensures
        0 <= unknowns_at(mx, my, c, r) <= 3,
{
}

pub proof fn lemma_unknowns_before_nonneg(long: bool, mx: int, my: int, n: nat)
    ensures
        0 <= unknowns_before(long, mx, my, n) <= 3 * n,
    decreases n,
{
    if n > 0 {
        lemma_unknowns_before_nonneg(long, mx, my, (n - 1) as nat);
    }
}

pub proof fn lemma_unknowns_before_monotone(long: bool, mx: int, my: int, a: nat, b: nat)
    requires
        a <= b,
    ensures
        0 <= unknowns_before(long, mx, my, a) <= unknowns_before(long, mx, my, b),
        unknowns_before(long, mx, my, b) <= unknowns_before(long, mx, my, a) + 3 * (b - a),
    decreases b,
{
    lemma_unknowns_before_nonneg(long, mx, my, a);
    if a < b {
        lemma_unknowns_before_monotone(long, mx, my, a, (b - 1) as nat);
    }
}


/// The number of the grid point in column `c` and row `r` (0-based).
pub fn node_number(long: bool, mx: usize, my: usize, c: usize, r: usize) -> (ip: usize)
    requires
        c < mx,
        r < my,
        mx * my <= usize::MAX,
    ensures
        ip == node_at(long, mx as int, my as int, c as int, r as int),
        ip < mx * my,
{
    proof { lemma_col_row_node_at(long, mx as int, my as int, c as int, r as int); }
    if long {
        assert(c * my + r < mx * my) by (nonlinear_arith) requires c < mx, r < my;
        c * my + r
    } else {
        assert(r * mx + c < mx * my) by (nonlinear_arith) requires c < mx, r < my;
        r * mx + c
    }
}

// ---------------------------------------------------------------------
// Elements
// ---------------------------------------------------------------------

/// Column offsets of the six nodes of the two triangle shapes inside a
/// 2 by 2 cell: vertices first, then the midpoints of the sides 0-1, 1-2
/// and 2-0.
pub open spec fn shape_col(t: int, k: int) -> int {
    if t == 0 {
        if k == 0 { 0 } else if k == 1 { 2 } else if k == 2 { 2 } else if k == 3 { 1 } else if k == 4 { 2 } else { 1 }
    } else {
        if k == 0 { 0 } else if k == 1 { 0 } else if k == 2 { 2 } else if k == 3 { 0 } else if k == 4 { 1 } else { 1 }
    }
}

/// Row offsets matching [`shape_col`].
pub open spec fn shape_row(t: int, k: int) -> int {
    if t == 0 {
        if k == 0 { 0 } else if k == 1 { 2 } else if k == 2 { 0 } else if k == 3 { 1 } else if k == 4 { 1 } else { 0 }
    } else {
        if k == 0 { 0 } else if k == 1 { 2 } else if k == 2 { 2 } else if k == 3 { 1 } else if k == 4 { 2 } else { 1 }
    }
}

/// Shape of element `e`: the first of each pair is the lower-right
/// triangle of its cell in the long numbering and the upper-left one in
/// the other.
pub open spec fn element_shape(long: bool, e: int) -> int {
    if long { e % 2 } else { 1 - e % 2 }
}

/// Column of the lower-left corner of the cell of element `e`; cells are
/// taken in the order in which the numbering meets their corners.
pub open spec fn element_base_col(long: bool, nx: int, ny: int, e: int) -> int {
    let q = e / 2;
    if long { 2 * (q / (ny - 1)) } else { 2 * (q % (nx - 1)) }
}

/// Row of the lower-left corner of the cell of element `e`.
pub open spec fn element_base_row(long: bool, nx: int, ny: int, e: int) -> int {
    let q = e / 2;
    if long { 2 * (q % (ny - 1)) } else { 2 * (q / (nx - 1)) }
}

/// Column of local node `k` of element `e`.
pub open spec fn element_col(long: bool, nx: int, ny: int, e: int, k: int) -> int {
    element_base_col(long, nx, ny, e) + shape_col(element_shape(long, e), k)
}

/// Row of local node `k` of element `e`.
pub open spec fn element_row(long: bool, nx: int, ny: int, e: int, k: int) -> int {
    element_base_row(long, nx, ny, e) + shape_row(element_shape(long, e), k)
}

/// Global number of local node `k` of element `e`.
pub open spec fn element_node(long: bool, nx: int, ny: int, e: int, k: int) -> int {
    node_at(
        long,
        2 * nx - 1,
        2 * ny - 1,
        element_col(long, nx, ny, e, k),
        element_row(long, nx, ny, e, k),
    )
}

/// Local node `k` of element `e` in a node table stored by columns.
pub open spec fn node_of(node: Seq<usize>, nelemn: int, e: int, k: int) -> int {
    node[e + k * nelemn] as int
}

pub proof fn lemma_slot(nelemn: int, e: int, k: int, e2: int, k2: int)
    requires
        0 <= e < nelemn,
        0 <= e2 < nelemn,
        0 <= k < 6,
        0 <= k2 < 6,
    ensures
        0 <= e + k * nelemn < nelemn * 6,
        (e + k * nelemn == e2 + k2 * nelemn) ==> (e == e2 && k == k2),
{
    assert(0 <= e + k * nelemn < nelemn * 6) by (nonlinear_arith)
        requires 0 <= e < nelemn, 0 <= k < 6;
    if e + k * nelemn == e2 + k2 * nelemn {
        if k < k2 {
            assert(k * nelemn + nelemn <= k2 * nelemn) by (nonlinear_arith)
                requires k < k2, 0 <= nelemn;
        } else if k2 < k {
            assert(k2 * nelemn + nelemn <= k * nelemn) by (nonlinear_arith)
                requires k2 < k, 0 <= nelemn;
        }
    }
}

pub proof fn lemma_element_cell(long: bool, nx: int, ny: int, e: int)
    requires
        2 <= nx,
        2 <= ny,
        0 <= e < 2 * (nx - 1) * (ny - 1),
    ensures
        0 <= element_base_col(long, nx, ny, e),
        element_base_col(long, nx, ny, e) + 2 <= 2 * nx - 2,
        0 <= element_base_row(long, nx, ny, e),
        element_base_row(long, nx, ny, e) + 2 <= 2 * ny - 2,
        element_base_col(long, nx, ny, e) % 2 == 0,
        element_base_row(long, nx, ny, e) % 2 == 0,
{
    let q = e / 2;
    assert(0 <= q < (nx - 1) * (ny - 1)) by (nonlinear_arith)
        requires 0 <= e < 2 * (nx - 1) * (ny - 1), q == e / 2;
    if long {
        vstd::arithmetic::div_mod::lemma_fundamental_div_mod(q, ny - 1);
        assert(q / (ny - 1) < nx - 1) by (nonlinear_arith)
            requires 0 <= q < (nx - 1) * (ny - 1), ny - 1 > 0,
                q == (ny - 1) * (q / (ny - 1)) + q % (ny - 1), 0 <= q % (ny - 1);
        assert(0 <= q / (ny - 1)) by (nonlinear_arith) requires 0 <= q, ny - 1 > 0;
        assert(0 <= q % (ny - 1) < ny - 1) by (nonlinear_arith) requires 0 <= q, ny - 1 > 0;
    } else {
        vstd::arithmetic::div_mod::lemma_fundamental_div_mod(q, nx - 1);
        assert(q / (nx - 1) < ny - 1) by (nonlinear_arith)
            requires 0 <= q < (nx - 1) * (ny - 1), nx - 1 > 0,
                q == (nx - 1) * (q / (nx - 1)) + q % (nx - 1), 0 <= q % (nx - 1);
        assert(0 <= q / (nx - 1)) by (nonlinear_arith) requires 0 <= q, nx - 1 > 0;
        assert(0 <= q % (nx - 1) < nx - 1) by (nonlinear_arith) requires 0 <= q, nx - 1 > 0;
    }
}

fn shape_offset(t: usize, k: usize) -> (o: (usize, usize))
    requires
        t < 2,
        k < 6,
    ensures
        o.0 == shape_col(t as int, k as int),
        o.1 == shape_row(t as int, k as int),
{
    if t == 0 {
        if k == 0 { (0, 0) } else if k == 1 { (2, 2) } else if k == 2 { (2, 0) } else if k == 3 { (1, 1) } else if k == 4 { (2, 1) } else { (1, 0) }
    } else {
        if k == 0 { (0, 0) } else if k == 1 { (0, 2) } else if k == 2 { (2, 2) } else if k == 3 { (0, 1) } else if k == 4 { (1, 2) } else { (1, 1) }
    }
}


/// Numbers the unknowns grid point by grid point: horizontal velocity,
/// vertical velocity, pressure. Returns how many there are.
fn number_unknowns(long: bool, mx: usize, my: usize, indx: &mut Vec<i32>, insc: &mut Vec<i32>) -> (neqn: usize)
    requires
        0 < mx,
        0 < my,
        2 * mx * my <= usize::MAX,
        old(indx)@.len() == 2 * mx * my,
        old(insc)@.len() == mx * my,
        unknowns_before(long, mx as int, my as int, (mx * my) as nat) <= i32::MAX,
    ensures
        neqn == unknowns_before(long, mx as int, my as int, (mx * my) as nat),
        final(indx)@.len() == 2 * mx * my,
        final(insc)@.len() == mx * my,
        forall|ip: int| 0 <= ip < mx * my ==> #[trigger] final(indx)@[ip] == horizontal_number(long, mx as int, my as int, ip),
        forall|ip: int| 0 <= ip < mx * my ==> #[trigger] final(indx)@[ip + mx * my] == vertical_number(long, mx as int, my as int, ip),
        forall|ip: int| 0 <= ip < mx * my ==> #[trigger] final(insc)@[ip] == pressure_number(long, mx as int, my as int, ip),
{
    assert(2 * mx * my == 2 * (mx * my) && mx * my <= 2 * mx * my) by (nonlinear_arith)
        requires 0 < mx, 0 < my;
    let np = mx * my;
    let ghost total = unknowns_before(long, mx as int, my as int, np as nat);
    let mut neqn: usize = 0;
    let mut ip: usize = 0;
    while ip < np
        invariant
            0 < mx,
            0 < my,
            np == mx * my,
            2 * np <= usize::MAX,
            ip <= np,
            indx@.len() == 2 * np,
            insc@.len() == np,
            total == unknowns_before(long, mx as int, my as int, np as nat),
            total <= i32::MAX,
            neqn == unknowns_before(long, mx as int, my as int, ip as nat),
            forall|j: int| 0 <= j < ip ==> #[trigger] indx@[j] == horizontal_number(long, mx as int, my as int, j),
            forall|j: int| 0 <= j < ip ==> #[trigger] indx@[j + np] == vertical_number(long, mx as int, my as int, j),
            forall|j: int| 0 <= j < ip ==> #[trigger] insc@[j] == pressure_number(long, mx as int, my as int, j),
        decreases np - ip,
    {
        proof {
            lemma_unknowns_before_monotone(long, mx as int, my as int, (ip + 1) as nat, np as nat);
            lemma_unknowns_before_monotone(long, mx as int, my as int, ip as nat, (ip + 1) as nat);
        }
        let (ic, jc) = node_position(long, mx, my, ip);
        let icnt = ic % 2;
        let jcnt = jc % 2;
        if ic == 1 && 1 < jc && jc < my {
            // Column 1: the inflow profile gives the horizontal velocity.
            indx.set(ip, -1);
            indx.set(ip + np, 0);
        } else if ic == mx && 1 < jc && jc < my {
            // Column MX: horizontal velocity unknown, vertical one zero.
            neqn = neqn + 1;
            indx.set(ip, neqn as i32);
            indx.set(ip + np, 0);
        } else if jc == 1 || jc == my {
            // Row 1 or row MY: both velocities are zero.
            indx.set(ip, 0);
            indx.set(ip + np, 0);
        } else {
            // Interior point.
            neqn = neqn + 2;
            indx.set(ip, neqn as i32 - 1);
            indx.set(ip + np, neqn as i32);
        }
        // A pressure unknown where both counts are odd.
        if jcnt == 1 && icnt == 1 {
            neqn = neqn + 1;
            insc.set(ip, neqn as i32);
        } else {
            insc.set(ip, 0);
        }
        assert(indx@[ip as int] == horizontal_number(long, mx as int, my as int, ip as int));
        assert(indx@[ip + np] == vertical_number(long, mx as int, my as int, ip as int));
        assert(insc@[ip as int] == pressure_number(long, mx as int, my as int, ip as int));
        ip = ip + 1;
    }
    neqn
}


/// Fills the element table: two triangles per 2 by 2 cell, all of them
/// marked as not isoparametric.
fn build_elements(
    long: bool,
    nx: usize,
    ny: usize,
    nelemn: usize,
    node: &mut Vec<usize>,
    isotri: &mut Vec<i32>,
)
    requires
        1 <= nx,
        1 <= ny,
        nelemn == 2 * (nx - 1) * (ny - 1),
        nelemn * 6 <= usize::MAX,
        2 * (2 * nx - 1) * (2 * ny - 1) <= usize::MAX,
        old(node)@.len() == nelemn * 6,
        old(isotri)@.len() == nelemn,
    ensures
        final(node)@.len() == nelemn * 6,
        final(isotri)@.len() == nelemn,
        forall|e: int, k: int|
            0 <= e < nelemn && 0 <= k < 6 ==> #[trigger] node_of(final(node)@, nelemn as int, e, k)
                == element_node(long, nx as int, ny as int, e, k),
        forall|e: int| 0 <= e < nelemn ==> #[trigger] final(isotri)@[e] == 0,
{
    if nx < 2 || ny < 2 {
        assert(nelemn == 0) by (nonlinear_arith)
            requires nelemn == 2 * (nx - 1) * (ny - 1), nx < 2 || ny < 2, 1 <= nx, 1 <= ny;
        return;
    }
    assert(2 * nx <= 2 * (2 * nx - 1) * (2 * ny - 1) && 2 * ny <= 2 * (2 * nx - 1) * (2 * ny - 1))
        by (nonlinear_arith) requires nx >= 1, ny >= 1;
    let mx = 2 * nx - 1;
    let my = 2 * ny - 1;
    assert(mx * my <= 2 * mx * my) by (nonlinear_arith) requires mx >= 1, my >= 1;
    assert((nx - 1) * (ny - 1) <= 2 * (nx - 1) * (ny - 1)) by (nonlinear_arith)
        requires nx >= 2, ny >= 2;
    let ncell = (nx - 1) * (ny - 1);
    assert(nelemn == 2 * ncell) by (nonlinear_arith)
        requires nelemn == 2 * (nx - 1) * (ny - 1), ncell == (nx - 1) * (ny - 1);
    assert(2 * (nx - 1) * (ny - 1) == 2 * ((nx - 1) * (ny - 1))) by (nonlinear_arith);
    let mut q: usize = 0;
    while q < ncell
        invariant
            2 <= nx,
            2 <= ny,
            mx == 2 * nx - 1,
            my == 2 * ny - 1,
            mx * my <= usize::MAX,
            nelemn == 2 * ncell,
            nelemn * 6 <= usize::MAX,
            ncell == (nx - 1) * (ny - 1),
            q <= ncell,
            node@.len() == nelemn * 6,
            isotri@.len() == nelemn,
            forall|e: int, k: int|
                0 <= e < 2 * q && 0 <= k < 6 ==> #[trigger] node_of(node@, nelemn as int, e, k)
                    == element_node(long, nx as int, ny as int, e, k),
            forall|e: int| 0 <= e < 2 * q ==> #[trigger] isotri@[e] == 0,
        decreases ncell - q,
    {
        // Lower-left corner of the cell.
        let (c0, r0) = if long {
            (2 * (q / (ny - 1)), 2 * (q % (ny - 1)))
        } else {
            (2 * (q % (nx - 1)), 2 * (q / (nx - 1)))
        };
        proof {
            assert(2 * q < 2 * (nx - 1) * (ny - 1)) by (nonlinear_arith)
                requires q < ncell, ncell == (nx - 1) * (ny - 1);
            lemma_element_cell(long, nx as int, ny as int, 2 * q);
            assert((2 * q) / 2 == q);
        }
        let mut kind: usize = 0;
        while kind < 2
            invariant
                2 <= nx,
                2 <= ny,
                mx == 2 * nx - 1,
                my == 2 * ny - 1,
                mx * my <= usize::MAX,
                nelemn == 2 * ncell,
                nelemn * 6 <= usize::MAX,
                ncell == (nx - 1) * (ny - 1),
                q < ncell,
                kind <= 2,
                c0 == element_base_col(long, nx as int, ny as int, 2 * q),
                r0 == element_base_row(long, nx as int, ny as int, 2 * q),
                c0 + 2 <= mx - 1,
                r0 + 2 <= my - 1,
                node@.len() == nelemn * 6,
                isotri@.len() == nelemn,
                forall|e: int, k: int|
                    0 <= e < 2 * q + kind && 0 <= k < 6 ==> #[trigger] node_of(node@, nelemn as int, e, k)
                        == element_node(long, nx as int, ny as int, e, k),
                forall|e: int| 0 <= e < 2 * q + kind ==> #[trigger] isotri@[e] == 0,
            decreases 2 - kind,
        {
            let e = 2 * q + kind;
            let t = if long { kind } else { 1 - kind };
            proof {
                assert(e / 2 == q);
                assert(e % 2 == kind);
                assert(element_base_col(long, nx as int, ny as int, e as int) == c0);
                assert(element_base_row(long, nx as int, ny as int, e as int) == r0);
                assert(element_shape(long, e as int) == t);
            }
            let mut k: usize = 0;
            while k < 6
                invariant
                    mx == 2 * nx - 1,
                    my == 2 * ny - 1,
                    mx * my <= usize::MAX,
                    nelemn == 2 * ncell,
                    nelemn * 6 <= usize::MAX,
                    e == 2 * q + kind,
                    e < nelemn,
                    t < 2,
                    k <= 6,
                    element_base_col(long, nx as int, ny as int, e as int) == c0,
                    element_base_row(long, nx as int, ny as int, e as int) == r0,
                    element_shape(long, e as int) == t,
                    c0 + 2 <= mx - 1,
                    r0 + 2 <= my - 1,
                    node@.len() == nelemn * 6,
                    forall|e2: int, k2: int|
                        0 <= e2 < e && 0 <= k2 < 6 ==> #[trigger] node_of(node@, nelemn as int, e2, k2)
                            == element_node(long, nx as int, ny as int, e2, k2),
                    forall|k2: int|
                        0 <= k2 < k ==> #[trigger] node_of(node@, nelemn as int, e as int, k2)
                            == element_node(long, nx as int, ny as int, e as int, k2),
                decreases 6 - k,
            {
                let (oc, orow) = shape_offset(t, k);
                let ip = node_number(long, mx, my, c0 + oc, r0 + orow);
                proof { lemma_slot(nelemn as int, e as int, k as int, 0, 0); }
                let slot = e + k * nelemn;
                let ghost before = node@;
                node.set(slot, ip);
                proof {
                    assert(node@ == before.update(slot as int, ip));
                    assert(node@.len() == nelemn * 6);
                    assert forall|e2: int, k2: int|
                        0 <= e2 < e && 0 <= k2 < 6 implies #[trigger] node_of(node@, nelemn as int, e2, k2)
                            == element_node(long, nx as int, ny as int, e2, k2) by {
                        lemma_slot(nelemn as int, e as int, k as int, e2, k2);
                        lemma_slot(nelemn as int, e2, k2, e as int, k as int);
                        assert(e2 + k2 * nelemn != slot);
                        assert(node@[e2 + k2 * nelemn] == before[e2 + k2 * nelemn]);
                        assert(node_of(before, nelemn as int, e2, k2) == element_node(long, nx as int, ny as int, e2, k2));
                    }
                    assert forall|k2: int|
                        0 <= k2 < k + 1 implies #[trigger] node_of(node@, nelemn as int, e as int, k2)
                            == element_node(long, nx as int, ny as int, e as int, k2) by {
                        lemma_slot(nelemn as int, e as int, k as int, e as int, k2);
                        lemma_slot(nelemn as int, e as int, k2, e as int, k as int);
                        if k2 == k {
                            assert(node@[slot as int] == ip);
                            assert(node_of(node@, nelemn as int, e as int, k2) == ip);
                            assert(element_col(long, nx as int, ny as int, e as int, k2) == c0 + oc);
                            assert(element_row(long, nx as int, ny as int, e as int, k2) == r0 + orow);
                        }
                        if k2 < k {
                            assert(node_of(before, nelemn as int, e as int, k2) == element_node(long, nx as int, ny as int, e as int, k2));
                        }
                    }
                }
                k = k + 1;
            }
            isotri.set(e, 0);
            kind = kind + 1;
        }
        q = q + 1;
    }
}


impl Flow_struct {
    /// The unknowns of every grid point are numbered as `setgrd` numbers them.
    pub open spec fn unknowns_numbered(&self) -> bool {
        let (long, mx, my, np) = (self.long, self.mx as int, self.my as int, self.np as int);
        &&& self.neqn == unknowns_before(long, mx, my, np as nat)
        &&& forall|ip: int| 0 <= ip < np ==> #[trigger] self.indx@[ip] == horizontal_number(long, mx, my, ip)
        &&& forall|ip: int| 0 <= ip < np ==> #[trigger] self.indx@[ip + np] == vertical_number(long, mx, my, ip)
        &&& forall|ip: int| 0 <= ip < np ==> #[trigger] self.insc@[ip] == pressure_number(long, mx, my, ip)
    }

    /// The element table holds the triangles as `setgrd` builds them.
    pub open spec fn elements_built(&self) -> bool {
        &&& forall|e: int, k: int|
            0 <= e < self.nelemn && 0 <= k < 6 ==> #[trigger] node_of(self.node@, self.nelemn as int, e, k)
                == element_node(self.long, self.nx as int, self.ny as int, e, k)
        &&& forall|e: int| 0 <= e < self.nelemn ==> #[trigger] self.isotri@[e] == 0
    }

    /// The grid is set up: ordering, unknowns and elements.
    pub open spec fn grid_set(&self) -> bool {
        &&& self.dims_wf()
        &&& self.long == (self.ny < self.nx)
        &&& self.unknowns_numbered()
        &&& self.elements_built()
    }
}

/// The fields that only the band, profile and counters touch are equal.
pub open spec fn same_controls(a: Flow_struct, b: Flow_struct) -> bool {
    &&& a.nx == b.nx && a.ny == b.ny && a.maxrow == b.maxrow && a.nelemn == b.nelemn
    &&& a.mx == b.mx && a.my == b.my && a.np == b.np && a.maxeqn == b.maxeqn
    &&& a.nnodes == b.nnodes && a.nquad == b.nquad
    &&& a.nband == b.nband && a.nlband == b.nlband && a.nodex0 == b.nodex0 && a.nrow == b.nrow
    &&& a.iwrite == b.iwrite && a.maxnew == b.maxnew && a.maxsec == b.maxsec && a.npara == b.npara
    &&& a.numnew == b.numnew && a.numsec == b.numsec
    &&& a.iline@ == b.iline@ && a.ipivot@ == b.ipivot@
    &&& a.save_times == b.save_times && a.save_data == b.save_data && a.json == b.json
}

/// Sets up the grid: picks the ordering (up the columns when the region
/// is longer than it is high), numbers the unknowns of every grid point
/// and builds the element table. The number of unknowns never exceeds
/// `maxeqn` (see `lemma_unknowns_within_maxeqn`), so the bound needs no
/// run-time test.
pub fn setgrd(flow: &mut Flow_struct)
    requires
        old(flow).dims_wf(),
        unknowns_before(
            old(flow).ny < old(flow).nx,
            old(flow).mx as int,
            old(flow).my as int,
            old(flow).np as nat,
        ) <= i32::MAX,
    ensures
        final(flow).grid_set(),
        same_controls(*old(flow), *final(flow)),
        final(flow).neqn <= final(flow).maxeqn,
{
    flow.long = flow.ny < flow.nx;
    assert(2 * flow.mx * flow.my == 2 * (flow.mx * flow.my)) by (nonlinear_arith);
    assert(0 <= flow.nx * flow.ny) by (nonlinear_arith);
    let neqn = number_unknowns(flow.long, flow.mx, flow.my, &mut flow.indx, &mut flow.insc);
    flow.neqn = neqn;
    build_elements(flow.long, flow.nx, flow.ny, flow.nelemn, &mut flow.node, &mut flow.isotri);
    proof { lemma_unknowns_within_maxeqn(flow, flow.long); }
}

// ---------------------------------------------------------------------
// Laws of the grid
// ---------------------------------------------------------------------

/// `[a]` when `a` numbers an unknown, nothing otherwise.
pub open spec fn keep_unknown(a: int) -> Seq<int> {
    if a > 0 { seq![a] } else { Seq::<int>::empty() }
}

/// The unknown numbers found at the grid points below `n`, point by point
/// in the order horizontal velocity, vertical velocity, pressure.
pub open spec fn listed_unknowns(indx: Seq<i32>, insc: Seq<i32>, np: int, n: nat) -> Seq<int>
    decreases n,
{
    if n == 0 {
        Seq::<int>::empty()
    } else {
        let ip = n - 1;
        listed_unknowns(indx, insc, np, (n - 1) as nat) + keep_unknown(indx[ip] as int) + keep_unknown(
            indx[ip + np] as int,
        ) + keep_unknown(insc[ip] as int)
    }
}

proof fn lemma_point_unknowns(long: bool, mx: int, my: int, ip: int)
    requires
        0 <= ip,
    ensures
        keep_unknown(horizontal_number(long, mx, my, ip)) + keep_unknown(vertical_number(long, mx, my, ip))
            + keep_unknown(pressure_number(long, mx, my, ip)) =~= Seq::new(
            unknowns_at(mx, my, node_col(long, mx, my, ip), node_row(long, mx, my, ip)) as nat,
            |i: int| unknowns_before(long, mx, my, ip as nat) + 1 + i,
        ),
{
    lemma_unknowns_before_nonneg(long, mx, my, ip as nat);
}

proof fn lemma_listed_prefix(flow: &Flow_struct, n: nat)
    requires
        flow.dims_wf(),
        flow.unknowns_numbered(),
        n <= flow.np,
    ensures
        listed_unknowns(flow.indx@, flow.insc@, flow.np as int, n) =~= Seq::new(
            unknowns_before(flow.long, flow.mx as int, flow.my as int, n) as nat,
            |i: int| i + 1,
        ),
    decreases n,
{
    let (long, mx, my, np) = (flow.long, flow.mx as int, flow.my as int, flow.np as int);
    if n > 0 {
        let ip = n - 1;
        lemma_listed_prefix(flow, (n - 1) as nat);
        lemma_point_unknowns(long, mx, my, ip);
        lemma_unknowns_before_nonneg(long, mx, my, (n - 1) as nat);
        lemma_unknowns_at_bounds(mx, my, node_col(long, mx, my, ip), node_row(long, mx, my, ip));
        assert(flow.indx@[ip] == horizontal_number(long, mx, my, ip));
        assert(flow.indx@[ip + np] == vertical_number(long, mx, my, ip));
        assert(flow.insc@[ip] == pressure_number(long, mx, my, ip));
    }
}

/// The unknowns are numbered consecutively: read grid point by grid point
/// (horizontal velocity, vertical velocity, pressure), the positive
/// numbers are exactly 1, 2, ..., `neqn`, each once.
pub proof fn lemma_unknowns_consecutive(flow: &Flow_struct)
    requires
        flow.dims_wf(),
        flow.unknowns_numbered(),
    ensures
        listed_unknowns(flow.indx@, flow.insc@, flow.np as int, flow.np as nat) =~= Seq::new(
            flow.neqn as nat,
            |i: int| i + 1,
        ),
{
    lemma_listed_prefix(flow, flow.np as nat);
}


/// Twice the signed area, in grid steps, of the triangle with vertices at
/// grid points `a`, `b`, `c`: the determinant that the basis functions
/// divide by, up to the grid spacings.
pub open spec fn grid_det(long: bool, mx: int, my: int, a: int, b: int, c: int) -> int {
    let (ca, ra) = (node_col(long, mx, my, a), node_row(long, mx, my, a));
    let (cb, rb) = (node_col(long, mx, my, b), node_row(long, mx, my, b));
    let (cc, rc) = (node_col(long, mx, my, c), node_row(long, mx, my, c));
    (cb - ca) * (rc - ra) - (cc - ca) * (rb - ra)
}

/// Every element is a proper Taylor-Hood triangle of the grid: its six
/// nodes are grid points; the three vertices carry a pressure unknown and
/// the three midside nodes none; local nodes 3, 4, 5 are the midpoints of
/// the sides 0-1, 1-2, 2-0; and all triangles have the same orientation
/// and the same nonzero area (the determinant that the basis functions
/// divide by is -4 grid cells).
pub proof fn lemma_element_geometry(flow: &Flow_struct, e: int)
    requires
        flow.dims_wf(),
        flow.unknowns_numbered(),
        flow.elements_built(),
        0 <= e < flow.nelemn,
    ensures
        forall|k: int| 0 <= k < 6 ==> 0 <= #[trigger] node_of(flow.node@, flow.nelemn as int, e, k) < flow.np,
        forall|k: int|
            0 <= k < 3 ==> flow.insc@[#[trigger] node_of(flow.node@, flow.nelemn as int, e, k)] > 0,
        forall|k: int|
            3 <= k < 6 ==> flow.insc@[#[trigger] node_of(flow.node@, flow.nelemn as int, e, k)] == 0,
        ({
            let (long, mx, my) = (flow.long, flow.mx as int, flow.my as int);
            let n = |k: int| node_of(flow.node@, flow.nelemn as int, e, k);
            let col = |k: int| node_col(long, mx, my, n(k));
            let row = |k: int| node_row(long, mx, my, n(k));
            &&& 2 * col(3) == col(0) + col(1) && 2 * row(3) == row(0) + row(1)
            &&& 2 * col(4) == col(1) + col(2) && 2 * row(4) == row(1) + row(2)
            &&& 2 * col(5) == col(2) + col(0) && 2 * row(5) == row(2) + row(0)
            &&& grid_det(long, mx, my, n(0), n(1), n(2)) == -4
        }),
{
    let (long, nx, ny, mx, my) = (flow.long, flow.nx as int, flow.ny as int, flow.mx as int, flow.my as int);
    assert(nx >= 2 && ny >= 2) by (nonlinear_arith)
        requires 0 <= e < flow.nelemn, flow.nelemn == 2 * (nx - 1) * (ny - 1), nx >= 1, ny >= 1;
    lemma_element_cell(long, nx, ny, e);
    let c0 = element_base_col(long, nx, ny, e);
    let r0 = element_base_row(long, nx, ny, e);
    let t = element_shape(long, e);
    assert(t == 0 || t == 1);
    assert forall|k: int| 0 <= k < 6 implies {
        &&& node_col(long, mx, my, node_of(flow.node@, flow.nelemn as int, e, k)) == c0 + shape_col(t, k)
        &&& node_row(long, mx, my, node_of(flow.node@, flow.nelemn as int, e, k)) == r0 + shape_row(t, k)
        &&& 0 <= node_of(flow.node@, flow.nelemn as int, e, k) < flow.np
    } by {
        assert(node_of(flow.node@, flow.nelemn as int, e, k) == element_node(long, nx, ny, e, k));
        lemma_col_row_node_at(long, mx, my, c0 + shape_col(t, k), r0 + shape_row(t, k));
    }
    assert forall|k: int| 0 <= k < 3 implies flow.insc@[#[trigger] node_of(flow.node@, flow.nelemn as int, e, k)] > 0 by {
        let ip = node_of(flow.node@, flow.nelemn as int, e, k);
        assert(flow.insc@[ip] == pressure_number(long, mx, my, ip));
        lemma_unknowns_before_nonneg(long, mx, my, ip as nat);
        assert(has_pressure(node_col(long, mx, my, ip), node_row(long, mx, my, ip)));
    }
    assert forall|k: int| 3 <= k < 6 implies flow.insc@[#[trigger] node_of(flow.node@, flow.nelemn as int, e, k)] == 0 by {
        let ip = node_of(flow.node@, flow.nelemn as int, e, k);
        assert(flow.insc@[ip] == pressure_number(long, mx, my, ip));
        assert(!has_pressure(node_col(long, mx, my, ip), node_row(long, mx, my, ip)));
    }
    let n = |k: int| node_of(flow.node@, flow.nelemn as int, e, k);
    let col = |k: int| node_col(long, mx, my, n(k));
    let row = |k: int| node_row(long, mx, my, n(k));
    assert(col(0) == c0 + shape_col(t, 0) && row(0) == r0 + shape_row(t, 0));
    assert(col(1) == c0 + shape_col(t, 1) && row(1) == r0 + shape_row(t, 1));
    assert(col(2) == c0 + shape_col(t, 2) && row(2) == r0 + shape_row(t, 2));
    assert(col(3) == c0 + shape_col(t, 3) && row(3) == r0 + shape_row(t, 3));
    assert(col(4) == c0 + shape_col(t, 4) && row(4) == r0 + shape_row(t, 4));
    assert(col(5) == c0 + shape_col(t, 5) && row(5) == r0 + shape_row(t, 5));
    if t == 0 {
        assert(grid_det(long, mx, my, n(0), n(1), n(2)) == 2 * 0 - 2 * 2);
    } else {
        assert(grid_det(long, mx, my, n(0), n(1), n(2)) == 0 * 2 - 2 * 2);
    }
}


/// Every unknown number stored in the grid lies between -1 and `neqn`;
/// only the inflow columns hold -1, and only horizontal velocities.
pub proof fn lemma_numbers_bounded(flow: &Flow_struct, ip: int)
    requires
        flow.dims_wf(),
        flow.unknowns_numbered(),
        0 <= ip < flow.np,
    ensures
        -1 <= flow.indx@[ip] <= flow.neqn,
        0 <= flow.indx@[ip + flow.np] <= flow.neqn,
        0 <= flow.insc@[ip] <= flow.neqn,
{
    let (long, mx, my, np) = (flow.long, flow.mx as int, flow.my as int, flow.np as int);
    assert(flow.indx@[ip] == horizontal_number(long, mx, my, ip));
    assert(flow.indx@[ip + np] == vertical_number(long, mx, my, ip));
    assert(flow.insc@[ip] == pressure_number(long, mx, my, ip));
    lemma_unknowns_before_monotone(long, mx, my, (ip + 1) as nat, np as nat);
    lemma_unknowns_before_nonneg(long, mx, my, ip as nat);
}


/// Grid point `q * blk + t` (with `t < blk`) sits in block `q` (a column
/// when the numbering runs up the columns, a row otherwise) at position `t`.
proof fn lemma_block_position(long: bool, mx: int, my: int, q: int, t: int)
    requires
        0 < mx,
        0 < my,
        0 <= t < (if long { my } else { mx }),
        0 <= q,
    ensures
        ({
            let ip = q * (if long { my } else { mx }) + t;
            let c = node_col(long, mx, my, ip);
            let r = node_row(long, mx, my, ip);
            &&& has_pressure(c, r) == (q % 2 == 0 && t % 2 == 0)
            &&& 0 <= ip
        }),
{
    let blk = if long { my } else { mx };
    vstd::arithmetic::div_mod::lemma_fundamental_div_mod_converse(q * blk + t, blk, q, t);
    assert(q * blk == blk * q) by (nonlinear_arith);
    assert(0 <= q * blk) by (nonlinear_arith) requires 0 <= q, 0 < blk;
}

/// Unknowns met inside block `q` before position `t`.
proof fn lemma_block_unknowns(long: bool, mx: int, my: int, q: int, t: int)
    requires
        0 < mx,
        0 < my,
        0 <= t <= (if long { my } else { mx }),
        0 <= q,
    ensures
        ({
            let blk = if long { my } else { mx };
            unknowns_before(long, mx, my, (q * blk + t) as nat) - unknowns_before(long, mx, my, (q * blk) as nat)
                <= 2 * t + (if q % 2 == 0 { (t + 1) / 2 } else { 0 })
        }),
    decreases t,
{
    let blk = if long { my } else { mx };
    assert(0 <= q * blk) by (nonlinear_arith) requires 0 <= q, 0 < blk;
    if t > 0 {
        lemma_block_unknowns(long, mx, my, q, t - 1);
        lemma_block_position(long, mx, my, q, t - 1);
        let ip = q * blk + t - 1;
        lemma_unknowns_at_bounds(mx, my, node_col(long, mx, my, ip), node_row(long, mx, my, ip));
        assert(unknowns_before(long, mx, my, (q * blk + t) as nat) == unknowns_before(long, mx, my, (ip) as nat)
            + unknowns_at(mx, my, node_col(long, mx, my, ip), node_row(long, mx, my, ip)));
    }
}

/// Unknowns met in the first `q` blocks.
proof fn lemma_blocks_unknowns(long: bool, mx: int, my: int, q: int)
    requires
        0 < mx,
        0 < my,
        (if long { my } else { mx }) % 2 == 1,
        0 <= q,
    ensures
        ({
            let blk = if long { my } else { mx };
            unknowns_before(long, mx, my, (q * blk) as nat) <= 2 * (q * blk) + ((q + 1) / 2) * ((blk + 1) / 2)
        }),
    decreases q,
{
    let blk = if long { my } else { mx };
    let h = (blk + 1) / 2;
    if q > 0 {
        lemma_blocks_unknowns(long, mx, my, q - 1);
        lemma_block_unknowns(long, mx, my, q - 1, blk);
        assert((q - 1) * blk + blk == q * blk) by (nonlinear_arith);
        assert((q / 2) * h + (if (q - 1) % 2 == 0 { h } else { 0 }) == ((q + 1) / 2) * h) by (nonlinear_arith)
            requires q > 0, h >= 0;
        assert(((q - 1 + 1) / 2) * h + (if (q - 1) % 2 == 0 { (blk + 1) / 2 } else { 0 }) == ((q + 1) / 2) * h);
        assert(2 * ((q - 1) * blk) + 2 * blk == 2 * (q * blk)) by (nonlinear_arith);
        let a = unknowns_before(long, mx, my, ((q - 1) * blk) as nat);
        let b = unknowns_before(long, mx, my, (q * blk) as nat);
        assert(b - a <= 2 * blk + (if (q - 1) % 2 == 0 { h } else { 0 }));
        assert(a <= 2 * ((q - 1) * blk) + (q / 2) * h);
    } else {
        assert(q * blk == 0) by (nonlinear_arith) requires q == 0;
    }
}

/// A grid never needs more than `maxeqn` unknowns: at most two velocities
/// at each of the `mx * my` points, and a pressure at the `nx * ny`
/// points of odd column and row. So `setgrd` succeeds on every problem
/// that `Flow_struct::new` sets up.
pub proof fn lemma_unknowns_within_maxeqn(flow: &Flow_struct, long: bool)
    requires
        flow.dims_wf(),
    ensures
        unknowns_before(long, flow.mx as int, flow.my as int, flow.np as nat) <= flow.maxeqn,
{
    let (nx, ny, mx, my) = (flow.nx as int, flow.ny as int, flow.mx as int, flow.my as int);
    if long {
        lemma_blocks_unknowns(long, mx, my, mx);
        assert((mx + 1) / 2 == nx && (my + 1) / 2 == ny);
        assert(mx * my == flow.np);
        assert(2 * mx * my + nx * ny == 2 * (mx * my) + nx * ny) by (nonlinear_arith);
    } else {
        lemma_blocks_unknowns(long, mx, my, my);
        assert((mx + 1) / 2 == nx && (my + 1) / 2 == ny);
        assert(my * mx == flow.np) by (nonlinear_arith) requires flow.np == mx * my;
        assert(2 * mx * my + nx * ny == 2 * (my * mx) + ny * nx) by (nonlinear_arith);
    }
}


// ---------------------------------------------------------------------
// Owners of the unknowns
// ---------------------------------------------------------------------

/// `[(ip, comp)]` when `a` numbers an unknown, nothing otherwise.
pub open spec fn keep_owner(a: int, ip: int, comp: int) -> Seq<(usize, usize)> {
    if a > 0 { seq![(ip as usize, comp as usize)] } else { Seq::<(usize, usize)>::empty() }
}

/// The grid point and variable (0 horizontal velocity, 1 vertical
/// velocity, 2 pressure) of each unknown met at the grid points below
/// `n`, in the order of [`listed_unknowns`].
pub open spec fn listed_owners(indx: Seq<i32>, insc: Seq<i32>, np: int, n: nat) -> Seq<(usize, usize)>
    decreases n,
{
    if n == 0 {
        Seq::<(usize, usize)>::empty()
    } else {
        let ip = n - 1;
        listed_owners(indx, insc, np, (n - 1) as nat) + keep_owner(indx[ip] as int, ip, 0) + keep_owner(
            indx[ip + np] as int,
            ip,
            1,
        ) + keep_owner(insc[ip] as int, ip, 2)
    }
}

/// The entry of `indx` or `insc` for variable `comp` of grid point `ip`.
pub open spec fn owner_key(indx: Seq<i32>, insc: Seq<i32>, np: int, o: (usize, usize)) -> int {
    if o.1 == 2 { insc[o.0 as int] as int } else { indx[o.0 + o.1 * np] as int }
}

/// Lists, for each unknown in turn, the grid point and the variable
/// (0 horizontal velocity, 1 vertical velocity, 2 pressure) it belongs to.
pub fn unknown_owners(flow: &Flow_struct) -> (owners: Vec<(usize, usize)>)
    requires
        flow.dims_wf(),
    ensures
        owners@ == listed_owners(flow.indx@, flow.insc@, flow.np as int, flow.np as nat),
{
    let np = flow.np;
    let len = flow.indx.len();
    let mut owners: Vec<(usize, usize)> = Vec::new();
    let mut ip: usize = 0;
    while ip < np
        invariant
            flow.dims_wf(),
            np == flow.np,
            len == 2 * np,
            ip <= np,
            owners@ == listed_owners(flow.indx@, flow.insc@, np as int, ip as nat),
        decreases np - ip,
    {
        if flow.indx[ip] > 0 {
            owners.push((ip, 0));
        }
        if flow.indx[ip + np] > 0 {
            owners.push((ip, 1));
        }
        if flow.insc[ip] > 0 {
            owners.push((ip, 2));
        }
        ip = ip + 1;
        assert(owners@ =~= listed_owners(flow.indx@, flow.insc@, np as int, ip as nat));
    }
    owners
}

proof fn lemma_owners_keys(flow: &Flow_struct, n: nat)
    requires
        flow.dims_wf(),
        n <= flow.np,
    ensures
        listed_owners(flow.indx@, flow.insc@, flow.np as int, n).len() == listed_unknowns(
            flow.indx@,
            flow.insc@,
            flow.np as int,
            n,
        ).len(),
        forall|q: int|
            0 <= q < listed_owners(flow.indx@, flow.insc@, flow.np as int, n).len() ==> owner_key(
                flow.indx@,
                flow.insc@,
                flow.np as int,
                #[trigger] listed_owners(flow.indx@, flow.insc@, flow.np as int, n)[q],
            ) == listed_unknowns(flow.indx@, flow.insc@, flow.np as int, n)[q],
    decreases n,
{
    if n > 0 {
        lemma_owners_keys(flow, (n - 1) as nat);
        let ip = n - 1;
        let np = flow.np as int;
        assert(0 * np == 0 && 1 * np == np);
        let lo = listed_owners(flow.indx@, flow.insc@, np, n);
        let lu = listed_unknowns(flow.indx@, flow.insc@, np, n);
        let po = listed_owners(flow.indx@, flow.insc@, np, (n - 1) as nat);
        let pu = listed_unknowns(flow.indx@, flow.insc@, np, (n - 1) as nat);
        assert forall|q: int| 0 <= q < lo.len() implies owner_key(flow.indx@, flow.insc@, np, #[trigger] lo[q]) == lu[q] by {
            if q < po.len() {
                assert(lo[q] == po[q]);
                assert(lu[q] == pu[q]);
            }
        }
    }
}

/// Reading the unknowns grid point by grid point gives, at position `q`,
/// the owner of unknown `q + 1`: `resid` walks its residuals in this
/// order.
pub proof fn lemma_owners_numbered(flow: &Flow_struct)
    requires
        flow.dims_wf(),
        flow.unknowns_numbered(),
    ensures
        listed_owners(flow.indx@, flow.insc@, flow.np as int, flow.np as nat).len() == flow.neqn,
        forall|q: int|
            0 <= q < flow.neqn ==> owner_key(
                flow.indx@,
                flow.insc@,
                flow.np as int,
                #[trigger] listed_owners(flow.indx@, flow.insc@, flow.np as int, flow.np as nat)[q],
            ) == q + 1,
        forall|q: int|
            0 <= q < flow.neqn ==> {
                let o = #[trigger] listed_owners(flow.indx@, flow.insc@, flow.np as int, flow.np as nat)[q];
                &&& 0 <= o.0 < flow.np
                &&& o.1 < 3
                &&& o.1 == 0 ==> flow.indx@[o.0 as int] == q + 1
                &&& o.1 == 1 ==> flow.indx@[o.0 + flow.np] == q + 1
                &&& o.1 == 2 ==> flow.insc@[o.0 as int] == q + 1
            },
{
    lemma_owners_keys(flow, flow.np as nat);
    lemma_owners_range(flow, flow.np as nat);
    lemma_unknowns_consecutive(flow);
    assert(0 * flow.np == 0 && 1 * flow.np == flow.np);
}

proof fn lemma_owners_range(flow: &Flow_struct, n: nat)
    requires
        flow.dims_wf(),
        n <= flow.np,
    ensures
        forall|q: int|
            0 <= q < listed_owners(flow.indx@, flow.insc@, flow.np as int, n).len() ==> {
                let o = #[trigger] listed_owners(flow.indx@, flow.insc@, flow.np as int, n)[q];
                0 <= o.0 < n && o.1 < 3
            },
    decreases n,
{
    if n > 0 {
        lemma_owners_range(flow, (n - 1) as nat);
        let np = flow.np as int;
        let lo = listed_owners(flow.indx@, flow.insc@, np, n);
        let po = listed_owners(flow.indx@, flow.insc@, np, (n - 1) as nat);
        assert forall|q: int| 0 <= q < lo.len() implies {
            let o = #[trigger] lo[q];
            0 <= o.0 < n && o.1 < 3
        } by {
            if q < po.len() {
                assert(lo[q] == po[q]);
            }
        }
    }
}


/// The elements tile the grid: the 2 by 2 cell whose lower-left corner is
/// in (even) column `c` and row `r` is the cell of elements `2 q` and
/// `2 q + 1` (one of each shape), `q` counting the cells in the order in
/// which the numbering meets their corners.
pub proof fn lemma_cells_tiled(long: bool, nx: int, ny: int, c: int, r: int)
    requires
        2 <= nx,
        2 <= ny,
        c % 2 == 0,
        r % 2 == 0,
        0 <= c <= 2 * nx - 4,
        0 <= r <= 2 * ny - 4,
    ensures
        ({
            let q = if long { (c / 2) * (ny - 1) + r / 2 } else { (r / 2) * (nx - 1) + c / 2 };
            &&& 0 <= q < (nx - 1) * (ny - 1)
            &&& element_base_col(long, nx, ny, 2 * q) == c
            &&& element_base_row(long, nx, ny, 2 * q) == r
            &&& element_base_col(long, nx, ny, 2 * q + 1) == c
            &&& element_base_row(long, nx, ny, 2 * q + 1) == r
            &&& element_shape(long, 2 * q) != element_shape(long, 2 * q + 1)
        }),
{
    let q = if long { (c / 2) * (ny - 1) + r / 2 } else { (r / 2) * (nx - 1) + c / 2 };
    assert((2 * q) / 2 == q && (2 * q + 1) / 2 == q);
    if long {
        vstd::arithmetic::div_mod::lemma_fundamental_div_mod_converse(q, ny - 1, c / 2, r / 2);
        assert((c / 2) * (ny - 1) == (ny - 1) * (c / 2)) by (nonlinear_arith);
        assert(0 <= q < (nx - 1) * (ny - 1)) by (nonlinear_arith)
            requires q == (c / 2) * (ny - 1) + r / 2, 0 <= c / 2 <= nx - 2, 0 <= r / 2 < ny - 1;
    } else {
        vstd::arithmetic::div_mod::lemma_fundamental_div_mod_converse(q, nx - 1, r / 2, c / 2);
        assert((r / 2) * (nx - 1) == (nx - 1) * (r / 2)) by (nonlinear_arith);
        assert(0 <= q < (nx - 1) * (ny - 1)) by (nonlinear_arith)
            requires q == (r / 2) * (nx - 1) + c / 2, 0 <= r / 2 <= ny - 2, 0 <= c / 2 < nx - 1;
    }
}

/// No cell is used twice: elements of different pairs have different
/// cells, and the two elements of a pair have different shapes.
pub proof fn lemma_cells_distinct(long: bool, nx: int, ny: int, e1: int, e2: int)
    requires
        2 <= nx,
        2 <= ny,
        0 <= e1 < 2 * (nx - 1) * (ny - 1),
        0 <= e2 < 2 * (nx - 1) * (ny - 1),
        e1 != e2,
    ensures
        element_base_col(long, nx, ny, e1) != element_base_col(long, nx, ny, e2)
            || element_base_row(long, nx, ny, e1) != element_base_row(long, nx, ny, e2)
            || element_shape(long, e1) != element_shape(long, e2),
{
    let (q1, q2) = (e1 / 2, e2 / 2);
    let d = if long { ny - 1 } else { nx - 1 };
    vstd::arithmetic::div_mod::lemma_fundamental_div_mod(q1, d);
    vstd::arithmetic::div_mod::lemma_fundamental_div_mod(q2, d);
    if q1 / d == q2 / d && q1 % d == q2 % d {
        assert(q1 == q2);
    }
}


/// In a set-up grid every 2 by 2 cell (lower-left corner in even column
/// `c` and row `r`) is covered by the pair of elements `2 q`, `2 q + 1`:
/// both have the lower-left corner as local node 0, and their vertices
/// together are the four corners of the cell.
pub proof fn lemma_grid_tiled(flow: &Flow_struct, c: int, r: int)
    requires
        flow.grid_set(),
        2 <= flow.nx,
        2 <= flow.ny,
        c % 2 == 0,
        r % 2 == 0,
        0 <= c <= flow.mx - 3,
        0 <= r <= flow.my - 3,
    ensures
        ({
            let (long, nx, ny, mx, my, n) = (flow.long, flow.nx as int, flow.ny as int, flow.mx as int, flow.my as int, flow.nelemn as int);
            let q = if long { (c / 2) * (ny - 1) + r / 2 } else { (r / 2) * (nx - 1) + c / 2 };
            let v = |e: int, k: int| node_of(flow.node@, n, e, k);
            let corner = |dc: int, dr: int| node_at(long, mx, my, c + dc, r + dr);
            &&& 0 <= 2 * q && 2 * q + 1 < n
            &&& v(2 * q, 0) == corner(0, 0) && v(2 * q + 1, 0) == corner(0, 0)
            &&& (v(2 * q, 1) == corner(2, 2) || v(2 * q + 1, 1) == corner(2, 2))
            &&& (v(2 * q, 2) == corner(2, 0) || v(2 * q + 1, 2) == corner(2, 0))
            &&& (v(2 * q, 1) == corner(0, 2) || v(2 * q + 1, 1) == corner(0, 2))
        }),
{
    let (long, nx, ny) = (flow.long, flow.nx as int, flow.ny as int);
    lemma_cells_tiled(long, nx, ny, c, r);
    let q = if long { (c / 2) * (ny - 1) + r / 2 } else { (r / 2) * (nx - 1) + c / 2 };
    let n = flow.nelemn as int;
    assert(2 * q + 1 < n) by (nonlinear_arith)
        requires q < (nx - 1) * (ny - 1), n == 2 * (nx - 1) * (ny - 1);
    assert(node_of(flow.node@, n, 2 * q, 0) == element_node(long, nx, ny, 2 * q, 0));
    assert(node_of(flow.node@, n, 2 * q + 1, 0) == element_node(long, nx, ny, 2 * q + 1, 0));
    assert(node_of(flow.node@, n, 2 * q, 1) == element_node(long, nx, ny, 2 * q, 1));
    assert(node_of(flow.node@, n, 2 * q + 1, 1) == element_node(long, nx, ny, 2 * q + 1, 1));
    assert(node_of(flow.node@, n, 2 * q, 2) == element_node(long, nx, ny, 2 * q, 2));
    assert(node_of(flow.node@, n, 2 * q + 1, 2) == element_node(long, nx, ny, 2 * q + 1, 2));
}


/// The two orderings: numbered up the columns (long region), the next
/// point up a column has the next number and the next column starts `my`
/// further on; numbered along the rows, the next point along a row has the
/// next number and the next row starts `mx` further on. Point (0, 0) is 0.
pub proof fn lemma_numbering_steps(long: bool, mx: int, my: int, c: int, r: int)
    ensures
        node_at(long, mx, my, 0, 0) == 0,
        long ==> node_at(long, mx, my, c, r + 1) == node_at(long, mx, my, c, r) + 1,
        long ==> node_at(long, mx, my, c + 1, r) == node_at(long, mx, my, c, r) + my,
        !long ==> node_at(long, mx, my, c + 1, r) == node_at(long, mx, my, c, r) + 1,
        !long ==> node_at(long, mx, my, c, r + 1) == node_at(long, mx, my, c, r) + mx,
{
    assert((c + 1) * my == c * my + my && (r + 1) * mx == r * mx + mx && 0 * my == 0 && 0 * mx == 0)
        by (nonlinear_arith);
}

/// The boundary conditions that the numbering encodes: on the inflow
/// column (first column between the walls) the horizontal velocity is the
/// given profile (-1) and the vertical one zero; on the outflow column the
/// horizontal velocity is unknown and the vertical one zero; on the walls
/// (first and last row) both velocities are zero; at interior points both
/// are unknowns; and a pressure unknown sits exactly at the points of even
/// column and row.
pub proof fn lemma_boundary_conditions(flow: &Flow_struct, ip: int)
    requires
        flow.dims_wf(),
        flow.unknowns_numbered(),
        0 <= ip < flow.np,
    ensures
        ({
            let (mx, my, np) = (flow.mx as int, flow.my as int, flow.np as int);
            let c = node_col(flow.long, mx, my, ip);
            let r = node_row(flow.long, mx, my, ip);
            &&& (c == 0 && 0 < r < my - 1) ==> flow.indx@[ip] == -1 && flow.indx@[ip + np] == 0
            &&& (c != 0 && c == mx - 1 && 0 < r < my - 1) ==> flow.indx@[ip] > 0 && flow.indx@[ip + np] == 0
            &&& (r == 0 || r == my - 1) ==> flow.indx@[ip] == 0 && flow.indx@[ip + np] == 0
            &&& (0 < c < mx - 1 && 0 < r < my - 1) ==> flow.indx@[ip] > 0 && flow.indx@[ip + np] > 0
            &&& (flow.insc@[ip] > 0 <==> (c % 2 == 0 && r % 2 == 0))
            &&& (c % 2 != 0 || r % 2 != 0) ==> flow.insc@[ip] == 0
        }),
{
    let (long, mx, my, np) = (flow.long, flow.mx as int, flow.my as int, flow.np as int);
    assert(flow.indx@[ip] == horizontal_number(long, mx, my, ip));
    assert(flow.indx@[ip + np] == vertical_number(long, mx, my, ip));
    assert(flow.insc@[ip] == pressure_number(long, mx, my, ip));
    lemma_unknowns_before_nonneg(long, mx, my, ip as nat);
}

} // verus!
