use vstd::prelude::*;
use crate::flow::Flow_struct;
use crate::grid::{horizontal_number, node_at, node_col, node_row};

verus! {

/// Grid point read for row `i` of the profile line that starts at
/// `nodex0`: up the column in the long numbering, a row further for each
/// step otherwise.
pub open spec fn profile_point(long: bool, mx: int, nodex0: int, i: int) -> int {
    if long { nodex0 + i } else { nodex0 + mx * i }
}

/// First grid point of the profile line in column `itemp`.
pub open spec fn profile_start(long: bool, my: int, itemp: int) -> int {
    if long { itemp * my } else { itemp }
}

/// The profile line through column `itemp` only reads entries of `indx`.
pub open spec fn profile_fits(flow: &Flow_struct, itemp: int) -> bool {
    let nodex0 = profile_start(flow.long, flow.my as int, itemp);
    0 <= itemp && profile_point(flow.long, flow.mx as int, nodex0, flow.my - 1) < 2 * flow.np
}

/// Records the unknown numbers along the profile line through column
/// `itemp` (the column nearest the sampling abscissa): sets `nodex0` to
/// its first grid point and `iline[i]` to the horizontal velocity number
/// read at row `i`.
pub fn setlin(flow: &mut Flow_struct, itemp: usize)
    requires
        old(flow).dims_wf(),
        profile_fits(old(flow), itemp as int),
    ensures
        final(flow).nodex0 == profile_start(old(flow).long, old(flow).my as int, itemp as int),
        final(flow).iline@.len() == old(flow).my,
        forall|i: int|
            0 <= i < old(flow).my ==> #[trigger] final(flow).iline@[i] == old(flow).indx@[profile_point(
                old(flow).long,
                old(flow).mx as int,
                final(flow).nodex0 as int,
                i,
            )],
        *final(flow) == (Flow_struct { nodex0: final(flow).nodex0, iline: final(flow).iline, ..*old(flow) }),
{
    let ghost old_flow = *flow;
    assert(flow.mx >= 1 && flow.my >= 1);
    let len = flow.indx.len();
    let nodex0 = if flow.long {
        assert(itemp * flow.my <= itemp * flow.my + flow.my - 1);
        itemp * flow.my
    } else {
        itemp
    };
    flow.nodex0 = nodex0;
    let mut i: usize = 0;
    while i < flow.my
        invariant
            flow.dims_wf(),
            len == flow.indx@.len(),
            flow.nodex0 == nodex0,
            nodex0 == profile_start(flow.long, flow.my as int, itemp as int),
            profile_fits(flow, itemp as int),
            i <= flow.my,
            *flow == (Flow_struct { nodex0, iline: flow.iline, ..old_flow }),
            flow.iline@.len() == flow.my,
            forall|j: int|
                0 <= j < i ==> #[trigger] flow.iline@[j] == flow.indx@[profile_point(
                    flow.long,
                    flow.mx as int,
                    nodex0 as int,
                    j,
                )],
        decreases flow.my - i,
    {
        let ip = if flow.long {
            nodex0 + i
        } else {
            assert(flow.mx * i <= flow.mx * (flow.my - 1)) by (nonlinear_arith)
                requires i < flow.my, flow.mx >= 1;
            nodex0 + flow.mx * i
        };
        let v = flow.indx[ip];
        flow.iline.set(i, v);
        i = i + 1;
    }
}

/// The first position `j < my` of the profile line that holds unknown
/// number `k`, or `None` when the line does not hold it.
pub fn igetl(k: i32, iline: &Vec<i32>, my: usize) -> (pos: Option<usize>)
    requires
        my <= iline@.len(),
    ensures
        match pos {
            Some(j) => j < my && iline@[j as int] == k && forall|j2: int| 0 <= j2 < j ==> iline@[j2] != k,
            None => forall|j2: int| 0 <= j2 < my ==> iline@[j2] != k,
        },
{
    let mut j: usize = 0;
    while j < my
        invariant
            my <= iline@.len(),
            j <= my,
            forall|j2: int| 0 <= j2 < j ==> iline@[j2] != k,
        decreases my - j,
    {
        if iline[j] == k {
            return Some(j);
        }
        j = j + 1;
    }
    None
}

/// Value of a nodal field for entry `k` of `indx` or `insc`: `zero` where
/// it is 0, the given boundary value `inflow` where it is negative, and the
/// coefficient `f[k - 1]` of the unknown otherwise.
pub open spec fn nodal_spec<T>(k: int, f: Seq<T>, zero: T, inflow: T) -> T {
    if k == 0 {
        zero
    } else if k < 0 {
        inflow
    } else {
        f[k - 1]
    }
}

/// The value at a grid point of a field whose unknowns are the entries
/// of `f`, for the entry `k` of `indx` or `insc` that belongs to it.
pub fn nodal_value<T: Copy>(k: i32, f: &[T], zero: T, inflow: T) -> (v: T)
    requires
        k > 0 ==> k - 1 < f@.len(),
    ensures
        v == nodal_spec(k as int, f@, zero, inflow),
        k > 0 ==> v == f@[k - 1],
        k == 0 ==> v == zero,
        k < 0 ==> v == inflow,
{
    if k == 0 {
        zero
    } else if k < 0 {
        inflow
    } else {
        let i = (k - 1) as usize;
        f[i]
    }
}

/// Unknown number `k` (from 1) owns coefficient `f[k - 1]`: the nodal
/// value for a positive entry is that coefficient, and the values read on
/// the profile line by `getg` are nodal values of the same field.
pub proof fn lemma_nodal_reads_unknown<T>(k: int, f: Seq<T>, zero: T, inflow: T)
    ensures
        k > 0 ==> nodal_spec(k, f, zero, inflow) == f[k - 1],
        k == 0 ==> nodal_spec(k, f, zero, inflow) == zero,
        k < 0 ==> nodal_spec(k, f, zero, inflow) == inflow,
        nodal_spec(k, f, zero, zero) == (if k > 0 { f[k - 1] } else { zero }),
{
}

/// Reads the field `f` along the profile line: `u[j]` becomes the
/// coefficient of unknown `iline[j]`, or `zero` where the line holds no
/// unknown, for every `j < my`; the rest of `u` is left as it was.
pub fn getg<T: Copy>(f: &[T], iline: &[i32], my: usize, zero: T, u: &mut Vec<T>)
    requires
        my <= iline@.len(),
        my <= old(u)@.len(),
        forall|j: int| 0 <= j < my && iline@[j] > 0 ==> iline@[j] - 1 < f@.len(),
    ensures
        final(u)@.len() == old(u)@.len(),
        forall|j: int|
            0 <= j < my ==> #[trigger] final(u)@[j] == (if iline@[j] > 0 { f@[iline@[j] - 1] } else { zero }),
        forall|j: int| my <= j < old(u)@.len() ==> #[trigger] final(u)@[j] == old(u)@[j],
{
    let mut j: usize = 0;
    while j < my
        invariant
            my <= iline@.len(),
            my <= u@.len(),
            u@.len() == old(u)@.len(),
            j <= my,
            forall|j2: int| 0 <= j2 < my && iline@[j2] > 0 ==> iline@[j2] - 1 < f@.len(),
            forall|j2: int|
                0 <= j2 < j ==> #[trigger] u@[j2] == (if iline@[j2] > 0 { f@[iline@[j2] - 1] } else { zero }),
            forall|j2: int| my <= j2 < old(u)@.len() ==> #[trigger] u@[j2] == old(u)@[j2],
        decreases my - j,
    {
        let k = iline[j];
        if 0 < k {
            let i = (k - 1) as usize;
            u.set(j, f[i]);
        } else {
            u.set(j, zero);
        }
        j = j + 1;
    }
}


/// A column of the grid gives a profile line that `setlin` can read.
pub proof fn lemma_profile_fits(flow: &Flow_struct, itemp: int)
    requires
        flow.dims_wf(),
        0 <= itemp < flow.mx,
    ensures
        profile_fits(flow, itemp),
        forall|i: int|
            0 <= i < flow.my ==> #[trigger] profile_point(
                flow.long,
                flow.mx as int,
                profile_start(flow.long, flow.my as int, itemp),
                i,
            ) == node_at(flow.long, flow.mx as int, flow.my as int, itemp, i),
{
    let (mx, my) = (flow.mx as int, flow.my as int);
    assert(profile_point(flow.long, mx, profile_start(flow.long, my, itemp), my - 1) == node_at(
        flow.long,
        mx,
        my,
        itemp,
        my - 1,
    )) by (nonlinear_arith)
        requires my >= 1;
    crate::grid::lemma_col_row_node_at(flow.long, mx, my, itemp, my - 1);
    assert forall|i: int| 0 <= i < my implies #[trigger] profile_point(
        flow.long,
        mx,
        profile_start(flow.long, my, itemp),
        i,
    ) == node_at(flow.long, mx, my, itemp, i) by {
        assert(mx * i == i * mx) by (nonlinear_arith);
    }
}

/// Positive horizontal velocity numbers of different grid points differ.
pub proof fn lemma_horizontal_numbers_distinct(flow: &Flow_struct, ip1: int, ip2: int)
    requires
        flow.dims_wf(),
        flow.unknowns_numbered(),
        0 <= ip1 < flow.np,
        0 <= ip2 < flow.np,
        ip1 != ip2,
        flow.indx@[ip1] > 0,
    ensures
        flow.indx@[ip1] != flow.indx@[ip2],
{
    let (long, mx, my) = (flow.long, flow.mx as int, flow.my as int);
    assert(flow.indx@[ip1] == horizontal_number(long, mx, my, ip1));
    assert(flow.indx@[ip2] == horizontal_number(long, mx, my, ip2));
    let (lo, hi) = if ip1 < ip2 { (ip1, ip2) } else { (ip2, ip1) };
    crate::grid::lemma_unknowns_before_monotone(long, mx, my, (lo + 1) as nat, hi as nat);
    crate::grid::lemma_unknowns_before_monotone(long, mx, my, lo as nat, (lo + 1) as nat);
}

/// The profile line that `setlin` records for a column of a set-up grid
/// holds the horizontal velocity numbers of that column, row by row; and
/// every grid point of the column with a horizontal velocity unknown
/// finds its number on the line at its own row and nowhere else, so that
/// `igetl` returns that row for it.
pub proof fn lemma_profile_line(flow: &Flow_struct, itemp: int)
    requires
        flow.grid_set(),
        0 <= itemp < flow.mx,
        flow.nodex0 == profile_start(flow.long, flow.my as int, itemp),
        flow.iline@.len() == flow.my,
        forall|i: int|
            0 <= i < flow.my ==> #[trigger] flow.iline@[i] == flow.indx@[profile_point(
                flow.long,
                flow.mx as int,
                flow.nodex0 as int,
                i,
            )],
    ensures
        forall|i: int|
            0 <= i < flow.my ==> #[trigger] flow.iline@[i] == horizontal_number(
                flow.long,
                flow.mx as int,
                flow.my as int,
                node_at(flow.long, flow.mx as int, flow.my as int, itemp, i),
            ),
        forall|ip: int|
            0 <= ip < flow.np && node_col(flow.long, flow.mx as int, flow.my as int, ip) == itemp
                && #[trigger] flow.indx@[ip] > 0 ==> {
                let row = node_row(flow.long, flow.mx as int, flow.my as int, ip);
                &&& flow.iline@[row] == flow.indx@[ip]
                &&& forall|j: int| 0 <= j < flow.my && j != row ==> flow.iline@[j] != flow.indx@[ip]
            },
{
    let (long, mx, my) = (flow.long, flow.mx as int, flow.my as int);
    lemma_profile_fits(flow, itemp);
    assert forall|i: int| 0 <= i < my implies #[trigger] flow.iline@[i] == horizontal_number(
        long,
        mx,
        my,
        node_at(long, mx, my, itemp, i),
    ) by {
        let ip = node_at(long, mx, my, itemp, i);
        assert(profile_point(long, mx, flow.nodex0 as int, i) == ip);
        crate::grid::lemma_col_row_node_at(long, mx, my, itemp, i);
    }
    assert forall|ip: int|
        0 <= ip < flow.np && node_col(long, mx, my, ip) == itemp && #[trigger] flow.indx@[ip] > 0 implies {
        let row = node_row(long, mx, my, ip);
        &&& flow.iline@[row] == flow.indx@[ip]
        &&& forall|j: int| 0 <= j < my && j != row ==> flow.iline@[j] != flow.indx@[ip]
    } by {
        crate::grid::lemma_node_at_col_row(long, mx, my, ip);
        let row = node_row(long, mx, my, ip);
        assert(profile_point(long, mx, flow.nodex0 as int, row) == ip);
        assert forall|j: int| 0 <= j < my && j != row implies flow.iline@[j] != flow.indx@[ip] by {
            let ipj = node_at(long, mx, my, itemp, j);
            crate::grid::lemma_col_row_node_at(long, mx, my, itemp, j);
            assert(profile_point(long, mx, flow.nodex0 as int, j) == ipj);
            lemma_horizontal_numbers_distinct(flow, ip, ipj);
        }
    }
}


/// The values of a nodal field at a run of grid points: entry `i` is
/// [`nodal_spec`] of `keys[i]`, with `inflow[i]` as the boundary value of
/// point `i`.
pub fn nodal_field<T: Copy>(keys: &[i32], f: &[T], zero: T, inflow: &[T]) -> (v: Vec<T>)
    requires
        inflow@.len() == keys@.len(),
        forall|i: int| 0 <= i < keys@.len() && keys@[i] > 0 ==> keys@[i] - 1 < f@.len(),
    ensures
        v@.len() == keys@.len(),
        forall|i: int| 0 <= i < keys@.len() ==> #[trigger] v@[i] == nodal_spec(keys@[i] as int, f@, zero, inflow@[i]),
        forall|i: int| 0 <= i < keys@.len() && keys@[i] > 0 ==> #[trigger] v@[i] == f@[keys@[i] - 1],
        forall|i: int| 0 <= i < keys@.len() && keys@[i] == 0 ==> #[trigger] v@[i] == zero,
        forall|i: int| 0 <= i < keys@.len() && keys@[i] < 0 ==> #[trigger] v@[i] == inflow@[i],
{
    let mut v: Vec<T> = Vec::new();
    let mut i: usize = 0;
    while i < keys.len()
        invariant
            inflow@.len() == keys@.len(),
            forall|j: int| 0 <= j < keys@.len() && keys@[j] > 0 ==> keys@[j] - 1 < f@.len(),
            i <= keys@.len(),
            v@.len() == i,
            forall|j: int| 0 <= j < i ==> #[trigger] v@[j] == nodal_spec(keys@[j] as int, f@, zero, inflow@[j]),
        decreases keys@.len() - i,
    {
        let x = nodal_value(keys[i], f, zero, inflow[i]);
        v.push(x);
        i = i + 1;
    }
    v
}

} // verus!
