use vstd::prelude::*;

verus! {

/// Number of nodes of a Taylor-Hood (quadratic) triangle.
pub const NNODES: usize = 6;

/// Number of quadrature points per element.
pub const NQUAD: usize = 3;

/// Sizes and integer state of the channel problem.
///
/// Matrices are stored flat by columns: entry `(i, j)` of a matrix with
/// `rows` rows lives at `i + j * rows`.
#[allow(non_camel_case_types)]
pub struct Flow_struct {
    /// Number of primary grid points along the channel.
    pub nx: usize,
    /// Number of primary grid points across the channel.
    pub ny: usize,
    /// Largest number of rows allowed for the band matrix.
    pub maxrow: usize,
    /// Number of triangular elements.
    pub nelemn: usize,
    /// Grid points along the channel, `2 * nx - 1`.
    pub mx: usize,
    /// Grid points across the channel, `2 * ny - 1`.
    pub my: usize,
    /// Number of grid points, `mx * my`.
    pub np: usize,
    /// Largest number of unknowns allowed.
    pub maxeqn: usize,
    /// Nodes per element.
    pub nnodes: usize,
    /// Quadrature points per element.
    pub nquad: usize,
    /// `true` when nodes are numbered up the columns (the region is long).
    pub long: bool,
    /// Total band width, `2 * nlband + 1`.
    pub nband: usize,
    /// Number of unknowns.
    pub neqn: usize,
    /// Number of diagonals below the main one.
    pub nlband: usize,
    /// Lowest numbered node on the profile line.
    pub nodex0: usize,
    /// Rows used by the band storage, `3 * nlband + 1`.
    pub nrow: usize,
    /// Amount of output: 0 little, 1 normal, 2 a lot.
    pub iwrite: usize,
    /// Largest number of Newton steps per solve.
    pub maxnew: usize,
    /// Largest number of secant steps.
    pub maxsec: usize,
    /// Number of parameters.
    pub npara: usize,
    /// Newton steps taken so far.
    pub numnew: usize,
    /// Secant steps taken so far.
    pub numsec: usize,
    /// Unknown numbers along the profile line.
    pub iline: Vec<i32>,
    /// Velocity unknown numbers: `indx[ip]` horizontal, `indx[ip + np]` vertical.
    pub indx: Vec<i32>,
    /// Pressure unknown number of each node.
    pub insc: Vec<i32>,
    /// Pivot indices of the band factorisation.
    pub ipivot: Vec<usize>,
    /// 1 for an isoparametric element, 0 otherwise.
    pub isotri: Vec<i32>,
    /// Global node numbers: local node `k` of element `it` is `node[it + k * nelemn]`.
    pub node: Vec<usize>,
    /// Append the running time to a file at the end.
    pub save_times: bool,
    /// Write the graphics data files.
    pub save_data: bool,
    /// Write data files as JSON.
    pub json: bool,
}

/// The sizes derived from `nx` and `ny`, when they fit in `usize`.
pub open spec fn sizes_fit(nx: int, ny: int) -> bool {
    &&& 1 <= nx
    &&& 1 <= ny
    &&& 27 * ny <= usize::MAX
    &&& 2 * (nx - 1) * (ny - 1) * 6 <= usize::MAX
    &&& 2 * (2 * nx - 1) * (2 * ny - 1) + nx * ny <= usize::MAX
}

impl Flow_struct {
    /// The sizes hang together as `new` sets them, and every array has
    /// the length that the routines index it with.
    pub open spec fn dims_wf(&self) -> bool {
        &&& sizes_fit(self.nx as int, self.ny as int)
        &&& self.maxrow == 27 * self.ny
        &&& self.nelemn == 2 * (self.nx - 1) * (self.ny - 1)
        &&& self.mx == 2 * self.nx - 1
        &&& self.my == 2 * self.ny - 1
        &&& self.np == self.mx * self.my
        &&& self.maxeqn == 2 * self.mx * self.my + self.nx * self.ny
        &&& self.nnodes == NNODES
        &&& self.nquad == NQUAD
        &&& self.iline@.len() == self.my
        &&& self.indx@.len() == 2 * self.np
        &&& self.insc@.len() == self.np
        &&& self.ipivot@.len() == self.maxeqn
        &&& self.isotri@.len() == self.nelemn
        &&& self.node@.len() == self.nelemn * NNODES
    }

    /// Sets the problem sizes for a grid of `nx` by `ny` primary points,
    /// with every integer array zeroed and the default controls.
    pub fn new(nx: usize, ny: usize) -> (flow: Self)
        requires
            sizes_fit(nx as int, ny as int),
        ensures
            flow.dims_wf(),
            flow.nx == nx,
            flow.ny == ny,
            flow.maxrow == 27 * ny,
            flow.nelemn == 2 * (nx - 1) * (ny - 1),
            flow.mx == 2 * nx - 1,
            flow.my == 2 * ny - 1,
            flow.np == (2 * nx - 1) * (2 * ny - 1),
            flow.maxeqn == 2 * (2 * nx - 1) * (2 * ny - 1) + nx * ny,
            !flow.long,
            flow.nband == 0,
            flow.neqn == 0,
            flow.nlband == 0,
            flow.nodex0 == 0,
            flow.nrow == 0,
            flow.iwrite == 10,
            flow.maxnew == 10,
            flow.maxsec == 8,
            flow.npara == 1,
            flow.numnew == 0,
            flow.numsec == 0,
            forall|i: int| 0 <= i < flow.iline@.len() ==> flow.iline@[i] == 0,
            forall|i: int| 0 <= i < flow.indx@.len() ==> flow.indx@[i] == 0,
            forall|i: int| 0 <= i < flow.insc@.len() ==> flow.insc@[i] == 0,
            forall|i: int| 0 <= i < flow.ipivot@.len() ==> flow.ipivot@[i] == 0,
            forall|i: int| 0 <= i < flow.isotri@.len() ==> flow.isotri@[i] == 0,
            forall|i: int| 0 <= i < flow.node@.len() ==> flow.node@[i] == 0,
            flow.save_times,
            !flow.save_data,
            !flow.json,
    {
        assert(2 * nx <= 2 * (2 * nx - 1) * (2 * ny - 1) && 2 * ny <= 2 * (2 * nx - 1) * (2 * ny - 1)
            && 2 * (2 * nx - 1) <= 2 * (2 * nx - 1) * (2 * ny - 1)) by (nonlinear_arith)
            requires nx >= 1, ny >= 1;
        let mx = 2 * nx - 1;
        let my = 2 * ny - 1;
        assert(2 * (nx - 1) * (ny - 1) <= 2 * (nx - 1) * (ny - 1) * 6) by (nonlinear_arith)
            requires nx >= 1, ny >= 1;
        assert(mx * my <= 2 * mx * my + nx * ny) by (nonlinear_arith)
            requires nx >= 1, ny >= 1, mx >= 1, my >= 1;
        assert(nx * ny <= 2 * mx * my + nx * ny && 2 * mx * my == (2 * mx) * my) by (nonlinear_arith)
            requires nx >= 1, ny >= 1, mx >= 1, my >= 1;
        assert(2 * (mx * my) <= 2 * mx * my + nx * ny) by (nonlinear_arith)
            requires nx >= 1, ny >= 1, mx >= 1, my >= 1;
        let maxrow = 27 * ny;
        let nelemn = 2 * (nx - 1) * (ny - 1);
        let np = mx * my;
        let maxeqn = 2 * mx * my + nx * ny;
        Flow_struct {
            nx,
            ny,
            maxrow,
            nelemn,
            mx,
            my,
            np,
            maxeqn,
            nnodes: NNODES,
            nquad: NQUAD,
            long: false,
            nband: 0,
            neqn: 0,
            nlband: 0,
            nodex0: 0,
            nrow: 0,
            iwrite: 10,
            maxnew: 10,
            maxsec: 8,
            npara: 1,
            numnew: 0,
            numsec: 0,
            iline: vec![0i32; my],
            indx: vec![0i32; np * 2],
            insc: vec![0i32; np],
            ipivot: vec![0usize; maxeqn],
            isotri: vec![0i32; nelemn],
            node: vec![0usize; nelemn * NNODES],
            save_times: true,
            save_data: false,
            json: false,
        }
    }
}

} // verus!
