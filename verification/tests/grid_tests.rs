use channel_flow::band::{band_position, setban, BandError};
use channel_flow::flow::Flow_struct;
use channel_flow::grid::{node_number, node_position, setgrd, unknown_owners};

fn element(flow: &Flow_struct, e: usize) -> Vec<usize> {
    (0..6).map(|k| flow.node[e + k * flow.nelemn]).collect()
}

#[test]
fn new_sets_the_sizes_of_the_channel_problem() {
    let flow = Flow_struct::new(21, 7);
    assert_eq!(flow.maxrow, 189);
    assert_eq!(flow.nelemn, 240);
    assert_eq!(flow.mx, 41);
    assert_eq!(flow.my, 13);
    assert_eq!(flow.np, 533);
    assert_eq!(flow.maxeqn, 2 * 41 * 13 + 21 * 7);
    assert_eq!(flow.nnodes, 6);
    assert_eq!(flow.nquad, 3);
    assert_eq!(flow.iline.len(), 13);
    assert_eq!(flow.indx.len(), 2 * 533);
    assert_eq!(flow.insc.len(), 533);
    assert_eq!(flow.ipivot.len(), 1213);
    assert_eq!(flow.isotri.len(), 240);
    assert_eq!(flow.node.len(), 240 * 6);
    assert!(flow.indx.iter().all(|&v| v == 0));
    assert_eq!(flow.iwrite, 10);
    assert_eq!(flow.maxnew, 10);
    assert_eq!(flow.maxsec, 8);
    assert_eq!(flow.npara, 1);
    assert!(!flow.long);
    assert!(flow.save_times && !flow.save_data && !flow.json);
}

#[test]
fn new_accepts_a_single_point() {
    let flow = Flow_struct::new(1, 1);
    assert_eq!(flow.nelemn, 0);
    assert_eq!(flow.np, 1);
    assert_eq!(flow.node.len(), 0);
}

#[test]
fn node_position_follows_the_ordering() {
    // Long region: numbered up the columns.
    assert_eq!(node_position(true, 5, 3, 0), (1, 1));
    assert_eq!(node_position(true, 5, 3, 4), (2, 2));
    assert_eq!(node_position(true, 5, 3, 14), (5, 3));
    // Otherwise along the rows.
    assert_eq!(node_position(false, 3, 5, 4), (2, 2));
    assert_eq!(node_position(false, 3, 5, 5), (3, 2));
    assert_eq!(node_number(true, 5, 3, 1, 1), 4);
    assert_eq!(node_number(false, 3, 5, 2, 1), 5);
}

#[test]
fn setgrd_long_grid_matches_the_numbering() {
    let mut flow = Flow_struct::new(3, 2);
    setgrd(&mut flow);
    assert!(flow.long);
    assert_eq!(flow.neqn, 13);
    assert_eq!(
        flow.node,
        vec![0, 0, 6, 6, 8, 2, 14, 8, 6, 8, 12, 14, 4, 1, 10, 7, 7, 5, 13, 11, 3, 4, 9, 10]
    );
    assert_eq!(
        flow.indx,
        vec![0, -1, 0, 0, 3, 0, 0, 6, 0, 0, 9, 0, 0, 12, 0, 0, 0, 0, 0, 4, 0, 0, 7, 0, 0, 10, 0, 0, 0, 0]
    );
    assert_eq!(flow.insc, vec![1, 0, 2, 0, 0, 0, 5, 0, 8, 0, 0, 0, 11, 0, 13]);
    assert!(flow.isotri.iter().all(|&v| v == 0));
}

#[test]
fn setgrd_horizontal_grid_matches_the_numbering() {
    let mut flow = Flow_struct::new(2, 3);
    setgrd(&mut flow);
    assert!(!flow.long);
    assert_eq!(flow.neqn, 15);
    assert_eq!(
        flow.node,
        vec![0, 0, 6, 6, 6, 8, 12, 14, 8, 2, 14, 8, 3, 4, 9, 10, 7, 5, 13, 11, 4, 1, 10, 7]
    );
    assert_eq!(
        flow.indx,
        vec![0, 0, 0, -1, 3, 5, -1, 7, 9, -1, 11, 13, 0, 0, 0, 0, 0, 0, 0, 4, 0, 0, 8, 0, 0, 12, 0, 0, 0, 0]
    );
    assert_eq!(flow.insc, vec![1, 0, 2, 0, 0, 0, 6, 0, 10, 0, 0, 0, 14, 0, 15]);
}

#[test]
fn setgrd_horizontal_ordering_example_of_the_documentation() {
    // 5 by 5 points numbered along the rows: at point 13 (1-based) the
    // elements 7 and 8 are (13, 23, 25, 18, 24, 19) and (13, 25, 15, 19, 20, 14).
    let mut flow = Flow_struct::new(3, 3);
    setgrd(&mut flow);
    assert!(!flow.long);
    assert_eq!(element(&flow, 6), vec![12, 22, 24, 17, 23, 18]);
    assert_eq!(element(&flow, 7), vec![12, 24, 14, 18, 19, 13]);
}

#[test]
fn setgrd_vertical_ordering_example_of_the_documentation() {
    // Columns of 5 points: at point 13 (1-based) the elements 7 and 8 are
    // (13, 25, 23, 19, 24, 18) and (13, 15, 25, 14, 20, 19).
    let mut flow = Flow_struct::new(4, 3);
    setgrd(&mut flow);
    assert!(flow.long);
    assert_eq!(element(&flow, 6), vec![12, 24, 22, 18, 23, 17]);
    assert_eq!(element(&flow, 7), vec![12, 14, 24, 13, 19, 18]);
}

#[test]
fn setgrd_numbers_unknowns_consecutively() {
    for (nx, ny) in [(21usize, 7usize), (3, 3), (2, 5), (5, 2), (1, 1)] {
        let mut flow = Flow_struct::new(nx, ny);
        setgrd(&mut flow);
        let mut listed = Vec::new();
        for ip in 0..flow.np {
            for v in [flow.indx[ip], flow.indx[ip + flow.np], flow.insc[ip]] {
                if v > 0 {
                    listed.push(v as usize);
                }
            }
        }
        let expected: Vec<usize> = (1..=flow.neqn).collect();
        assert_eq!(listed, expected);
        assert!(flow.neqn <= flow.maxeqn);
    }
}

#[test]
fn setgrd_main_problem_has_1016_unknowns() {
    let mut flow = Flow_struct::new(21, 7);
    setgrd(&mut flow);
    assert!(flow.long);
    assert_eq!(flow.neqn, 1016);
}

#[test]
fn setgrd_elements_are_taylor_hood_triangles() {
    let mut flow = Flow_struct::new(4, 3);
    setgrd(&mut flow);
    let pos = |ip: usize| {
        let (c, r) = node_position(flow.long, flow.mx, flow.my, ip);
        (c as i64, r as i64)
    };
    for e in 0..flow.nelemn {
        let n = element(&flow, e);
        for k in 0..3 {
            assert!(flow.insc[n[k]] > 0);
            assert_eq!(flow.insc[n[k + 3]], 0);
        }
        for (m, a, b) in [(3, 0, 1), (4, 1, 2), (5, 2, 0)] {
            assert_eq!(2 * pos(n[m]).0, pos(n[a]).0 + pos(n[b]).0);
            assert_eq!(2 * pos(n[m]).1, pos(n[a]).1 + pos(n[b]).1);
        }
        let (p0, p1, p2) = (pos(n[0]), pos(n[1]), pos(n[2]));
        let det = (p1.0 - p0.0) * (p2.1 - p0.1) - (p2.0 - p0.0) * (p1.1 - p0.1);
        assert_eq!(det, -4);
    }
}

#[test]
fn setban_main_problem() {
    let mut flow = Flow_struct::new(21, 7);
    setgrd(&mut flow);
    assert_eq!(setban(&mut flow), Ok(()));
    assert_eq!(flow.nlband, 58);
    assert_eq!(flow.nband, 117);
    assert_eq!(flow.nrow, 175);
}

#[test]
fn setban_small_grids() {
    for (nx, ny, nl) in [(3usize, 3usize, 18usize), (4, 3, 20), (2, 2, 6), (3, 2, 8), (2, 3, 9), (1, 1, 0), (5, 2, 9)] {
        let mut flow = Flow_struct::new(nx, ny);
        setgrd(&mut flow);
        assert_eq!(setban(&mut flow), Ok(()));
        assert_eq!(flow.nlband, nl);
        assert_eq!(flow.nband, 2 * nl + 1);
        assert_eq!(flow.nrow, 3 * nl + 1);
    }
}

#[test]
fn setban_rejects_too_many_rows() {
    let mut flow = Flow_struct::new(3, 2);
    setgrd(&mut flow);
    flow.maxrow = 24;
    assert_eq!(setban(&mut flow), Err(BandError::TooManyRows));
    assert_eq!(flow.nlband, 0);
    assert_eq!(flow.nrow, 0);
    flow.maxrow = 25;
    assert_eq!(setban(&mut flow), Ok(()));
    assert_eq!(flow.nrow, 25);
}

#[test]
fn couplings_fall_inside_the_band_storage() {
    let mut flow = Flow_struct::new(5, 3);
    setgrd(&mut flow);
    setban(&mut flow).unwrap();
    let var = |ip: usize, s: usize| if s == 2 { flow.insc[ip] } else { flow.indx[ip + s * flow.np] };
    for e in 0..flow.nelemn {
        for a in 0..18 {
            let i = var(flow.node[e + (a / 3) * flow.nelemn], a % 3);
            for c in 0..18 {
                let j = var(flow.node[e + (c / 3) * flow.nelemn], c % 3);
                if i > 0 && j > 0 {
                    let (i, j) = ((i - 1) as usize, (j - 1) as usize);
                    let pos = band_position(i, j, flow.nlband, flow.nrow, flow.neqn);
                    assert!(pos < flow.nrow * flow.neqn);
                    let row = pos - j * flow.nrow;
                    assert!(flow.nlband <= row && row <= 3 * flow.nlband);
                }
            }
        }
    }
}

#[test]
fn band_position_formula() {
    // nlband 2, nrow 7: entry (3, 1) sits in row 3 - 1 + 4 = 6 of column 1.
    assert_eq!(band_position(3, 1, 2, 7, 5), 6 + 7);
    assert_eq!(band_position(0, 0, 2, 7, 5), 4);
    assert_eq!(band_position(0, 2, 2, 7, 5), 2 + 14);
}

#[test]
fn unknown_owners_follow_the_numbering() {
    use_owners(3, 2);
    use_owners(21, 7);
    use_owners(2, 4);
}

fn use_owners(nx: usize, ny: usize) {
    let mut flow = Flow_struct::new(nx, ny);
    setgrd(&mut flow);
    let owners = unknown_owners(&flow);
    assert_eq!(owners.len(), flow.neqn);
    for (q, &(ip, comp)) in owners.iter().enumerate() {
        let key = if comp == 2 { flow.insc[ip] } else { flow.indx[ip + comp * flow.np] };
        assert_eq!(key as usize, q + 1);
    }
}

#[test]
fn unknown_owners_small_grid() {
    let mut flow = Flow_struct::new(3, 2);
    setgrd(&mut flow);
    let owners = unknown_owners(&flow);
    assert_eq!(&owners[..6], &[(0, 2), (2, 2), (4, 0), (4, 1), (6, 2), (7, 0)]);
}
