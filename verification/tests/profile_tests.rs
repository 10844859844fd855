use channel_flow::flow::Flow_struct;
use channel_flow::grid::setgrd;
use channel_flow::layout::{basis_index, element_slot};
use channel_flow::profile::{getg, igetl, nodal_field, nodal_value, setlin};

#[test]
fn setlin_main_problem_profile_line() {
    let mut flow = Flow_struct::new(21, 7);
    setgrd(&mut flow);
    setlin(&mut flow, 36);
    assert_eq!(flow.nodex0, 468);
    assert_eq!(flow.iline, vec![0, 898, 900, 903, 905, 908, 910, 913, 915, 918, 920, 923, 0]);
}

#[test]
fn setlin_horizontal_ordering_walks_a_column() {
    let mut flow = Flow_struct::new(2, 3);
    setgrd(&mut flow);
    setlin(&mut flow, 1);
    assert_eq!(flow.nodex0, 1);
    // Column 1 of a 3 by 5 grid: points 1, 4, 7, 10, 13.
    assert_eq!(flow.iline, vec![0, 3, 7, 11, 0]);
}

#[test]
fn igetl_finds_the_row() {
    let iline = vec![0, 898, 900, 903, 905, 0];
    assert_eq!(igetl(903, &iline, 6), Some(3));
    assert_eq!(igetl(0, &iline, 6), Some(0));
    assert_eq!(igetl(7, &iline, 6), None);
    // Only the first `my` entries count.
    assert_eq!(igetl(905, &iline, 4), None);
}

#[test]
fn igetl_finds_every_unknown_of_the_profile_column() {
    let mut flow = Flow_struct::new(21, 7);
    setgrd(&mut flow);
    setlin(&mut flow, 36);
    for r in 0..flow.my {
        let ip = 36 * flow.my + r;
        let k = flow.indx[ip];
        if k > 0 {
            assert_eq!(igetl(k, &flow.iline, flow.my), Some(r));
        }
    }
}

#[test]
fn getg_reads_the_profile() {
    let f = vec![1.5f64, 2.5, 3.5, 4.5];
    let iline = vec![0, 2, 4, -1, 1];
    let mut u = vec![9.0f64; 6];
    getg(&f, &iline, 5, 0.0, &mut u);
    assert_eq!(u, vec![0.0, 2.5, 4.5, 0.0, 1.5, 9.0]);
}

#[test]
fn nodal_value_cases() {
    let f = [10.0f64, 20.0, 30.0];
    assert_eq!(nodal_value(0, &f, 0.0, 7.0), 0.0);
    assert_eq!(nodal_value(-1, &f, 0.0, 7.0), 7.0);
    assert_eq!(nodal_value(2, &f, 0.0, 7.0), 20.0);
    assert_eq!(nodal_value(3, &f, 0.0, 7.0), 30.0);
}

#[test]
fn layout_positions() {
    assert_eq!(element_slot(3, 2, 10, 6), 23);
    // it + iquad * n + iq * 3n + comp * 18n with n = 10.
    assert_eq!(basis_index(1, 2, 3, 0, 10), 1 + 20 + 90);
    assert_eq!(basis_index(1, 2, 3, 2, 10), 1 + 20 + 90 + 360);
    assert_eq!(basis_index(9, 2, 5, 2, 10), 539);
}

#[test]
fn nodal_field_values_of_every_point() {
    let f = [10.0f64, 20.0, 30.0];
    let keys = [0, -1, 3, 1, 0];
    let inflow = [0.5f64, 0.25, 0.75, 1.0, 2.0];
    assert_eq!(nodal_field(&keys, &f, 0.0, &inflow), vec![0.0, 0.25, 30.0, 10.0, 0.0]);
    let empty: [i32; 0] = [];
    assert_eq!(nodal_field(&empty, &f, 0.0, &[]), Vec::<f64>::new());
}
