use fairchild_core::mna::{Coef, Stamp};
use fairchild_core::passive::{NativeCirculator as RelativeCirculator, NativeDemux, NativeMux};
use fairchild_core::photonic::circulator::NativeCirculator;

fn terminals(n: usize) -> Vec<Option<usize>> {
    (0..n).map(Some).collect()
}

fn cells(m: &[Stamp<f64>]) -> Vec<(usize, usize, Coef<f64>)> {
    m.iter().map(|s| (s.row, s.col, s.coef)).collect()
}

/// The three stamps of the unit route `V(out) = V(inp)` on branch row `j`.
fn route(j: usize, out: usize, inp: usize) -> Vec<(usize, usize, Coef<f64>)> {
    vec![(j, out, Coef::One), (j, inp, Coef::NegOne), (out, j, Coef::One)]
}

#[test]
fn mux_routes_every_bus_wire_from_its_channel_wire() {
    let mut m = NativeMux::new();
    m.setup_model(3);
    m.setup_instance(&terminals(12), 3);
    assert_eq!(m.num_terminals(), 12);
    assert_eq!(m.num_extra_nodes(), 6);
    m.bind_extra_nodes(100);
    let mut mat: Vec<Stamp<f64>> = Vec::new();
    m.load_jacobian(&mut mat);
    let mut want = Vec::new();
    for i in 0..6 {
        want.extend(route(100 + i, i, 6 + i));
    }
    assert_eq!(cells(&mat), want);
}

#[test]
fn demux_reverses_the_mux_routes() {
    let mut d = NativeDemux::new();
    d.setup_instance(&terminals(20), 5);
    assert_eq!(d.num_extra_nodes(), 10);
    d.bind_extra_nodes(40);
    let mut mat: Vec<Stamp<f64>> = Vec::new();
    d.load_jacobian(&mut mat);
    let mut want = Vec::new();
    for i in 0..10 {
        want.extend(route(40 + i, 10 + i, i));
    }
    assert_eq!(cells(&mat), want);
}

#[test]
fn mux_with_grounded_wire_skips_its_equation() {
    let mut m = NativeMux::new();
    let mut t = terminals(6);
    t[4] = None; // channel wire 1
    m.setup_instance(&t, 3);
    m.bind_extra_nodes(10);
    let mut mat: Vec<Stamp<f64>> = Vec::new();
    m.load_jacobian(&mut mat);
    // Row 11 drives bus wire 1 from ground: the output is stamped but the
    // grounded input column is not.
    let mut want = route(10, 0, 3);
    want.extend(vec![(11, 1, Coef::One), (1, 11, Coef::One)]);
    want.extend(route(12, 2, 5));
    assert_eq!(cells(&mat), want);
}

#[test]
fn unbound_mux_stamps_nothing() {
    let mut m = NativeMux::new();
    m.setup_instance(&terminals(6), 3);
    let mut mat: Vec<Stamp<f64>> = Vec::new();
    m.load_jacobian(&mut mat);
    assert!(mat.is_empty());
}

#[test]
fn relative_circulator_cycles_port_to_port() {
    let mut c = RelativeCirculator::new();
    c.setup_instance(&terminals(15), 5);
    assert_eq!(c.num_terminals(), 15);
    assert_eq!(c.num_extra_nodes(), 8);
    c.bind_extra_nodes(20);
    let mut mat: Vec<Stamp<f64>> = Vec::new();
    c.load_jacobian(&mut mat);
    // port_p.bw = port_(p-1).fw, then the λ ties.
    let mut want = Vec::new();
    want.extend(route(20, 2, 10));
    want.extend(route(21, 3, 11));
    want.extend(route(22, 7, 0));
    want.extend(route(23, 8, 1));
    want.extend(route(24, 12, 5));
    want.extend(route(25, 13, 6));
    want.extend(route(26, 9, 4));
    want.extend(route(27, 14, 4));
    assert_eq!(cells(&mat), want);
}

#[test]
fn circulator_routes_along_the_chain() {
    let mut c = NativeCirculator::new();
    assert!(!c.setup_instance(&terminals(30), 5));
    assert_eq!(c.num_terminals(), 30);
    assert_eq!(c.num_extra_nodes(), 16);
    c.bind_extra_nodes(50);
    let mut mat: Vec<Stamp<f64>> = Vec::new();
    c.load_jacobian(&mut mat);
    let mut want = Vec::new();
    for k in 0..2 {
        let b = 15 * k;
        let j = 50 + 8 * k;
        want.extend(route(j, b + 5, b));
        want.extend(route(j + 1, b + 6, b + 1));
        want.extend(route(j + 2, b + 10, b + 7));
        want.extend(route(j + 3, b + 11, b + 8));
        want.extend(route(j + 4, b + 2, b + 12));
        want.extend(route(j + 5, b + 3, b + 13));
        want.extend(route(j + 6, b + 9, b + 4));
        want.extend(route(j + 7, b + 14, b + 4));
    }
    assert_eq!(cells(&mat), want);
    assert_eq!(c.lambda_routing(), vec![(4, 9), (4, 14), (19, 24), (19, 29)]);
}

#[test]
fn circulator_declines_unidirectional() {
    let mut c = NativeCirculator::new();
    let terms = terminals(15);
    assert!(c.setup_instance(&terms, 3));
    assert_eq!(c.num_terminals(), 15);
    assert_eq!(c.num_extra_nodes(), 0);
    let mut m: Vec<Stamp<f64>> = Vec::new();
    c.load_jacobian(&mut m);
    assert!(m.is_empty());
}

#[test]
fn circulator_reports_smallest_count_for_a_bad_terminal_list() {
    let mut c = NativeCirculator::new();
    assert!(!c.setup_instance(&terminals(16), 5));
    assert_eq!(c.num_terminals(), 15);
    assert_eq!(c.num_extra_nodes(), 0);
}
