use fairchild_core::mna::{Coef, Stamp};
use fairchild_core::photonic::bundle::BundlePorts;
use fairchild_core::photonic::coupler::{coupler_branches, load_coupler_jacobian};
use fairchild_core::photonic::facet::{facet_branches, load_facet_jacobian};
use fairchild_core::photonic::grating::{grating_branches, grating_lambda_routing, load_grating_jacobian};
use fairchild_core::photonic::mzm::{attenuator_branches, load_mzm_jacobian};
use fairchild_core::photonic::splitter::{load_splitter_jacobian, splitter_branches, splitter_lambda_routing};

type Cell = (usize, usize, Coef<f64>);

fn cells(m: &[Stamp<f64>]) -> Vec<Cell> {
    m.iter().map(|s| (s.row, s.col, s.coef)).collect()
}

fn terminals(n: usize) -> Vec<Option<usize>> {
    (0..n).map(Some).collect()
}

fn eq1(j: usize, out: usize, inp: usize, k: Coef<f64>) -> Vec<Cell> {
    vec![(j, out, Coef::One), (j, inp, k), (out, j, Coef::One)]
}

#[test]
fn splitter_copies_the_input_into_both_outputs() {
    let mut p = BundlePorts::new(3, 0);
    p.setup_instance(&terminals(9), 3, splitter_branches(3));
    assert_eq!(p.num_terminals(), 9);
    assert_eq!(p.num_extra_nodes(), 6);
    p.bind_extra_nodes(10);
    let mut m: Vec<Stamp<f64>> = Vec::new();
    load_splitter_jacobian(&p, 0.6, 0.8, &mut m);
    let mut want = Vec::new();
    want.extend(eq1(10, 3, 0, Coef::Neg(0.6)));
    want.extend(eq1(11, 4, 1, Coef::Neg(0.6)));
    want.extend(eq1(12, 5, 2, Coef::NegOne));
    want.extend(eq1(13, 6, 0, Coef::Neg(0.8)));
    want.extend(eq1(14, 7, 1, Coef::Neg(0.8)));
    want.extend(eq1(15, 8, 2, Coef::NegOne));
    assert_eq!(cells(&m), want);
    assert_eq!(splitter_lambda_routing(&p), vec![(2, 5), (2, 8)]);
}

#[test]
fn grating_passes_each_channel_straight_through() {
    let mut p = BundlePorts::new(2, 0);
    p.setup_instance(&terminals(12), 3, grating_branches(3));
    assert_eq!(p.num_extra_nodes(), 4);
    p.bind_extra_nodes(0);
    let mut m: Vec<Stamp<f64>> = Vec::new();
    load_grating_jacobian(&p, 0.5, &mut m);
    assert_eq!(m.len(), 4 * 3);
    assert_eq!(grating_lambda_routing(&p), vec![(2, 8), (5, 11)]);
    assert_eq!(cells(&m)[0..3].to_vec(), eq1(0, 6, 0, Coef::Neg(0.5)));
}

#[test]
fn bundle_electrical_terminal_follows_the_optical_ports() {
    let mut p = BundlePorts::new(2, 2);
    p.setup_instance(&terminals(8), 3, 2);
    assert_eq!(p.n_channels_exec(), 1);
    assert_eq!(p.wpc_exec(), 3);
    assert_eq!(p.electrical_node(0), Some(6));
    assert_eq!(p.electrical_node(1), Some(7));
}

fn eq2(j: usize, out: usize, a: (usize, Coef<f64>), b: (usize, Coef<f64>)) -> Vec<Cell> {
    vec![(j, out, Coef::One), (j, a.0, a.1), (j, b.0, b.1), (out, j, Coef::One)]
}

#[test]
fn coupler_cross_couples_the_two_guides() {
    assert_eq!(coupler_branches(3), 6);
    assert_eq!(coupler_branches(5), 10);
    let mut p = BundlePorts::new(4, 0);
    p.setup_instance(&terminals(12), 3, coupler_branches(3));
    p.bind_extra_nodes(20);
    let mut m: Vec<Stamp<f64>> = Vec::new();
    load_coupler_jacobian(&p, 0.6, 0.8, &mut m);
    let mut want = Vec::new();
    want.extend(eq2(20, 6, (0, Coef::Neg(0.6)), (4, Coef::Neg(0.8))));
    want.extend(eq2(21, 7, (1, Coef::Neg(0.6)), (3, Coef::Pos(0.8))));
    want.extend(eq2(22, 9, (3, Coef::Neg(0.6)), (1, Coef::Neg(0.8))));
    want.extend(eq2(23, 10, (4, Coef::Neg(0.6)), (0, Coef::Pos(0.8))));
    want.extend(eq1(24, 8, 2, Coef::NegOne));
    want.extend(eq1(25, 11, 2, Coef::NegOne));
    assert_eq!(cells(&m), want);
}

#[test]
fn facet_reflects_only_bidirectionally() {
    assert_eq!(facet_branches(3), 0);
    let mut p = BundlePorts::new(1, 0);
    p.setup_instance(&terminals(3), 3, facet_branches(3));
    assert_eq!(p.num_extra_nodes(), 0);
    let mut m: Vec<Stamp<f64>> = Vec::new();
    load_facet_jacobian(&p, 0.5, 0.0, &mut m);
    assert!(m.is_empty());
    let mut p = BundlePorts::new(1, 0);
    p.setup_instance(&terminals(5), 5, facet_branches(5));
    p.bind_extra_nodes(7);
    load_facet_jacobian(&p, 0.5, 0.25, &mut m);
    let mut want = eq2(7, 2, (0, Coef::Neg(0.5)), (1, Coef::Neg(0.25)));
    want.extend(eq2(8, 3, (0, Coef::Pos(0.25)), (1, Coef::Neg(0.5))));
    assert_eq!(cells(&m), want);
}

#[test]
fn modulator_attenuates_and_copies_lambda() {
    assert_eq!(attenuator_branches(3, true), 3);
    assert_eq!(attenuator_branches(5, true), 5);
    assert_eq!(attenuator_branches(5, false), 4);
    let mut p = BundlePorts::new(2, 2);
    p.setup_instance(&terminals(8), 3, attenuator_branches(3, true));
    p.bind_extra_nodes(30);
    let mut m: Vec<Stamp<f64>> = Vec::new();
    load_mzm_jacobian(&p, 0.7, &mut m);
    let mut want = eq1(30, 3, 0, Coef::Neg(0.7));
    want.extend(eq1(31, 4, 1, Coef::Neg(0.7)));
    want.extend(eq1(32, 5, 2, Coef::NegOne));
    assert_eq!(cells(&m), want);
}
