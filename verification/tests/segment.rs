use fairchild_core::mna::{Coef, Stamp};
use fairchild_core::photonic::segment::SegmentPorts;

type Cell = (usize, usize, Coef<f64>);

fn cells(m: &[Stamp<f64>]) -> Vec<Cell> {
    m.iter().map(|s| (s.row, s.col, s.coef)).collect()
}

fn segment(n_wires: usize, wpc: usize, first: usize) -> SegmentPorts {
    let mut seg = SegmentPorts::new();
    seg.setup_model(wpc);
    let t: Vec<Option<usize>> = (0..n_wires).map(Some).collect();
    seg.setup_instance(&t, wpc);
    seg.bind_branches(first);
    seg
}

#[test]
fn segment_propagation_rows() {
    let seg = segment(6, 3, 10);
    assert_eq!(seg.n_channels(), 1);
    assert_eq!(seg.num_aux_branches(), 2);
    assert_eq!(seg.num_optical_wires(), 6);
    assert_eq!(seg.lambda_routing(), vec![(2, 5)]);
    let mut m: Vec<Stamp<f64>> = Vec::new();
    seg.stamp(&mut m, &[0.8], &[0.6], None, false);
    assert_eq!(
        cells(&m),
        vec![
            (10, 3, Coef::One), (10, 0, Coef::Neg(0.8)), (10, 1, Coef::Neg(0.6)), (3, 10, Coef::One),
            (11, 4, Coef::One), (11, 0, Coef::Pos(0.6)), (11, 1, Coef::Neg(0.8)), (4, 11, Coef::One),
        ]
    );
}

#[test]
fn delay_mode_drops_the_couplings_and_ac_restores_them() {
    let seg = segment(6, 3, 10);
    let mut m: Vec<Stamp<f64>> = Vec::new();
    seg.stamp(&mut m, &[0.8], &[0.6], None, true);
    assert_eq!(
        cells(&m),
        vec![(10, 3, Coef::One), (3, 10, Coef::One), (11, 4, Coef::One), (4, 11, Coef::One)]
    );
    let ac = seg.ac_couplings(&[0.8], &[0.6], true);
    assert_eq!(
        cells(&ac),
        vec![(10, 0, Coef::Neg(0.8)), (10, 1, Coef::Neg(0.6)), (11, 0, Coef::Pos(0.6)), (11, 1, Coef::Neg(0.8))]
    );
    assert!(seg.ac_couplings(&[0.8], &[0.6], false).is_empty());
}

#[test]
fn bidirectional_ac_couplings_read_the_output_block() {
    let seg = segment(10, 5, 20);
    assert_eq!(seg.num_aux_branches(), 4);
    assert_eq!(seg.vals_per_channel(), 4);
    let ac = seg.ac_couplings(&[1.0], &[0.0], true);
    assert_eq!(
        cells(&ac),
        vec![
            (20, 0, Coef::Neg(1.0)), (20, 1, Coef::Neg(0.0)), (21, 0, Coef::Pos(0.0)), (21, 1, Coef::Neg(1.0)),
            (22, 7, Coef::Neg(1.0)), (22, 8, Coef::Neg(0.0)), (23, 7, Coef::Pos(0.0)), (23, 8, Coef::Neg(1.0)),
        ]
    );
}

#[test]
fn newton_cross_terms_land_in_control_columns() {
    let mut seg = segment(6, 3, 10);
    seg.set_control_nodes(&[Some(7), None]);
    assert_eq!(seg.unstamped_control_columns(false), vec![7]);
    assert!(seg.unstamped_control_columns(true).is_empty());
    let mut m: Vec<Stamp<f64>> = Vec::new();
    seg.stamp(&mut m, &[1.0], &[0.0], Some(&[(0.25, 0.5), (9.0, 9.0)]), false);
    assert_eq!(m.len(), 10);
    assert_eq!(&cells(&m)[8..10], &[(10, 7, Coef::Neg(0.25)), (11, 7, Coef::Neg(0.5))]);
}

#[test]
fn segment_rejects_a_count_off_the_bundle_grid() {
    let mut seg = SegmentPorts::new();
    let t: Vec<Option<usize>> = (0..7).map(Some).collect();
    seg.setup_instance(&t, 3);
    assert_eq!(seg.n_channels(), 0);
    assert_eq!(seg.num_optical_wires(), 6);
}
