use fairchild_core::bjt::BjtNodes;
use fairchild_core::diode::DiodeNodes;
use fairchild_core::mna::{stamp_potential_eq, stamp_resistor, Coef, Stamp};
use fairchild_core::mosfet1::MosfetNodes;
use fairchild_core::photonic::detector::DetectorPorts;
use fairchild_core::photonic::laser::{bind_emitted, emitted_wires, EmitterPorts};
use fairchild_core::photonic::shifter::RotationPorts;
use fairchild_core::photonic::stamp_pn_ths_jacobian;

type Cell = (usize, usize, Coef<f64>);

fn cells(m: &[Stamp<f64>]) -> Vec<Cell> {
    m.iter().map(|s| (s.row, s.col, s.coef)).collect()
}

fn terminals(n: usize) -> Vec<Option<usize>> {
    (0..n).map(Some).collect()
}

fn resistor(a: usize, b: usize, g: f64) -> Vec<Cell> {
    vec![(a, a, Coef::Pos(g)), (a, b, Coef::Neg(g)), (b, b, Coef::Pos(g)), (b, a, Coef::Neg(g))]
}

fn branch_g(x: usize, y: usize, g: f64) -> Vec<Cell> {
    vec![(x, x, Coef::Pos(g)), (x, y, Coef::Neg(g)), (y, x, Coef::Neg(g)), (y, y, Coef::Pos(g))]
}

#[test]
fn resistor_skips_ground() {
    let mut m: Vec<Stamp<f64>> = Vec::new();
    stamp_resistor(&mut m, Some(2), Some(5), 0.5);
    assert_eq!(cells(&m), resistor(2, 5, 0.5));
    let mut m: Vec<Stamp<f64>> = Vec::new();
    stamp_resistor(&mut m, None, Some(5), 0.5);
    assert_eq!(cells(&m), vec![(5, 5, Coef::Pos(0.5))]);
    let mut m: Vec<Stamp<f64>> = Vec::new();
    stamp_resistor(&mut m, None, None, 0.5);
    assert!(m.is_empty());
}

#[test]
fn potential_equation_layout() {
    let branches = [Some(7), None];
    let mut m: Vec<Stamp<f64>> = Vec::new();
    stamp_potential_eq(&mut m, &branches, 0, Some(3), &[(Some(1), Coef::Neg(0.25)), (None, Coef::One), (Some(2), Coef::NegOne)]);
    assert_eq!(
        cells(&m),
        vec![(7, 3, Coef::One), (7, 1, Coef::Neg(0.25)), (7, 2, Coef::NegOne), (3, 7, Coef::One)]
    );
    // unbound row, grounded output: nothing
    stamp_potential_eq(&mut m, &branches, 1, Some(3), &[(Some(1), Coef::One)]);
    stamp_potential_eq(&mut m, &branches, 0, None, &[(Some(1), Coef::One)]);
    assert_eq!(m.len(), 4);
}

#[test]
fn laser_binds_only_the_wires_it_emits() {
    assert_eq!(emitted_wires(5), 3);
    assert_eq!(emitted_wires(3), 3);
    let mut b = vec![Some(1); 5];
    bind_emitted(&mut b, 5, 40);
    assert_eq!(b, vec![Some(40), Some(41), None, None, Some(42)]);
    let mut b = vec![None; 3];
    bind_emitted(&mut b, 3, 40);
    assert_eq!(b, vec![Some(40), Some(41), Some(42)]);
}

#[test]
fn cw_laser_drives_its_output_potentials() {
    let mut l = EmitterPorts::new(0);
    l.setup_model(5);
    l.setup_instance(&terminals(5), 5);
    assert_eq!(l.num_terminals(), 5);
    assert_eq!(l.num_extra_nodes(), 3);
    l.bind_extra_nodes(10);
    assert_eq!(l.residual_rows(), (Some(10), Some(11), Some(12)));
    let mut m: Vec<Stamp<f64>> = Vec::new();
    l.load_jacobian(&mut m);
    assert_eq!(
        cells(&m),
        vec![
            (10, 0, Coef::One), (0, 10, Coef::One),
            (11, 1, Coef::One), (1, 11, Coef::One),
            (12, 4, Coef::One), (4, 12, Coef::One),
        ]
    );
}

#[test]
fn laser_declines_wrong_terminal_count() {
    let mut l = EmitterPorts::new(2);
    l.setup_instance(&terminals(3), 3);
    assert_eq!(l.num_terminals(), 5);
    l.setup_instance(&terminals(5), 3);
    assert_eq!(l.num_terminals(), 5);
    assert_eq!(l.drive_nodes(), (Some(3), Some(4)));
    l.bind_extra_nodes(20);
    let mut m: Vec<Stamp<f64>> = Vec::new();
    l.load_jacobian_driven(&mut m, [0.5, 0.25], Some(2.0));
    let mut want: Vec<Cell> = vec![
        (20, 0, Coef::One), (0, 20, Coef::One),
        (21, 1, Coef::One), (1, 21, Coef::One),
        (22, 2, Coef::One), (2, 22, Coef::One),
        (20, 3, Coef::Neg(0.5)), (20, 4, Coef::Pos(0.5)),
        (21, 3, Coef::Neg(0.25)), (21, 4, Coef::Pos(0.25)),
    ];
    want.extend(resistor(3, 4, 2.0));
    assert_eq!(cells(&m), want);
}

#[test]
fn detector_stamps_shunt_and_photocurrent_slopes() {
    let mut d = DetectorPorts::new();
    d.setup_instance(&terminals(5), 3);
    assert_eq!(d.num_terminals(), 5);
    assert_eq!(d.num_extra_nodes(false), 0);
    d.bind_extra_nodes(9, false);
    assert_eq!(d.current_port(), (Some(3), Some(4)));
    let mut m: Vec<Stamp<f64>> = Vec::new();
    d.load_jacobian(&mut m, 7.0, 1e-6, &[(0.5, 0.25)], &[(0.0, 0.0)]);
    let mut want = resistor(3, 4, 1e-6);
    want.extend(vec![
        (3, 0, Coef::Neg(0.5)), (3, 1, Coef::Neg(0.25)),
        (4, 0, Coef::Pos(0.5)), (4, 1, Coef::Pos(0.25)),
    ]);
    assert_eq!(cells(&m), want);
}

#[test]
fn detector_series_resistance_gets_an_internal_junction() {
    let mut d = DetectorPorts::new();
    d.setup_instance(&terminals(12), 5);
    assert_eq!(d.num_extra_nodes(true), 1);
    d.bind_extra_nodes(30, true);
    assert_eq!(d.current_port(), (Some(30), Some(11)));
    let mut m: Vec<Stamp<f64>> = Vec::new();
    d.load_jacobian(&mut m, 2.0, 1e-6, &[(1.0, 2.0), (3.0, 4.0)], &[(5.0, 6.0), (7.0, 8.0)]);
    let mut want = branch_g(10, 30, 2.0);
    want.extend(resistor(30, 11, 1e-6));
    for (k, (f, b)) in [((1.0, 2.0), (5.0, 6.0)), ((3.0, 4.0), (7.0, 8.0))].into_iter().enumerate() {
        let w = 5 * k;
        want.extend(vec![
            (30, w, Coef::Neg(f.0)), (30, w + 1, Coef::Neg(f.1)),
            (11, w, Coef::Pos(f.0)), (11, w + 1, Coef::Pos(f.1)),
            (30, w + 2, Coef::Neg(b.0)), (30, w + 3, Coef::Neg(b.1)),
            (11, w + 2, Coef::Pos(b.0)), (11, w + 3, Coef::Pos(b.1)),
        ]);
    }
    assert_eq!(cells(&m), want);
}

#[test]
fn detector_declines_a_count_off_the_channel_grid() {
    let mut d = DetectorPorts::new();
    d.setup_instance(&terminals(6), 3);
    assert_eq!(d.num_terminals(), 5);
    d.setup_instance(&terminals(8), 3);
    assert_eq!(d.num_terminals(), 8);
    d.setup_instance(&terminals(4), 3);
    assert_eq!(d.num_terminals(), 5);
}

#[test]
fn diode_conductances_sit_across_its_terminals() {
    let mut d = DiodeNodes::new();
    assert_eq!(d.num_terminals(), 2);
    d.setup_instance(&[Some(4), None]);
    let mut m: Vec<Stamp<f64>> = Vec::new();
    d.load_jacobian_tran(&mut m, 1e-3, Some(2e-3));
    assert_eq!(cells(&m), vec![(4, 4, Coef::Pos(1e-3)), (4, 4, Coef::Pos(2e-3))]);
}

#[test]
fn bjt_series_resistances_allocate_internal_nodes() {
    let mut q = BjtNodes::new();
    q.setup_instance(&[Some(0), Some(1), Some(2)]);
    assert_eq!(BjtNodes::num_extra_nodes(true, true, false), 2);
    q.bind_extra_nodes(10, true, true, false);
    assert_eq!(q.base, Some(10), "internal base = first extra node");
    assert_eq!(q.collector, Some(11), "internal collector = second extra node");
    assert_eq!(q.emitter, Some(2), "emitter aliases external (RE = 0)");
    let core = [1.0, 2.0, 3.0, 4.0, 5.0, 6.0, 7.0, 8.0, 9.0];
    let mut m: Vec<Stamp<f64>> = Vec::new();
    q.load_jacobian(&mut m, &core, 0.125, &[Some(0.01), Some(0.001), None]);
    let mut want: Vec<Cell> = vec![
        (11, 10, Coef::Pos(1.0)), (11, 11, Coef::Pos(2.0)), (11, 2, Coef::Pos(3.0)),
        (10, 10, Coef::Pos(4.0)), (10, 11, Coef::Pos(5.0)), (10, 2, Coef::Pos(6.0)),
        (2, 10, Coef::Pos(7.0)), (2, 11, Coef::Pos(8.0)), (2, 2, Coef::Pos(9.0)),
        (11, 11, Coef::Pos(0.125)),
    ];
    want.extend(branch_g(1, 10, 0.01));
    want.extend(branch_g(0, 11, 0.001));
    assert_eq!(cells(&m), want);
}

#[test]
fn bjt_transcapacitance_is_asymmetric() {
    let mut q = BjtNodes::new();
    q.setup_instance(&[Some(0), Some(1), Some(2), Some(3)]);
    assert_eq!(q.substrate, Some(3));
    let mut m: Vec<Stamp<f64>> = Vec::new();
    q.load_cap_companions(&mut m, &[None, Some(0.5), None, None, None, None, Some(0.25)]);
    let mut want: Vec<Cell> = vec![
        (1, 1, Coef::Pos(0.5)), (1, 0, Coef::Neg(0.5)), (2, 1, Coef::Neg(0.5)), (2, 0, Coef::Pos(0.5)),
    ];
    want.extend(branch_g(3, 0, 0.25));
    assert_eq!(cells(&m), want);
}

#[test]
fn mosfet_values_land_on_their_cells() {
    let mut q = MosfetNodes::new();
    q.setup_instance(&[Some(0), Some(1), Some(2), None]);
    q.bind_extra_nodes(8, true, false);
    assert_eq!(q.drain, Some(8));
    assert_eq!(q.source, Some(2));
    let mut vals = [0.0f64; 24];
    for (i, v) in vals.iter_mut().enumerate() {
        *v = i as f64;
    }
    let mut m: Vec<Stamp<f64>> = Vec::new();
    q.load_jacobian(&mut m, &vals);
    // Every written cell is the cell `jac_pairs` names, carrying its value;
    // the grounded bulk's cells are skipped.
    let pairs = q.cells();
    let expect: Vec<Cell> = pairs
        .iter()
        .zip(vals.iter())
        .filter_map(|(&(r, c), &v)| match (r, c) {
            (Some(r), Some(c)) => Some((r, c, Coef::Pos(v))),
            _ => None,
        })
        .collect();
    assert_eq!(cells(&m), expect);
    assert_eq!(m.len(), 16);
    assert_eq!((m[0].row, m[0].col), (8, 1));
    let mut m: Vec<Stamp<f64>> = Vec::new();
    q.load_cap_companions(&mut m, &[Some(1.0), None, None, None, Some(2.0)]);
    let mut want = resistor(1, 2, 1.0);
    want.push((8, 8, Coef::Pos(2.0)));
    assert_eq!(cells(&m), want);
}

fn rotation_channel(b: usize, i0: usize, o0: usize, c: f64, s: f64) -> Vec<Cell> {
    vec![
        (b, o0, Coef::One), (b, i0, Coef::Neg(c)), (b, i0 + 1, Coef::Neg(s)), (o0, b, Coef::One),
        (b + 1, o0 + 1, Coef::One), (b + 1, i0, Coef::Pos(s)), (b + 1, i0 + 1, Coef::Neg(c)), (o0 + 1, b + 1, Coef::One),
        (b + 2, o0 + 2, Coef::One), (b + 2, i0 + 2, Coef::NegOne), (o0 + 2, b + 2, Coef::One),
    ]
}

#[test]
fn pn_shifter_stamps_junction_then_rotation() {
    let mut p = RotationPorts::new(2);
    p.setup_instance(&terminals(8), 3);
    assert_eq!(p.num_terminals(), 8);
    assert_eq!(p.num_extra_nodes(false), 3);
    p.bind_extra_nodes(20, false);
    assert_eq!(p.pair(0), (Some(6), Some(7)));
    let mut m: Vec<Stamp<f64>> = Vec::new();
    p.load_jacobian(&mut m, &[0.5], &[0.8], &[0.6]);
    let mut want = resistor(6, 7, 0.5);
    want.extend(rotation_channel(20, 0, 3, 0.8, 0.6));
    assert_eq!(cells(&m), want);
    let mut m2: Vec<Stamp<f64>> = Vec::new();
    p.load_jacobian_optics_first(&mut m2, &[0.5], &[0.8], &[0.6]);
    let mut want2 = rotation_channel(20, 0, 3, 0.8, 0.6);
    want2.extend(resistor(6, 7, 0.5));
    assert_eq!(cells(&m2), want2);
}

#[test]
fn waveguide_rotates_every_channel() {
    let mut p = RotationPorts::new(0);
    p.setup_instance(&terminals(12), 3);
    assert_eq!(p.num_extra_nodes(false), 6);
    p.bind_extra_nodes(100, false);
    let mut m: Vec<Stamp<f64>> = Vec::new();
    p.load_jacobian(&mut m, &[], &[1.0, 0.0], &[0.0, 1.0]);
    let mut want = rotation_channel(100, 0, 6, 1.0, 0.0);
    want.extend(rotation_channel(103, 3, 9, 0.0, 1.0));
    assert_eq!(cells(&m), want);
}

#[test]
fn bidirectional_rotation_mirrors_the_backward_wires() {
    let mut p = RotationPorts::new(2);
    p.setup_instance(&terminals(12), 5);
    p.bind_extra_nodes(50, false);
    let mut m: Vec<Stamp<f64>> = Vec::new();
    p.stamp_optics(&mut m, &[0.8], &[0.6]);
    let want: Vec<Cell> = vec![
        (50, 5, Coef::One), (50, 0, Coef::Neg(0.8)), (50, 1, Coef::Neg(0.6)), (5, 50, Coef::One),
        (51, 6, Coef::One), (51, 0, Coef::Pos(0.6)), (51, 1, Coef::Neg(0.8)), (6, 51, Coef::One),
        (54, 9, Coef::One), (54, 4, Coef::NegOne), (9, 54, Coef::One),
        (52, 2, Coef::One), (52, 7, Coef::Neg(0.8)), (52, 8, Coef::Neg(0.6)), (2, 52, Coef::One),
        (53, 3, Coef::One), (53, 7, Coef::Pos(0.6)), (53, 8, Coef::Neg(0.8)), (3, 53, Coef::One),
    ];
    assert_eq!(cells(&m), want);
}

#[test]
fn thermal_rc_state_row_follows_the_equation_rows() {
    let mut p = RotationPorts::new(2);
    p.setup_instance(&terminals(8), 3);
    assert_eq!(p.num_extra_nodes(true), 4);
    p.bind_extra_nodes(20, true);
    let mut m: Vec<Stamp<f64>> = Vec::new();
    p.load_jacobian_thermal_rc(&mut m, 1e-3, 2.0, 0.5, &[1.0], &[0.0]);
    let mut want = resistor(6, 7, 1e-3);
    want.extend(vec![(23, 23, Coef::Pos(2.0)), (23, 6, Coef::Neg(0.5)), (23, 7, Coef::Pos(0.5))]);
    want.extend(rotation_channel(20, 0, 3, 1.0, 0.0));
    assert_eq!(cells(&m), want);
}

#[test]
fn pn_thermal_jacobian_stamps_junction_and_heater() {
    let nodes = terminals(10);
    let branches: Vec<Option<usize>> = (30..33).map(Some).collect();
    let mut m: Vec<Stamp<f64>> = Vec::new();
    stamp_pn_ths_jacobian(&mut m, &nodes, &branches, 1, 3, 0.5, 1e-3, &[0.8], &[0.6]);
    let mut want = resistor(6, 7, 0.5);
    want.extend(resistor(8, 9, 1e-3));
    want.extend(rotation_channel(30, 0, 3, 0.8, 0.6));
    assert_eq!(cells(&m), want);
}
