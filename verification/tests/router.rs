use fairchild_core::mna::{Coef, Stamp};
use fairchild_core::photonic::awgr::{ideal_passes, routed_channel, AwgrPorts};

#[test]
fn ideal_router_is_the_cyclic_permutation() {
    let n = 4;
    for k in 0..n {
        for i in 0..n {
            let hits: Vec<usize> = (0..n).filter(|&j| ideal_passes(i, j, k, n)).collect();
            assert_eq!(hits, vec![(i + k) % n], "input {i} channel {k}");
        }
    }
}

#[test]
fn ideal_router_output_sees_every_input_once() {
    let n = 8;
    for j in 0..n {
        let mut sources: Vec<usize> = Vec::new();
        for k in 0..n {
            for i in 0..n {
                if ideal_passes(i, j, k, n) {
                    sources.push(i);
                }
            }
        }
        sources.sort_unstable();
        assert_eq!(sources, (0..n).collect::<Vec<_>>(), "output port {j}");
    }
}

#[test]
fn routed_channel_values() {
    assert_eq!(routed_channel(0, 0, 4), 0);
    assert_eq!(routed_channel(1, 0, 4), 3);
    assert_eq!(routed_channel(3, 1, 4), 2);
    assert_eq!(routed_channel(2, 2, 5), 0);
}

#[test]
fn router_finds_its_port_count_from_the_terminals() {
    let mut r = AwgrPorts::new();
    let t: Vec<Option<usize>> = (0..24).map(Some).collect();
    assert!(!r.setup_instance(&t, 3));
    assert_eq!(r.n_ports(), 2);
    assert_eq!(r.num_terminals(), 24);
    assert_eq!(r.num_extra_nodes(), 12);
    // input port 1, slot 0, wire 2 (λ); output port 0, slot 1, wire 0
    assert_eq!(r.in_wire(1, 0, 2), Some(8));
    assert_eq!(r.out_wire(0, 1, 0), Some(15));
    assert_eq!(r.lambda_source_wire(1, 1), Some(11));
    assert_eq!(r.lambda_source_wire(-1, 0), None);
    assert_eq!(r.lambda_source_wire(2, 0), None);
}

#[test]
fn router_declines_a_count_that_is_not_six_n_squared() {
    let mut r = AwgrPorts::new();
    let t: Vec<Option<usize>> = (0..12).map(Some).collect();
    assert!(!r.setup_instance(&t, 3));
    assert_eq!(r.num_terminals(), 6);
    assert_eq!(r.n_ports(), 0);
    assert_eq!(r.num_extra_nodes(), 0);
}

#[test]
fn router_declines_bidirectional_propagation() {
    let mut r = AwgrPorts::new();
    let t: Vec<Option<usize>> = (0..6).map(Some).collect();
    assert!(r.setup_instance(&t, 5));
    assert_eq!(r.num_terminals(), 6);
    assert_eq!(r.n_ports(), 0);
}

#[test]
fn router_field_rows_sum_every_input() {
    let mut r = AwgrPorts::new();
    let t: Vec<Option<usize>> = (0..6).map(Some).collect();
    r.setup_instance(&t, 3);
    r.bind_extra_nodes(10);
    let mut m: Vec<Stamp<f64>> = Vec::new();
    r.load_jacobian(&mut m, &[(0.5, 0.25)], -1);
    let got: Vec<(usize, usize, Coef<f64>)> = m.iter().map(|s| (s.row, s.col, s.coef)).collect();
    assert_eq!(
        got,
        vec![
            (10, 3, Coef::One), (10, 0, Coef::Neg(0.5)), (10, 1, Coef::Pos(0.25)), (3, 10, Coef::One),
            (11, 4, Coef::One), (11, 0, Coef::Neg(0.25)), (11, 1, Coef::Neg(0.5)), (4, 11, Coef::One),
            (12, 5, Coef::One), (5, 12, Coef::One),
        ]
    );
    assert_eq!(r.grid_lambda_slots(-1), vec![(2, 0)]);
    let mut m: Vec<Stamp<f64>> = Vec::new();
    r.load_jacobian(&mut m, &[(0.5, 0.25)], 0);
    assert_eq!(
        m[8..].iter().map(|s| (s.row, s.col, s.coef)).collect::<Vec<_>>(),
        vec![(12, 5, Coef::One), (12, 2, Coef::NegOne), (5, 12, Coef::One)]
    );
    assert!(r.grid_lambda_slots(0).is_empty());
}

#[test]
fn router_footprint_is_sorted_and_unique() {
    let mut r = AwgrPorts::new();
    let t: Vec<Option<usize>> = (0..6).map(Some).collect();
    r.setup_instance(&t, 3);
    r.bind_extra_nodes(10);
    assert_eq!(
        r.stamp_pairs(),
        vec![
            (3, 10), (4, 11), (5, 12), (10, 0), (10, 1), (10, 3), (10, 10),
            (11, 0), (11, 1), (11, 4), (11, 11), (12, 2), (12, 5), (12, 12),
        ]
    );
    let mut r = AwgrPorts::new();
    let t = vec![Some(0), Some(0), Some(0), Some(3), Some(4), None];
    r.setup_instance(&t, 3);
    r.bind_extra_nodes(10);
    assert_eq!(
        r.stamp_pairs(),
        vec![(3, 10), (4, 11), (10, 0), (10, 3), (10, 10), (11, 0), (11, 4), (11, 11), (12, 0)]
    );
}

#[test]
fn router_footprint_covers_every_stamp() {
    let mut r = AwgrPorts::new();
    let t: Vec<Option<usize>> = (0..24).map(Some).collect();
    r.setup_instance(&t, 3);
    r.bind_extra_nodes(24);
    let fp = r.stamp_pairs();
    let coeffs = vec![(0.5, 0.5); 8];
    let mut m: Vec<Stamp<f64>> = Vec::new();
    r.load_jacobian(&mut m, &coeffs, 1);
    for s in &m {
        assert!(fp.binary_search(&(s.row, s.col)).is_ok(), "({}, {})", s.row, s.col);
    }
    assert!(fp.windows(2).all(|w| w[0] < w[1]));
}
