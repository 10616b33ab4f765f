use fairchild_core::mna::{Coef, Stamp};
use fairchild_core::photonic::drive::DriveWiring;

type Cell = (usize, usize, Coef<f64>);

fn cells(m: &[Stamp<f64>]) -> Vec<Cell> {
    m.iter().map(|s| (s.row, s.col, s.coef)).collect()
}

fn resistor(a: usize, b: usize, g: f64) -> Vec<Cell> {
    vec![(a, a, Coef::Pos(g)), (a, b, Coef::Neg(g)), (b, b, Coef::Pos(g)), (b, a, Coef::Neg(g))]
}

#[test]
fn heater_terminals_follow_the_junction() {
    let mut d = DriveWiring::with_heater(DriveWiring::junction());
    assert_eq!(d.num_electrical_terminals(), 4);
    assert_eq!(d.num_internal_nodes(), 0);
    d.set_terminals(&[Some(1), Some(2), Some(3), Some(4)]);
    assert_eq!(d.pair(0), (Some(1), Some(2)));
    assert_eq!(d.pair(1), (Some(3), Some(4)));
    let mut m: Vec<Stamp<f64>> = Vec::new();
    d.stamp(&mut m, &[0.5, 1e-3], &[(0.0, 0.0), (0.0, 0.0)]);
    let mut want = resistor(1, 2, 0.5);
    want.extend(resistor(3, 4, 1e-3));
    assert_eq!(cells(&m), want);
}

#[test]
fn thermal_rc_owns_one_row() {
    let mut d = DriveWiring::heater_rc();
    assert_eq!(d.num_electrical_terminals(), 2);
    assert_eq!(d.num_internal_nodes(), 1);
    d.set_terminals(&[Some(5), None, Some(9)]);
    assert_eq!(d.pair(0), (Some(5), None));
    d.bind_internal(40);
    let mut m: Vec<Stamp<f64>> = Vec::new();
    d.stamp(&mut m, &[1e-3], &[(1.0, 0.25)]);
    assert_eq!(
        cells(&m),
        vec![(5, 5, Coef::Pos(1e-3)), (40, 40, Coef::Pos(1.0)), (40, 5, Coef::Neg(0.25))]
    );
}

#[test]
fn heater_after_a_thermal_rc_keeps_its_row() {
    let mut d = DriveWiring::with_heater(DriveWiring::heater_rc());
    assert_eq!(d.num_internal_nodes(), 1);
    d.set_terminals(&[Some(1), Some(2), Some(3), Some(4)]);
    d.bind_internal(7);
    let mut m: Vec<Stamp<f64>> = Vec::new();
    d.stamp(&mut m, &[0.1, 0.2], &[(2.0, 3.0), (9.0, 9.0)]);
    let mut want = resistor(1, 2, 0.1);
    want.extend(vec![(7, 7, Coef::Pos(2.0)), (7, 1, Coef::Neg(3.0)), (7, 2, Coef::Pos(3.0))]);
    want.extend(resistor(3, 4, 0.2));
    assert_eq!(cells(&m), want);
}

#[test]
fn plain_heater_needs_no_row() {
    let mut d = DriveWiring::heater();
    d.set_terminals(&[Some(0), Some(1)]);
    d.bind_internal(3);
    assert_eq!(d.num_internal_nodes(), 0);
    let mut m: Vec<Stamp<f64>> = Vec::new();
    d.stamp(&mut m, &[1.0], &[(5.0, 5.0)]);
    assert_eq!(cells(&m), resistor(0, 1, 1.0));
}
