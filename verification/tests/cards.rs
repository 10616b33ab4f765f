use fairchild_core::bjt::BjtNodes;
use fairchild_core::mna::{Coef, Stamp};
use fairchild_core::model_card::{
    bjt_card_value, bjt_param, mos1_card_value, mos1_kp_given, mos1_oxide, mos1_param, route_bjt_params,
    route_mos1_params, BjtParam, Mos1Param,
};
use fairchild_core::photonic::keys::{
    active_recognises, drive_model_accepts, full_drive_accepts, full_drive_param, heater_param,
    heater_rc_param, injection_param, pn_drive_param, pn_full_param, DriveModel, PnParam,
};
use fairchild_core::text::{trim_chars, white_space};

fn dense(stamps: &[Stamp<f64>], n: usize) -> Vec<Vec<f64>> {
    let mut a = vec![vec![0.0; n]; n];
    for s in stamps {
        let v = match s.coef {
            Coef::One => 1.0,
            Coef::NegOne => -1.0,
            Coef::Pos(v) => v,
            Coef::Neg(v) => -v,
        };
        a[s.row][s.col] += v;
    }
    a
}

#[test]
fn series_resistances_allocate_internal_nodes_and_stamp() {
    let card: Vec<(String, f64)> = vec![
        ("is".into(), 1e-15),
        ("bf".into(), 100.0),
        ("rb".into(), 1000.0),
        ("rc".into(), 50.0),
    ];
    let (routed, unknown) = route_bjt_params(&card, &[]);
    assert!(unknown.is_empty(), "rb/rc must be recognised: {unknown:?}");
    let rb = bjt_card_value(&routed, BjtParam::Rb).unwrap_or(0.0);
    let rc = bjt_card_value(&routed, BjtParam::Rc).unwrap_or(0.0);
    let re = bjt_card_value(&routed, BjtParam::Re).unwrap_or(0.0);
    let mut q = BjtNodes::new();
    q.setup_instance(&[Some(0), Some(1), Some(2), None]);
    assert_eq!(BjtNodes::num_extra_nodes(rb > 0.0, rc > 0.0, re > 0.0), 2, "RB and RC each need an internal node");
    q.bind_extra_nodes(3, rb > 0.0, rc > 0.0, re > 0.0);
    assert_eq!(q.base, Some(3), "internal base = first extra node");
    assert_eq!(q.collector, Some(4), "internal collector = second extra node");
    assert_eq!(q.emitter, Some(2), "emitter aliases external (RE = 0)");
    let mut m: Vec<Stamp<f64>> = Vec::new();
    q.load_jacobian(&mut m, &[0.5; 9], 1e-12, &[Some(1.0 / rb), Some(1.0 / rc), None]);
    let a = dense(&m, 5);
    assert!((a[1][1] - 1.0 / 1000.0).abs() < 1e-12, "ext-base diagonal should equal 1/RB, got {:.6e}", a[1][1]);
    assert!((a[1][3] + 1.0 / 1000.0).abs() < 1e-12, "ext-base↔int-base coupling should be -1/RB, got {:.6e}", a[1][3]);
    assert!((a[0][0] - 1.0 / 50.0).abs() < 1e-12, "ext-collector diagonal should equal 1/RC, got {:.6e}", a[0][0]);
    assert!((a[0][4] + 1.0 / 50.0).abs() < 1e-12, "ext-collector↔int-collector coupling should be -1/RC, got {:.6e}", a[0][4]);
}

#[test]
fn bjt_keys_are_case_blind_with_aliases() {
    assert_eq!(bjt_param("HFE"), Some(BjtParam::Bf));
    assert_eq!(bjt_param("Irb0"), Some(BjtParam::Irb));
    assert_eq!(bjt_param("vb"), Some(BjtParam::Var));
    assert_eq!(bjt_param("CCS"), Some(BjtParam::Cjs));
    assert_eq!(bjt_param("area"), None);
    assert_eq!(bjt_param(" is"), None);
}

#[test]
fn bjt_card_routes_unknown_and_unmodelled_keys() {
    let card: Vec<(String, f64)> = vec![
        ("BF".into(), 50.0),
        ("Foo".into(), 1.0),
        ("PTF".into(), 2.0),
        ("hfe".into(), 80.0),
        ("bar".into(), 3.0),
    ];
    let (routed, unknown) = route_bjt_params(&card, &["ptf".to_string()]);
    assert_eq!(routed, vec![(BjtParam::Bf, 50.0), (BjtParam::Bf, 80.0)]);
    assert_eq!(unknown, vec!["Foo".to_string(), "bar".to_string()]);
    assert_eq!(bjt_card_value(&routed, BjtParam::Bf), Some(80.0));
    assert_eq!(bjt_card_value(&routed, BjtParam::Rbm), None);
}

#[test]
fn mosfet_card_tracks_kp_and_oxide() {
    assert_eq!(mos1_param("VTH0"), Some(Mos1Param::Vto));
    assert_eq!(mos1_param("u0"), Some(Mos1Param::Uo));
    let card: Vec<(String, f64)> = vec![("TOX".into(), 1e-8), ("cox".into(), 3e-3), ("tox".into(), 2e-8), ("w".into(), 1.0)];
    let (routed, unknown) = route_mos1_params(&card, &[]);
    assert_eq!(unknown, vec!["w".to_string()]);
    assert!(!mos1_kp_given(&routed));
    assert_eq!(mos1_oxide(&routed), Some((Mos1Param::Tox, 2e-8)));
    let (routed, _) = route_mos1_params(&[("KP".to_string(), 2e-5)], &[]);
    assert!(mos1_kp_given(&routed));
    assert_eq!(mos1_card_value(&routed, Mos1Param::Kp), Some(2e-5));
    assert_eq!(mos1_oxide(&routed), None);
}

#[test]
fn pn_names_route_by_model() {
    assert_eq!(pn_full_param("L_UM"), Some(PnParam::LUm));
    assert_eq!(pn_full_param("Tau"), Some(PnParam::TauCarrier));
    assert_eq!(pn_full_param("dn_di"), None);
    assert_eq!(full_drive_param(&"dn_di".to_string()), Some(PnParam::DnDi));
    assert_eq!(full_drive_param(&"DN_DI".to_string()), None);
    assert!(!full_drive_accepts(&"l_um".to_string()));
    assert!(full_drive_accepts(&"r_series".to_string()));
    assert!(active_recognises(&[DriveModel::FullPn], "L_UM"));
    assert!(active_recognises(&[DriveModel::FullPn], "Dn_Di"));
    assert!(!active_recognises(&[DriveModel::FullPn], "pin"));
}

#[test]
fn drive_models_answer_their_own_names() {
    assert_eq!(injection_param(&"tau".to_string()), Some(PnParam::TauCarrier));
    assert_eq!(heater_param(&"p_pi_th".to_string()), Some(PnParam::PPi));
    assert_eq!(heater_rc_param(&"p_pi_th".to_string()), None);
    assert_eq!(heater_rc_param(&"tau".to_string()), Some(PnParam::TauTh));
    assert_eq!(pn_drive_param(&"wl_ref_m".to_string()), Some(PnParam::WlRefM));
    assert!(!drive_model_accepts(DriveModel::Pn, &"wl_ref_m".to_string()));
    assert!(!drive_model_accepts(DriveModel::HeaterRc, &"p_pi_th".to_string()));
    assert!(drive_model_accepts(DriveModel::Heater, &"p_pi_th".to_string()));
    assert!(active_recognises(&[DriveModel::Pn], "WL_REF_M"));
    assert!(active_recognises(&[DriveModel::Pn, DriveModel::Heater], "R_HEATER"));
    assert!(!active_recognises(&[DriveModel::Pn], "R_HEATER"));
    assert!(!active_recognises(&[], "tau"));
    assert!(active_recognises(&[DriveModel::Injection], "Tau"));
}

#[test]
fn trim_follows_str_trim() {
    for s in ["", "  ", " a b ", "\u{3000}x\u{85}", "\u{200b}y", "\t\r\nz\u{a0}"] {
        let c: Vec<char> = s.chars().collect();
        let got: String = trim_chars(&c).iter().collect();
        assert_eq!(got, s.trim(), "{s:?}");
    }
    for c in ['\u{1680}', '\u{2028}', '\u{205f}', 'a', '\u{180e}'] {
        assert_eq!(white_space(c), c.is_whitespace(), "{c:?}");
    }
}
