use fairchild_core::model_card::{
    diode_card_value, diode_param, is_area_key, mos1_instance_param, mos1_instance_value,
    route_diode_params, DiodeParam, route_mos1_instance_params, Mos1Inst,
};
use fairchild_core::photonic::keys::{
    active_recognises, expr_drive_param, pn_thermal_full_param, DriveModel, PnParam,
};
use fairchild_core::photonic::names::{
    awgr_param, coupler_param, cw_laser_param, detector_param, driven_laser_param, facet_param,
    grating_param, mzm_param, splitter_param, OpticalParam,
};

#[test]
fn awgr_names_and_aliases() {
    assert_eq!(awgr_param("Wavelength_NM"), Some(OpticalParam::Lambda0Nm));
    assert_eq!(awgr_param("spacing_ghz"), Some(OpticalParam::DfGhz));
    assert_eq!(awgr_param("BW_GHZ"), Some(OpticalParam::FwhmGhz));
    assert_eq!(awgr_param("lambda_src"), Some(OpticalParam::LambdaSrc));
    assert_eq!(awgr_param("fsr"), None);
}

#[test]
fn passive_device_names() {
    assert_eq!(coupler_param("KappaL"), Some(OpticalParam::KappaL));
    assert_eq!(coupler_param("length"), Some(OpticalParam::LM));
    assert_eq!(splitter_param("R"), Some(OpticalParam::R));
    assert_eq!(splitter_param("il_db"), Some(OpticalParam::AlphaDb));
    assert_eq!(grating_param("alpha_db_il"), Some(OpticalParam::AlphaDb));
    assert_eq!(grating_param("alpha"), Some(OpticalParam::Alpha));
    assert_eq!(facet_param("T"), Some(OpticalParam::Transmittance));
    assert_eq!(facet_param("l"), Some(OpticalParam::Loss));
    assert_eq!(facet_param("phase"), None);
    assert_eq!(mzm_param("VPI"), Some(OpticalParam::VPi));
    assert_eq!(mzm_param("er_db"), Some(OpticalParam::ERDb));
    assert_eq!(mzm_param("r"), None);
}

#[test]
fn detector_takes_capacitance_names() {
    assert_eq!(detector_param("C_J0"), Some(OpticalParam::CPar));
    assert_eq!(detector_param("r_s"), Some(OpticalParam::RSeries));
    assert_eq!(detector_param("gain"), None);
}

#[test]
fn laser_names() {
    assert_eq!(cw_laser_param("Power_mW"), Some(OpticalParam::PowerMw));
    assert_eq!(cw_laser_param("rin"), Some(OpticalParam::RinDbHz));
    assert_eq!(cw_laser_param("slope"), None);
    assert_eq!(driven_laser_param("VTH"), Some(OpticalParam::VTh));
    assert_eq!(driven_laser_param("phase_deg"), Some(OpticalParam::Phi0Deg));
    assert_eq!(driven_laser_param("re_amp"), None);
}

#[test]
fn thermal_full_shifter_prefers_heater_names() {
    assert_eq!(pn_thermal_full_param("R"), Some(PnParam::RHeater));
    assert_eq!(pn_thermal_full_param("P_PI_TH"), Some(PnParam::PPi));
    assert_eq!(pn_thermal_full_param("n"), Some(PnParam::NDiode));
    assert_eq!(pn_thermal_full_param("g_pn"), None);
}

#[test]
fn expression_drive_takes_its_conductance() {
    assert_eq!(expr_drive_param(&"g_pn".to_string()), Some(PnParam::GPn));
    assert_eq!(expr_drive_param(&"G_PN".to_string()), None);
    assert!(active_recognises(&[DriveModel::Expr], "G_PN"));
    assert!(!active_recognises(&[DriveModel::Expr], "dn_dv"));
}

#[test]
fn mosfet_instance_geometry_routes() {
    assert_eq!(mos1_instance_param("AS"), Some(Mos1Inst::As));
    assert_eq!(mos1_instance_param("nf"), None);
    let params = vec![
        ("W".to_string(), 2e-6),
        ("m".to_string(), 2.0),
        ("l".to_string(), 1e-6),
        ("w".to_string(), 4e-6),
    ];
    let (routed, unknown) = route_mos1_instance_params(&params);
    assert_eq!(routed, vec![(Mos1Inst::W, 2e-6), (Mos1Inst::L, 1e-6), (Mos1Inst::W, 4e-6)]);
    assert_eq!(unknown, vec!["m".to_string()]);
    assert_eq!(mos1_instance_value(&routed, Mos1Inst::W), Some(4e-6));
    assert_eq!(mos1_instance_value(&routed, Mos1Inst::Pd), None);
}

#[test]
fn area_is_the_instance_key() {
    assert!(is_area_key("AREA"));
    assert!(is_area_key("Area"));
    assert!(!is_area_key("areas"));
    assert!(!is_area_key("m"));
}

#[test]
fn diode_card_keys_are_case_sensitive() {
    assert_eq!(diode_param("cj0"), Some(DiodeParam::Cjo));
    assert_eq!(diode_param("m"), Some(DiodeParam::Mj));
    assert_eq!(diode_param("IS"), None);
    let params = vec![
        ("is".to_string(), 1e-15),
        ("IS".to_string(), 2e-15),
        ("bv".to_string(), -5.0),
        ("xyz".to_string(), 1.0),
        ("is".to_string(), 3e-15),
    ];
    let unmodelled = vec!["xyz".to_string()];
    let (routed, unknown) = route_diode_params(&params, &unmodelled);
    assert_eq!(routed, vec![(DiodeParam::Is, 1e-15), (DiodeParam::Bv, -5.0), (DiodeParam::Is, 3e-15)]);
    assert_eq!(unknown, vec!["IS".to_string()]);
    assert_eq!(diode_card_value(&routed, DiodeParam::Is), Some(3e-15));
}
