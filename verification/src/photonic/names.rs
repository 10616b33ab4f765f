//! Parameter names of the passive and source photonic devices: which
//! name (or alias), compared lower-cased, sets which parameter. A device
//! accepts a name exactly when it sets a parameter; the value, its unit
//! and any clamp are the caller's.

use vstd::prelude::*;
use crate::text::{is_key, lowercase_key, lowercased};

verus! {

/// A parameter of a passive or source photonic device.
#[derive(Clone, Copy, PartialEq, Eq, Structural, Debug)]
pub enum OpticalParam {
    Lambda0Nm,
    Lambda0M,
    DfGhz,
    FsrGhz,
    FwhmGhz,
    ShapeP,
    IlDb,
    IlTiltDb,
    XtAdjDb,
    XtBgDb,
    DlambdaDtPmPerK,
    TNomK,
    LambdaSrc,
    KappaPerM,
    LUm,
    LM,
    KappaL,
    Responsivity,
    IDark,
    RShunt,
    RSeries,
    CPar,
    Reflectance,
    Transmittance,
    Loss,
    PhaseDeg,
    AlphaDb,
    Alpha,
    PowerMw,
    PowerW,
    Phi0Deg,
    WavelengthNm,
    WavelengthM,
    RinDbHz,
    ReAmp,
    ImAmp,
    SlopeWV,
    SlopeMwV,
    VTh,
    PFloorW,
    VKneeV,
    RIn,
    VPi,
    ER,
    ERDb,
    FC,
    R,
}

/// The parameter a lower-cased name sets on the arrayed-waveguide grating router.
pub open spec fn awgr_param_spec(k: Seq<char>) -> Option<OpticalParam> {
    if k == "lambda0_nm"@ || k == "wavelength_nm"@ {
        Some(OpticalParam::Lambda0Nm)
    } else if k == "lambda0_m"@ {
        Some(OpticalParam::Lambda0M)
    } else if k == "df_ghz"@ || k == "spacing_ghz"@ {
        Some(OpticalParam::DfGhz)
    } else if k == "fsr_ghz"@ {
        Some(OpticalParam::FsrGhz)
    } else if k == "fwhm_ghz"@ || k == "bw_ghz"@ {
        Some(OpticalParam::FwhmGhz)
    } else if k == "shape_p"@ {
        Some(OpticalParam::ShapeP)
    } else if k == "il_db"@ {
        Some(OpticalParam::IlDb)
    } else if k == "il_tilt_db"@ {
        Some(OpticalParam::IlTiltDb)
    } else if k == "xt_adj_db"@ {
        Some(OpticalParam::XtAdjDb)
    } else if k == "xt_bg_db"@ {
        Some(OpticalParam::XtBgDb)
    } else if k == "dlambda_dt_pm_per_k"@ {
        Some(OpticalParam::DlambdaDtPmPerK)
    } else if k == "t_nom_k"@ {
        Some(OpticalParam::TNomK)
    } else if k == "lambda_src"@ {
        Some(OpticalParam::LambdaSrc)
    } else {
        None
    }
}

/// The parameter the lower-cased name `k` sets on the arrayed-waveguide grating router.
pub fn awgr_key(k: &String) -> (r: Option<OpticalParam>)
    ensures
        r == awgr_param_spec(k@),
{
    if is_key(k, "lambda0_nm") || is_key(k, "wavelength_nm") {
        Some(OpticalParam::Lambda0Nm)
    } else if is_key(k, "lambda0_m") {
        Some(OpticalParam::Lambda0M)
    } else if is_key(k, "df_ghz") || is_key(k, "spacing_ghz") {
        Some(OpticalParam::DfGhz)
    } else if is_key(k, "fsr_ghz") {
        Some(OpticalParam::FsrGhz)
    } else if is_key(k, "fwhm_ghz") || is_key(k, "bw_ghz") {
        Some(OpticalParam::FwhmGhz)
    } else if is_key(k, "shape_p") {
        Some(OpticalParam::ShapeP)
    } else if is_key(k, "il_db") {
        Some(OpticalParam::IlDb)
    } else if is_key(k, "il_tilt_db") {
        Some(OpticalParam::IlTiltDb)
    } else if is_key(k, "xt_adj_db") {
        Some(OpticalParam::XtAdjDb)
    } else if is_key(k, "xt_bg_db") {
        Some(OpticalParam::XtBgDb)
    } else if is_key(k, "dlambda_dt_pm_per_k") {
        Some(OpticalParam::DlambdaDtPmPerK)
    } else if is_key(k, "t_nom_k") {
        Some(OpticalParam::TNomK)
    } else if is_key(k, "lambda_src") {
        Some(OpticalParam::LambdaSrc)
    } else {
        None
    }
}

/// The parameter `name` sets on the arrayed-waveguide grating router; a name it takes marks the routing coefficients stale.
pub fn awgr_param(name: &str) -> (r: Option<OpticalParam>)
    ensures
        r == awgr_param_spec(lowercased(name@)),
{
    let lk = lowercase_key(name);
    awgr_key(&lk)
}

/// The parameter a lower-cased name sets on the directional coupler.
pub open spec fn coupler_param_spec(k: Seq<char>) -> Option<OpticalParam> {
    if k == "kappa_per_m"@ || k == "kappa"@ {
        Some(OpticalParam::KappaPerM)
    } else if k == "l_um"@ {
        Some(OpticalParam::LUm)
    } else if k == "l_m"@ || k == "length"@ {
        Some(OpticalParam::LM)
    } else if k == "kappa_l"@ || k == "kappal"@ {
        Some(OpticalParam::KappaL)
    } else {
        None
    }
}

/// The parameter the lower-cased name `k` sets on the directional coupler.
pub fn coupler_key(k: &String) -> (r: Option<OpticalParam>)
    ensures
        r == coupler_param_spec(k@),
{
    if is_key(k, "kappa_per_m") || is_key(k, "kappa") {
        Some(OpticalParam::KappaPerM)
    } else if is_key(k, "l_um") {
        Some(OpticalParam::LUm)
    } else if is_key(k, "l_m") || is_key(k, "length") {
        Some(OpticalParam::LM)
    } else if is_key(k, "kappa_l") || is_key(k, "kappal") {
        Some(OpticalParam::KappaL)
    } else {
        None
    }
}

/// The parameter `name` sets on the directional coupler.
pub fn coupler_param(name: &str) -> (r: Option<OpticalParam>)
    ensures
        r == coupler_param_spec(lowercased(name@)),
{
    let lk = lowercase_key(name);
    coupler_key(&lk)
}

/// The parameter a lower-cased name sets on the photodetector (the parasitic capacitance names are taken and have no effect).
pub open spec fn detector_param_spec(k: Seq<char>) -> Option<OpticalParam> {
    if k == "responsivity"@ {
        Some(OpticalParam::Responsivity)
    } else if k == "i_dark"@ || k == "i_dark_a"@ {
        Some(OpticalParam::IDark)
    } else if k == "r_shunt"@ {
        Some(OpticalParam::RShunt)
    } else if k == "r_series"@ || k == "r_s"@ {
        Some(OpticalParam::RSeries)
    } else if k == "c_par"@ || k == "c_j0"@ || k == "c_par_f"@ {
        Some(OpticalParam::CPar)
    } else {
        None
    }
}

/// The parameter the lower-cased name `k` sets on the photodetector.
pub fn detector_key(k: &String) -> (r: Option<OpticalParam>)
    ensures
        r == detector_param_spec(k@),
{
    if is_key(k, "responsivity") {
        Some(OpticalParam::Responsivity)
    } else if is_key(k, "i_dark") || is_key(k, "i_dark_a") {
        Some(OpticalParam::IDark)
    } else if is_key(k, "r_shunt") {
        Some(OpticalParam::RShunt)
    } else if is_key(k, "r_series") || is_key(k, "r_s") {
        Some(OpticalParam::RSeries)
    } else if is_key(k, "c_par") || is_key(k, "c_j0") || is_key(k, "c_par_f") {
        Some(OpticalParam::CPar)
    } else {
        None
    }
}

/// The parameter `name` sets on the photodetector (the parasitic capacitance names are taken and have no effect).
pub fn detector_param(name: &str) -> (r: Option<OpticalParam>)
    ensures
        r == detector_param_spec(lowercased(name@)),
{
    let lk = lowercase_key(name);
    detector_key(&lk)
}

/// The parameter a lower-cased name sets on the facet / partial reflector.
pub open spec fn facet_param_spec(k: Seq<char>) -> Option<OpticalParam> {
    if k == "reflectance"@ || k == "r"@ || k == "r_power"@ {
        Some(OpticalParam::Reflectance)
    } else if k == "transmittance"@ || k == "t"@ || k == "t_power"@ {
        Some(OpticalParam::Transmittance)
    } else if k == "loss"@ || k == "l"@ || k == "loss_power"@ {
        Some(OpticalParam::Loss)
    } else if k == "phase_deg"@ || k == "phi_deg"@ {
        Some(OpticalParam::PhaseDeg)
    } else {
        None
    }
}

/// The parameter the lower-cased name `k` sets on the facet / partial reflector.
pub fn facet_key(k: &String) -> (r: Option<OpticalParam>)
    ensures
        r == facet_param_spec(k@),
{
    if is_key(k, "reflectance") || is_key(k, "r") || is_key(k, "r_power") {
        Some(OpticalParam::Reflectance)
    } else if is_key(k, "transmittance") || is_key(k, "t") || is_key(k, "t_power") {
        Some(OpticalParam::Transmittance)
    } else if is_key(k, "loss") || is_key(k, "l") || is_key(k, "loss_power") {
        Some(OpticalParam::Loss)
    } else if is_key(k, "phase_deg") || is_key(k, "phi_deg") {
        Some(OpticalParam::PhaseDeg)
    } else {
        None
    }
}

/// The parameter `name` sets on the facet / partial reflector.
pub fn facet_param(name: &str) -> (r: Option<OpticalParam>)
    ensures
        r == facet_param_spec(lowercased(name@)),
{
    let lk = lowercase_key(name);
    facet_key(&lk)
}

/// The parameter a lower-cased name sets on the grating coupler.
pub open spec fn grating_param_spec(k: Seq<char>) -> Option<OpticalParam> {
    if k == "alpha_db"@ || k == "alpha_db_il"@ || k == "il_db"@ {
        Some(OpticalParam::AlphaDb)
    } else if k == "alpha"@ {
        Some(OpticalParam::Alpha)
    } else {
        None
    }
}

/// The parameter the lower-cased name `k` sets on the grating coupler.
pub fn grating_key(k: &String) -> (r: Option<OpticalParam>)
    ensures
        r == grating_param_spec(k@),
{
    if is_key(k, "alpha_db") || is_key(k, "alpha_db_il") || is_key(k, "il_db") {
        Some(OpticalParam::AlphaDb)
    } else if is_key(k, "alpha") {
        Some(OpticalParam::Alpha)
    } else {
        None
    }
}

/// The parameter `name` sets on the grating coupler.
pub fn grating_param(name: &str) -> (r: Option<OpticalParam>)
    ensures
        r == grating_param_spec(lowercased(name@)),
{
    let lk = lowercase_key(name);
    grating_key(&lk)
}

/// The parameter a lower-cased name sets on the CW laser source.
pub open spec fn cw_laser_param_spec(k: Seq<char>) -> Option<OpticalParam> {
    if k == "power_mw"@ {
        Some(OpticalParam::PowerMw)
    } else if k == "power_w"@ {
        Some(OpticalParam::PowerW)
    } else if k == "phi_0_deg"@ || k == "phase_deg"@ {
        Some(OpticalParam::Phi0Deg)
    } else if k == "wavelength_nm"@ {
        Some(OpticalParam::WavelengthNm)
    } else if k == "wavelength_m"@ {
        Some(OpticalParam::WavelengthM)
    } else if k == "rin_db_hz"@ || k == "rin"@ {
        Some(OpticalParam::RinDbHz)
    } else if k == "re_amp"@ {
        Some(OpticalParam::ReAmp)
    } else if k == "im_amp"@ {
        Some(OpticalParam::ImAmp)
    } else {
        None
    }
}

/// The parameter the lower-cased name `k` sets on the CW laser source.
pub fn cw_laser_key(k: &String) -> (r: Option<OpticalParam>)
    ensures
        r == cw_laser_param_spec(k@),
{
    if is_key(k, "power_mw") {
        Some(OpticalParam::PowerMw)
    } else if is_key(k, "power_w") {
        Some(OpticalParam::PowerW)
    } else if is_key(k, "phi_0_deg") || is_key(k, "phase_deg") {
        Some(OpticalParam::Phi0Deg)
    } else if is_key(k, "wavelength_nm") {
        Some(OpticalParam::WavelengthNm)
    } else if is_key(k, "wavelength_m") {
        Some(OpticalParam::WavelengthM)
    } else if is_key(k, "rin_db_hz") || is_key(k, "rin") {
        Some(OpticalParam::RinDbHz)
    } else if is_key(k, "re_amp") {
        Some(OpticalParam::ReAmp)
    } else if is_key(k, "im_amp") {
        Some(OpticalParam::ImAmp)
    } else {
        None
    }
}

/// The parameter `name` sets on the CW laser source.
pub fn cw_laser_param(name: &str) -> (r: Option<OpticalParam>)
    ensures
        r == cw_laser_param_spec(lowercased(name@)),
{
    let lk = lowercase_key(name);
    cw_laser_key(&lk)
}

/// The parameter a lower-cased name sets on the directly modulated laser.
pub open spec fn driven_laser_param_spec(k: Seq<char>) -> Option<OpticalParam> {
    if k == "slope_w_v"@ || k == "slope"@ {
        Some(OpticalParam::SlopeWV)
    } else if k == "slope_mw_v"@ {
        Some(OpticalParam::SlopeMwV)
    } else if k == "v_th"@ || k == "vth"@ {
        Some(OpticalParam::VTh)
    } else if k == "p_floor_w"@ {
        Some(OpticalParam::PFloorW)
    } else if k == "v_knee_v"@ || k == "v_knee"@ {
        Some(OpticalParam::VKneeV)
    } else if k == "r_in"@ {
        Some(OpticalParam::RIn)
    } else if k == "phi_0_deg"@ || k == "phase_deg"@ {
        Some(OpticalParam::Phi0Deg)
    } else if k == "wavelength_nm"@ {
        Some(OpticalParam::WavelengthNm)
    } else if k == "wavelength_m"@ {
        Some(OpticalParam::WavelengthM)
    } else if k == "rin_db_hz"@ || k == "rin"@ {
        Some(OpticalParam::RinDbHz)
    } else {
        None
    }
}

/// The parameter the lower-cased name `k` sets on the directly modulated laser.
pub fn driven_laser_key(k: &String) -> (r: Option<OpticalParam>)
    ensures
        r == driven_laser_param_spec(k@),
{
    if is_key(k, "slope_w_v") || is_key(k, "slope") {
        Some(OpticalParam::SlopeWV)
    } else if is_key(k, "slope_mw_v") {
        Some(OpticalParam::SlopeMwV)
    } else if is_key(k, "v_th") || is_key(k, "vth") {
        Some(OpticalParam::VTh)
    } else if is_key(k, "p_floor_w") {
        Some(OpticalParam::PFloorW)
    } else if is_key(k, "v_knee_v") || is_key(k, "v_knee") {
        Some(OpticalParam::VKneeV)
    } else if is_key(k, "r_in") {
        Some(OpticalParam::RIn)
    } else if is_key(k, "phi_0_deg") || is_key(k, "phase_deg") {
        Some(OpticalParam::Phi0Deg)
    } else if is_key(k, "wavelength_nm") {
        Some(OpticalParam::WavelengthNm)
    } else if is_key(k, "wavelength_m") {
        Some(OpticalParam::WavelengthM)
    } else if is_key(k, "rin_db_hz") || is_key(k, "rin") {
        Some(OpticalParam::RinDbHz)
    } else {
        None
    }
}

/// The parameter `name` sets on the directly modulated laser.
pub fn driven_laser_param(name: &str) -> (r: Option<OpticalParam>)
    ensures
        r == driven_laser_param_spec(lowercased(name@)),
{
    let lk = lowercase_key(name);
    driven_laser_key(&lk)
}

/// The parameter a lower-cased name sets on the Mach-Zehnder modulator.
pub open spec fn mzm_param_spec(k: Seq<char>) -> Option<OpticalParam> {
    if k == "v_pi"@ || k == "vpi"@ {
        Some(OpticalParam::VPi)
    } else if k == "alpha"@ {
        Some(OpticalParam::Alpha)
    } else if k == "alpha_db"@ || k == "il_db"@ {
        Some(OpticalParam::AlphaDb)
    } else if k == "e_r"@ || k == "er"@ {
        Some(OpticalParam::ER)
    } else if k == "e_r_db"@ || k == "er_db"@ {
        Some(OpticalParam::ERDb)
    } else if k == "f_c"@ || k == "fc"@ {
        Some(OpticalParam::FC)
    } else {
        None
    }
}

/// The parameter the lower-cased name `k` sets on the Mach-Zehnder modulator.
pub fn mzm_key(k: &String) -> (r: Option<OpticalParam>)
    ensures
        r == mzm_param_spec(k@),
{
    if is_key(k, "v_pi") || is_key(k, "vpi") {
        Some(OpticalParam::VPi)
    } else if is_key(k, "alpha") {
        Some(OpticalParam::Alpha)
    } else if is_key(k, "alpha_db") || is_key(k, "il_db") {
        Some(OpticalParam::AlphaDb)
    } else if is_key(k, "e_r") || is_key(k, "er") {
        Some(OpticalParam::ER)
    } else if is_key(k, "e_r_db") || is_key(k, "er_db") {
        Some(OpticalParam::ERDb)
    } else if is_key(k, "f_c") || is_key(k, "fc") {
        Some(OpticalParam::FC)
    } else {
        None
    }
}

/// The parameter `name` sets on the Mach-Zehnder modulator.
pub fn mzm_param(name: &str) -> (r: Option<OpticalParam>)
    ensures
        r == mzm_param_spec(lowercased(name@)),
{
    let lk = lowercase_key(name);
    mzm_key(&lk)
}

/// The parameter a lower-cased name sets on the 1x2 splitter.
pub open spec fn splitter_param_spec(k: Seq<char>) -> Option<OpticalParam> {
    if k == "alpha"@ {
        Some(OpticalParam::Alpha)
    } else if k == "alpha_db"@ || k == "il_db"@ {
        Some(OpticalParam::AlphaDb)
    } else if k == "r"@ || k == "split_ratio"@ {
        Some(OpticalParam::R)
    } else {
        None
    }
}

/// The parameter the lower-cased name `k` sets on the 1x2 splitter.
pub fn splitter_key(k: &String) -> (r: Option<OpticalParam>)
    ensures
        r == splitter_param_spec(k@),
{
    if is_key(k, "alpha") {
        Some(OpticalParam::Alpha)
    } else if is_key(k, "alpha_db") || is_key(k, "il_db") {
        Some(OpticalParam::AlphaDb)
    } else if is_key(k, "r") || is_key(k, "split_ratio") {
        Some(OpticalParam::R)
    } else {
        None
    }
}

/// The parameter `name` sets on the 1x2 splitter.
pub fn splitter_param(name: &str) -> (r: Option<OpticalParam>)
    ensures
        r == splitter_param_spec(lowercased(name@)),
{
    let lk = lowercase_key(name);
    splitter_key(&lk)
}

/// Each lower-cased name the awgr takes, and each alias, names the
/// parameter it spells; no other name names any of them.
#[verifier::rlimit(100)]
pub proof fn lemma_awgr_names_their_parameters()
    ensures
        forall|k: Seq<char>| (#[trigger] awgr_param_spec(k) == Some(OpticalParam::Lambda0Nm)) <==> (k == "lambda0_nm"@ || k == "wavelength_nm"@),
        forall|k: Seq<char>| (#[trigger] awgr_param_spec(k) == Some(OpticalParam::Lambda0M)) <==> (k == "lambda0_m"@),
        forall|k: Seq<char>| (#[trigger] awgr_param_spec(k) == Some(OpticalParam::DfGhz)) <==> (k == "df_ghz"@ || k == "spacing_ghz"@),
        forall|k: Seq<char>| (#[trigger] awgr_param_spec(k) == Some(OpticalParam::FsrGhz)) <==> (k == "fsr_ghz"@),
        forall|k: Seq<char>| (#[trigger] awgr_param_spec(k) == Some(OpticalParam::FwhmGhz)) <==> (k == "fwhm_ghz"@ || k == "bw_ghz"@),
        forall|k: Seq<char>| (#[trigger] awgr_param_spec(k) == Some(OpticalParam::ShapeP)) <==> (k == "shape_p"@),
        forall|k: Seq<char>| (#[trigger] awgr_param_spec(k) == Some(OpticalParam::IlDb)) <==> (k == "il_db"@),
        forall|k: Seq<char>| (#[trigger] awgr_param_spec(k) == Some(OpticalParam::IlTiltDb)) <==> (k == "il_tilt_db"@),
        forall|k: Seq<char>| (#[trigger] awgr_param_spec(k) == Some(OpticalParam::XtAdjDb)) <==> (k == "xt_adj_db"@),
        forall|k: Seq<char>| (#[trigger] awgr_param_spec(k) == Some(OpticalParam::XtBgDb)) <==> (k == "xt_bg_db"@),
        forall|k: Seq<char>| (#[trigger] awgr_param_spec(k) == Some(OpticalParam::DlambdaDtPmPerK)) <==> (k == "dlambda_dt_pm_per_k"@),
        forall|k: Seq<char>| (#[trigger] awgr_param_spec(k) == Some(OpticalParam::TNomK)) <==> (k == "t_nom_k"@),
        forall|k: Seq<char>| (#[trigger] awgr_param_spec(k) == Some(OpticalParam::LambdaSrc)) <==> (k == "lambda_src"@),
{
    reveal_strlit("lambda0_nm");
    assert("lambda0_nm"@.len() == 10 && "lambda0_nm"@[0] == 'l' && "lambda0_nm"@[1] == 'a' && "lambda0_nm"@[2] == 'm' && "lambda0_nm"@[3] == 'b' && "lambda0_nm"@[4] == 'd' && "lambda0_nm"@[5] == 'a' && "lambda0_nm"@[6] == '0' && "lambda0_nm"@[7] == '_' && "lambda0_nm"@[8] == 'n' && "lambda0_nm"@[9] == 'm');
    reveal_strlit("wavelength_nm");
    assert("wavelength_nm"@.len() == 13 && "wavelength_nm"@[0] == 'w' && "wavelength_nm"@[1] == 'a' && "wavelength_nm"@[2] == 'v' && "wavelength_nm"@[3] == 'e' && "wavelength_nm"@[4] == 'l' && "wavelength_nm"@[5] == 'e' && "wavelength_nm"@[6] == 'n' && "wavelength_nm"@[7] == 'g' && "wavelength_nm"@[8] == 't' && "wavelength_nm"@[9] == 'h' && "wavelength_nm"@[10] == '_' && "wavelength_nm"@[11] == 'n' && "wavelength_nm"@[12] == 'm');
    reveal_strlit("lambda0_m");
    assert("lambda0_m"@.len() == 9 && "lambda0_m"@[0] == 'l' && "lambda0_m"@[1] == 'a' && "lambda0_m"@[2] == 'm' && "lambda0_m"@[3] == 'b' && "lambda0_m"@[4] == 'd' && "lambda0_m"@[5] == 'a' && "lambda0_m"@[6] == '0' && "lambda0_m"@[7] == '_' && "lambda0_m"@[8] == 'm');
    reveal_strlit("df_ghz");
    assert("df_ghz"@.len() == 6 && "df_ghz"@[0] == 'd' && "df_ghz"@[1] == 'f' && "df_ghz"@[2] == '_' && "df_ghz"@[3] == 'g' && "df_ghz"@[4] == 'h' && "df_ghz"@[5] == 'z');
    reveal_strlit("spacing_ghz");
    assert("spacing_ghz"@.len() == 11 && "spacing_ghz"@[0] == 's' && "spacing_ghz"@[1] == 'p' && "spacing_ghz"@[2] == 'a' && "spacing_ghz"@[3] == 'c' && "spacing_ghz"@[4] == 'i' && "spacing_ghz"@[5] == 'n' && "spacing_ghz"@[6] == 'g' && "spacing_ghz"@[7] == '_' && "spacing_ghz"@[8] == 'g' && "spacing_ghz"@[9] == 'h' && "spacing_ghz"@[10] == 'z');
    reveal_strlit("fsr_ghz");
    assert("fsr_ghz"@.len() == 7 && "fsr_ghz"@[0] == 'f' && "fsr_ghz"@[1] == 's' && "fsr_ghz"@[2] == 'r' && "fsr_ghz"@[3] == '_' && "fsr_ghz"@[4] == 'g' && "fsr_ghz"@[5] == 'h' && "fsr_ghz"@[6] == 'z');
    reveal_strlit("fwhm_ghz");
    assert("fwhm_ghz"@.len() == 8 && "fwhm_ghz"@[0] == 'f' && "fwhm_ghz"@[1] == 'w' && "fwhm_ghz"@[2] == 'h' && "fwhm_ghz"@[3] == 'm' && "fwhm_ghz"@[4] == '_' && "fwhm_ghz"@[5] == 'g' && "fwhm_ghz"@[6] == 'h' && "fwhm_ghz"@[7] == 'z');
    reveal_strlit("bw_ghz");
    assert("bw_ghz"@.len() == 6 && "bw_ghz"@[0] == 'b' && "bw_ghz"@[1] == 'w' && "bw_ghz"@[2] == '_' && "bw_ghz"@[3] == 'g' && "bw_ghz"@[4] == 'h' && "bw_ghz"@[5] == 'z');
    reveal_strlit("shape_p");
    assert("shape_p"@.len() == 7 && "shape_p"@[0] == 's' && "shape_p"@[1] == 'h' && "shape_p"@[2] == 'a' && "shape_p"@[3] == 'p' && "shape_p"@[4] == 'e' && "shape_p"@[5] == '_' && "shape_p"@[6] == 'p');
    reveal_strlit("il_db");
    assert("il_db"@.len() == 5 && "il_db"@[0] == 'i' && "il_db"@[1] == 'l' && "il_db"@[2] == '_' && "il_db"@[3] == 'd' && "il_db"@[4] == 'b');
    reveal_strlit("il_tilt_db");
    assert("il_tilt_db"@.len() == 10 && "il_tilt_db"@[0] == 'i' && "il_tilt_db"@[1] == 'l' && "il_tilt_db"@[2] == '_' && "il_tilt_db"@[3] == 't' && "il_tilt_db"@[4] == 'i' && "il_tilt_db"@[5] == 'l' && "il_tilt_db"@[6] == 't' && "il_tilt_db"@[7] == '_' && "il_tilt_db"@[8] == 'd' && "il_tilt_db"@[9] == 'b');
    reveal_strlit("xt_adj_db");
    assert("xt_adj_db"@.len() == 9 && "xt_adj_db"@[0] == 'x' && "xt_adj_db"@[1] == 't' && "xt_adj_db"@[2] == '_' && "xt_adj_db"@[3] == 'a' && "xt_adj_db"@[4] == 'd' && "xt_adj_db"@[5] == 'j' && "xt_adj_db"@[6] == '_' && "xt_adj_db"@[7] == 'd' && "xt_adj_db"@[8] == 'b');
    reveal_strlit("xt_bg_db");
    assert("xt_bg_db"@.len() == 8 && "xt_bg_db"@[0] == 'x' && "xt_bg_db"@[1] == 't' && "xt_bg_db"@[2] == '_' && "xt_bg_db"@[3] == 'b' && "xt_bg_db"@[4] == 'g' && "xt_bg_db"@[5] == '_' && "xt_bg_db"@[6] == 'd' && "xt_bg_db"@[7] == 'b');
    reveal_strlit("dlambda_dt_pm_per_k");
    assert("dlambda_dt_pm_per_k"@.len() == 19 && "dlambda_dt_pm_per_k"@[0] == 'd' && "dlambda_dt_pm_per_k"@[1] == 'l' && "dlambda_dt_pm_per_k"@[2] == 'a' && "dlambda_dt_pm_per_k"@[3] == 'm' && "dlambda_dt_pm_per_k"@[4] == 'b' && "dlambda_dt_pm_per_k"@[5] == 'd' && "dlambda_dt_pm_per_k"@[6] == 'a' && "dlambda_dt_pm_per_k"@[7] == '_' && "dlambda_dt_pm_per_k"@[8] == 'd' && "dlambda_dt_pm_per_k"@[9] == 't' && "dlambda_dt_pm_per_k"@[10] == '_' && "dlambda_dt_pm_per_k"@[11] == 'p' && "dlambda_dt_pm_per_k"@[12] == 'm' && "dlambda_dt_pm_per_k"@[13] == '_' && "dlambda_dt_pm_per_k"@[14] == 'p' && "dlambda_dt_pm_per_k"@[15] == 'e' && "dlambda_dt_pm_per_k"@[16] == 'r' && "dlambda_dt_pm_per_k"@[17] == '_' && "dlambda_dt_pm_per_k"@[18] == 'k');
    reveal_strlit("t_nom_k");
    assert("t_nom_k"@.len() == 7 && "t_nom_k"@[0] == 't' && "t_nom_k"@[1] == '_' && "t_nom_k"@[2] == 'n' && "t_nom_k"@[3] == 'o' && "t_nom_k"@[4] == 'm' && "t_nom_k"@[5] == '_' && "t_nom_k"@[6] == 'k');
    reveal_strlit("lambda_src");
    assert("lambda_src"@.len() == 10 && "lambda_src"@[0] == 'l' && "lambda_src"@[1] == 'a' && "lambda_src"@[2] == 'm' && "lambda_src"@[3] == 'b' && "lambda_src"@[4] == 'd' && "lambda_src"@[5] == 'a' && "lambda_src"@[6] == '_' && "lambda_src"@[7] == 's' && "lambda_src"@[8] == 'r' && "lambda_src"@[9] == 'c');
}

/// Each lower-cased name the coupler takes, and each alias, names the
/// parameter it spells; no other name names any of them.
#[verifier::rlimit(100)]
pub proof fn lemma_coupler_names_their_parameters()
    ensures
        forall|k: Seq<char>| (#[trigger] coupler_param_spec(k) == Some(OpticalParam::KappaPerM)) <==> (k == "kappa_per_m"@ || k == "kappa"@),
        forall|k: Seq<char>| (#[trigger] coupler_param_spec(k) == Some(OpticalParam::LUm)) <==> (k == "l_um"@),
        forall|k: Seq<char>| (#[trigger] coupler_param_spec(k) == Some(OpticalParam::LM)) <==> (k == "l_m"@ || k == "length"@),
        forall|k: Seq<char>| (#[trigger] coupler_param_spec(k) == Some(OpticalParam::KappaL)) <==> (k == "kappa_l"@ || k == "kappal"@),
{
    reveal_strlit("kappa_per_m");
    assert("kappa_per_m"@.len() == 11 && "kappa_per_m"@[0] == 'k' && "kappa_per_m"@[1] == 'a' && "kappa_per_m"@[2] == 'p' && "kappa_per_m"@[3] == 'p' && "kappa_per_m"@[4] == 'a' && "kappa_per_m"@[5] == '_' && "kappa_per_m"@[6] == 'p' && "kappa_per_m"@[7] == 'e' && "kappa_per_m"@[8] == 'r' && "kappa_per_m"@[9] == '_' && "kappa_per_m"@[10] == 'm');
    reveal_strlit("kappa");
    assert("kappa"@.len() == 5 && "kappa"@[0] == 'k' && "kappa"@[1] == 'a' && "kappa"@[2] == 'p' && "kappa"@[3] == 'p' && "kappa"@[4] == 'a');
    reveal_strlit("l_um");
    assert("l_um"@.len() == 4 && "l_um"@[0] == 'l' && "l_um"@[1] == '_' && "l_um"@[2] == 'u' && "l_um"@[3] == 'm');
    reveal_strlit("l_m");
    assert("l_m"@.len() == 3 && "l_m"@[0] == 'l' && "l_m"@[1] == '_' && "l_m"@[2] == 'm');
    reveal_strlit("length");
    assert("length"@.len() == 6 && "length"@[0] == 'l' && "length"@[1] == 'e' && "length"@[2] == 'n' && "length"@[3] == 'g' && "length"@[4] == 't' && "length"@[5] == 'h');
    reveal_strlit("kappa_l");
    assert("kappa_l"@.len() == 7 && "kappa_l"@[0] == 'k' && "kappa_l"@[1] == 'a' && "kappa_l"@[2] == 'p' && "kappa_l"@[3] == 'p' && "kappa_l"@[4] == 'a' && "kappa_l"@[5] == '_' && "kappa_l"@[6] == 'l');
    reveal_strlit("kappal");
    assert("kappal"@.len() == 6 && "kappal"@[0] == 'k' && "kappal"@[1] == 'a' && "kappal"@[2] == 'p' && "kappal"@[3] == 'p' && "kappal"@[4] == 'a' && "kappal"@[5] == 'l');
}

/// Each lower-cased name the detector takes, and each alias, names the
/// parameter it spells; no other name names any of them.
#[verifier::rlimit(100)]
pub proof fn lemma_detector_names_their_parameters()
    ensures
        forall|k: Seq<char>| (#[trigger] detector_param_spec(k) == Some(OpticalParam::Responsivity)) <==> (k == "responsivity"@),
        forall|k: Seq<char>| (#[trigger] detector_param_spec(k) == Some(OpticalParam::IDark)) <==> (k == "i_dark"@ || k == "i_dark_a"@),
        forall|k: Seq<char>| (#[trigger] detector_param_spec(k) == Some(OpticalParam::RShunt)) <==> (k == "r_shunt"@),
        forall|k: Seq<char>| (#[trigger] detector_param_spec(k) == Some(OpticalParam::RSeries)) <==> (k == "r_series"@ || k == "r_s"@),
        forall|k: Seq<char>| (#[trigger] detector_param_spec(k) == Some(OpticalParam::CPar)) <==> (k == "c_par"@ || k == "c_j0"@ || k == "c_par_f"@),
{
    reveal_strlit("responsivity");
    assert("responsivity"@.len() == 12 && "responsivity"@[0] == 'r' && "responsivity"@[1] == 'e' && "responsivity"@[2] == 's' && "responsivity"@[3] == 'p' && "responsivity"@[4] == 'o' && "responsivity"@[5] == 'n' && "responsivity"@[6] == 's' && "responsivity"@[7] == 'i' && "responsivity"@[8] == 'v' && "responsivity"@[9] == 'i' && "responsivity"@[10] == 't' && "responsivity"@[11] == 'y');
    reveal_strlit("i_dark");
    assert("i_dark"@.len() == 6 && "i_dark"@[0] == 'i' && "i_dark"@[1] == '_' && "i_dark"@[2] == 'd' && "i_dark"@[3] == 'a' && "i_dark"@[4] == 'r' && "i_dark"@[5] == 'k');
    reveal_strlit("i_dark_a");
    assert("i_dark_a"@.len() == 8 && "i_dark_a"@[0] == 'i' && "i_dark_a"@[1] == '_' && "i_dark_a"@[2] == 'd' && "i_dark_a"@[3] == 'a' && "i_dark_a"@[4] == 'r' && "i_dark_a"@[5] == 'k' && "i_dark_a"@[6] == '_' && "i_dark_a"@[7] == 'a');
    reveal_strlit("r_shunt");
    assert("r_shunt"@.len() == 7 && "r_shunt"@[0] == 'r' && "r_shunt"@[1] == '_' && "r_shunt"@[2] == 's' && "r_shunt"@[3] == 'h' && "r_shunt"@[4] == 'u' && "r_shunt"@[5] == 'n' && "r_shunt"@[6] == 't');
    reveal_strlit("r_series");
    assert("r_series"@.len() == 8 && "r_series"@[0] == 'r' && "r_series"@[1] == '_' && "r_series"@[2] == 's' && "r_series"@[3] == 'e' && "r_series"@[4] == 'r' && "r_series"@[5] == 'i' && "r_series"@[6] == 'e' && "r_series"@[7] == 's');
    reveal_strlit("r_s");
    assert("r_s"@.len() == 3 && "r_s"@[0] == 'r' && "r_s"@[1] == '_' && "r_s"@[2] == 's');
    reveal_strlit("c_par");
    assert("c_par"@.len() == 5 && "c_par"@[0] == 'c' && "c_par"@[1] == '_' && "c_par"@[2] == 'p' && "c_par"@[3] == 'a' && "c_par"@[4] == 'r');
    reveal_strlit("c_j0");
    assert("c_j0"@.len() == 4 && "c_j0"@[0] == 'c' && "c_j0"@[1] == '_' && "c_j0"@[2] == 'j' && "c_j0"@[3] == '0');
    reveal_strlit("c_par_f");
    assert("c_par_f"@.len() == 7 && "c_par_f"@[0] == 'c' && "c_par_f"@[1] == '_' && "c_par_f"@[2] == 'p' && "c_par_f"@[3] == 'a' && "c_par_f"@[4] == 'r' && "c_par_f"@[5] == '_' && "c_par_f"@[6] == 'f');
}

/// Each lower-cased name the facet takes, and each alias, names the
/// parameter it spells; no other name names any of them.
#[verifier::rlimit(100)]
pub proof fn lemma_facet_names_their_parameters()
    ensures
        forall|k: Seq<char>| (#[trigger] facet_param_spec(k) == Some(OpticalParam::Reflectance)) <==> (k == "reflectance"@ || k == "r"@ || k == "r_power"@),
        forall|k: Seq<char>| (#[trigger] facet_param_spec(k) == Some(OpticalParam::Transmittance)) <==> (k == "transmittance"@ || k == "t"@ || k == "t_power"@),
        forall|k: Seq<char>| (#[trigger] facet_param_spec(k) == Some(OpticalParam::Loss)) <==> (k == "loss"@ || k == "l"@ || k == "loss_power"@),
        forall|k: Seq<char>| (#[trigger] facet_param_spec(k) == Some(OpticalParam::PhaseDeg)) <==> (k == "phase_deg"@ || k == "phi_deg"@),
{
    reveal_strlit("reflectance");
    assert("reflectance"@.len() == 11 && "reflectance"@[0] == 'r' && "reflectance"@[1] == 'e' && "reflectance"@[2] == 'f' && "reflectance"@[3] == 'l' && "reflectance"@[4] == 'e' && "reflectance"@[5] == 'c' && "reflectance"@[6] == 't' && "reflectance"@[7] == 'a' && "reflectance"@[8] == 'n' && "reflectance"@[9] == 'c' && "reflectance"@[10] == 'e');
    reveal_strlit("r");
    assert("r"@.len() == 1 && "r"@[0] == 'r');
    reveal_strlit("r_power");
    assert("r_power"@.len() == 7 && "r_power"@[0] == 'r' && "r_power"@[1] == '_' && "r_power"@[2] == 'p' && "r_power"@[3] == 'o' && "r_power"@[4] == 'w' && "r_power"@[5] == 'e' && "r_power"@[6] == 'r');
    reveal_strlit("transmittance");
    assert("transmittance"@.len() == 13 && "transmittance"@[0] == 't' && "transmittance"@[1] == 'r' && "transmittance"@[2] == 'a' && "transmittance"@[3] == 'n' && "transmittance"@[4] == 's' && "transmittance"@[5] == 'm' && "transmittance"@[6] == 'i' && "transmittance"@[7] == 't' && "transmittance"@[8] == 't' && "transmittance"@[9] == 'a' && "transmittance"@[10] == 'n' && "transmittance"@[11] == 'c' && "transmittance"@[12] == 'e');
    reveal_strlit("t");
    assert("t"@.len() == 1 && "t"@[0] == 't');
    reveal_strlit("t_power");
    assert("t_power"@.len() == 7 && "t_power"@[0] == 't' && "t_power"@[1] == '_' && "t_power"@[2] == 'p' && "t_power"@[3] == 'o' && "t_power"@[4] == 'w' && "t_power"@[5] == 'e' && "t_power"@[6] == 'r');
    reveal_strlit("loss");
    assert("loss"@.len() == 4 && "loss"@[0] == 'l' && "loss"@[1] == 'o' && "loss"@[2] == 's' && "loss"@[3] == 's');
    reveal_strlit("l");
    assert("l"@.len() == 1 && "l"@[0] == 'l');
    reveal_strlit("loss_power");
    assert("loss_power"@.len() == 10 && "loss_power"@[0] == 'l' && "loss_power"@[1] == 'o' && "loss_power"@[2] == 's' && "loss_power"@[3] == 's' && "loss_power"@[4] == '_' && "loss_power"@[5] == 'p' && "loss_power"@[6] == 'o' && "loss_power"@[7] == 'w' && "loss_power"@[8] == 'e' && "loss_power"@[9] == 'r');
    reveal_strlit("phase_deg");
    assert("phase_deg"@.len() == 9 && "phase_deg"@[0] == 'p' && "phase_deg"@[1] == 'h' && "phase_deg"@[2] == 'a' && "phase_deg"@[3] == 's' && "phase_deg"@[4] == 'e' && "phase_deg"@[5] == '_' && "phase_deg"@[6] == 'd' && "phase_deg"@[7] == 'e' && "phase_deg"@[8] == 'g');
    reveal_strlit("phi_deg");
    assert("phi_deg"@.len() == 7 && "phi_deg"@[0] == 'p' && "phi_deg"@[1] == 'h' && "phi_deg"@[2] == 'i' && "phi_deg"@[3] == '_' && "phi_deg"@[4] == 'd' && "phi_deg"@[5] == 'e' && "phi_deg"@[6] == 'g');
}

/// Each lower-cased name the grating takes, and each alias, names the
/// parameter it spells; no other name names any of them.
#[verifier::rlimit(100)]
pub proof fn lemma_grating_names_their_parameters()
    ensures
        forall|k: Seq<char>| (#[trigger] grating_param_spec(k) == Some(OpticalParam::AlphaDb)) <==> (k == "alpha_db"@ || k == "alpha_db_il"@ || k == "il_db"@),
        forall|k: Seq<char>| (#[trigger] grating_param_spec(k) == Some(OpticalParam::Alpha)) <==> (k == "alpha"@),
{
    reveal_strlit("alpha_db");
    assert("alpha_db"@.len() == 8 && "alpha_db"@[0] == 'a' && "alpha_db"@[1] == 'l' && "alpha_db"@[2] == 'p' && "alpha_db"@[3] == 'h' && "alpha_db"@[4] == 'a' && "alpha_db"@[5] == '_' && "alpha_db"@[6] == 'd' && "alpha_db"@[7] == 'b');
    reveal_strlit("alpha_db_il");
    assert("alpha_db_il"@.len() == 11 && "alpha_db_il"@[0] == 'a' && "alpha_db_il"@[1] == 'l' && "alpha_db_il"@[2] == 'p' && "alpha_db_il"@[3] == 'h' && "alpha_db_il"@[4] == 'a' && "alpha_db_il"@[5] == '_' && "alpha_db_il"@[6] == 'd' && "alpha_db_il"@[7] == 'b' && "alpha_db_il"@[8] == '_' && "alpha_db_il"@[9] == 'i' && "alpha_db_il"@[10] == 'l');
    reveal_strlit("il_db");
    assert("il_db"@.len() == 5 && "il_db"@[0] == 'i' && "il_db"@[1] == 'l' && "il_db"@[2] == '_' && "il_db"@[3] == 'd' && "il_db"@[4] == 'b');
    reveal_strlit("alpha");
    assert("alpha"@.len() == 5 && "alpha"@[0] == 'a' && "alpha"@[1] == 'l' && "alpha"@[2] == 'p' && "alpha"@[3] == 'h' && "alpha"@[4] == 'a');
}

/// Each lower-cased name the cw laser takes, and each alias, names the
/// parameter it spells; no other name names any of them.
#[verifier::rlimit(100)]
pub proof fn lemma_cw_laser_names_their_parameters()
    ensures
        forall|k: Seq<char>| (#[trigger] cw_laser_param_spec(k) == Some(OpticalParam::PowerMw)) <==> (k == "power_mw"@),
        forall|k: Seq<char>| (#[trigger] cw_laser_param_spec(k) == Some(OpticalParam::PowerW)) <==> (k == "power_w"@),
        forall|k: Seq<char>| (#[trigger] cw_laser_param_spec(k) == Some(OpticalParam::Phi0Deg)) <==> (k == "phi_0_deg"@ || k == "phase_deg"@),
        forall|k: Seq<char>| (#[trigger] cw_laser_param_spec(k) == Some(OpticalParam::WavelengthNm)) <==> (k == "wavelength_nm"@),
        forall|k: Seq<char>| (#[trigger] cw_laser_param_spec(k) == Some(OpticalParam::WavelengthM)) <==> (k == "wavelength_m"@),
        forall|k: Seq<char>| (#[trigger] cw_laser_param_spec(k) == Some(OpticalParam::RinDbHz)) <==> (k == "rin_db_hz"@ || k == "rin"@),
        forall|k: Seq<char>| (#[trigger] cw_laser_param_spec(k) == Some(OpticalParam::ReAmp)) <==> (k == "re_amp"@),
        forall|k: Seq<char>| (#[trigger] cw_laser_param_spec(k) == Some(OpticalParam::ImAmp)) <==> (k == "im_amp"@),
{
    reveal_strlit("power_mw");
    assert("power_mw"@.len() == 8 && "power_mw"@[0] == 'p' && "power_mw"@[1] == 'o' && "power_mw"@[2] == 'w' && "power_mw"@[3] == 'e' && "power_mw"@[4] == 'r' && "power_mw"@[5] == '_' && "power_mw"@[6] == 'm' && "power_mw"@[7] == 'w');
    reveal_strlit("power_w");
    assert("power_w"@.len() == 7 && "power_w"@[0] == 'p' && "power_w"@[1] == 'o' && "power_w"@[2] == 'w' && "power_w"@[3] == 'e' && "power_w"@[4] == 'r' && "power_w"@[5] == '_' && "power_w"@[6] == 'w');
    reveal_strlit("phi_0_deg");
    assert("phi_0_deg"@.len() == 9 && "phi_0_deg"@[0] == 'p' && "phi_0_deg"@[1] == 'h' && "phi_0_deg"@[2] == 'i' && "phi_0_deg"@[3] == '_' && "phi_0_deg"@[4] == '0' && "phi_0_deg"@[5] == '_' && "phi_0_deg"@[6] == 'd' && "phi_0_deg"@[7] == 'e' && "phi_0_deg"@[8] == 'g');
    reveal_strlit("phase_deg");
    assert("phase_deg"@.len() == 9 && "phase_deg"@[0] == 'p' && "phase_deg"@[1] == 'h' && "phase_deg"@[2] == 'a' && "phase_deg"@[3] == 's' && "phase_deg"@[4] == 'e' && "phase_deg"@[5] == '_' && "phase_deg"@[6] == 'd' && "phase_deg"@[7] == 'e' && "phase_deg"@[8] == 'g');
    reveal_strlit("wavelength_nm");
    assert("wavelength_nm"@.len() == 13 && "wavelength_nm"@[0] == 'w' && "wavelength_nm"@[1] == 'a' && "wavelength_nm"@[2] == 'v' && "wavelength_nm"@[3] == 'e' && "wavelength_nm"@[4] == 'l' && "wavelength_nm"@[5] == 'e' && "wavelength_nm"@[6] == 'n' && "wavelength_nm"@[7] == 'g' && "wavelength_nm"@[8] == 't' && "wavelength_nm"@[9] == 'h' && "wavelength_nm"@[10] == '_' && "wavelength_nm"@[11] == 'n' && "wavelength_nm"@[12] == 'm');
    reveal_strlit("wavelength_m");
    assert("wavelength_m"@.len() == 12 && "wavelength_m"@[0] == 'w' && "wavelength_m"@[1] == 'a' && "wavelength_m"@[2] == 'v' && "wavelength_m"@[3] == 'e' && "wavelength_m"@[4] == 'l' && "wavelength_m"@[5] == 'e' && "wavelength_m"@[6] == 'n' && "wavelength_m"@[7] == 'g' && "wavelength_m"@[8] == 't' && "wavelength_m"@[9] == 'h' && "wavelength_m"@[10] == '_' && "wavelength_m"@[11] == 'm');
    reveal_strlit("rin_db_hz");
    assert("rin_db_hz"@.len() == 9 && "rin_db_hz"@[0] == 'r' && "rin_db_hz"@[1] == 'i' && "rin_db_hz"@[2] == 'n' && "rin_db_hz"@[3] == '_' && "rin_db_hz"@[4] == 'd' && "rin_db_hz"@[5] == 'b' && "rin_db_hz"@[6] == '_' && "rin_db_hz"@[7] == 'h' && "rin_db_hz"@[8] == 'z');
    reveal_strlit("rin");
    assert("rin"@.len() == 3 && "rin"@[0] == 'r' && "rin"@[1] == 'i' && "rin"@[2] == 'n');
    reveal_strlit("re_amp");
    assert("re_amp"@.len() == 6 && "re_amp"@[0] == 'r' && "re_amp"@[1] == 'e' && "re_amp"@[2] == '_' && "re_amp"@[3] == 'a' && "re_amp"@[4] == 'm' && "re_amp"@[5] == 'p');
    reveal_strlit("im_amp");
    assert("im_amp"@.len() == 6 && "im_amp"@[0] == 'i' && "im_amp"@[1] == 'm' && "im_amp"@[2] == '_' && "im_amp"@[3] == 'a' && "im_amp"@[4] == 'm' && "im_amp"@[5] == 'p');
}

/// Each lower-cased name the driven laser takes, and each alias, names the
/// parameter it spells; no other name names any of them.
#[verifier::rlimit(100)]
pub proof fn lemma_driven_laser_names_their_parameters()
    ensures
        forall|k: Seq<char>| (#[trigger] driven_laser_param_spec(k) == Some(OpticalParam::SlopeWV)) <==> (k == "slope_w_v"@ || k == "slope"@),
        forall|k: Seq<char>| (#[trigger] driven_laser_param_spec(k) == Some(OpticalParam::SlopeMwV)) <==> (k == "slope_mw_v"@),
        forall|k: Seq<char>| (#[trigger] driven_laser_param_spec(k) == Some(OpticalParam::VTh)) <==> (k == "v_th"@ || k == "vth"@),
        forall|k: Seq<char>| (#[trigger] driven_laser_param_spec(k) == Some(OpticalParam::PFloorW)) <==> (k == "p_floor_w"@),
        forall|k: Seq<char>| (#[trigger] driven_laser_param_spec(k) == Some(OpticalParam::VKneeV)) <==> (k == "v_knee_v"@ || k == "v_knee"@),
        forall|k: Seq<char>| (#[trigger] driven_laser_param_spec(k) == Some(OpticalParam::RIn)) <==> (k == "r_in"@),
        forall|k: Seq<char>| (#[trigger] driven_laser_param_spec(k) == Some(OpticalParam::Phi0Deg)) <==> (k == "phi_0_deg"@ || k == "phase_deg"@),
        forall|k: Seq<char>| (#[trigger] driven_laser_param_spec(k) == Some(OpticalParam::WavelengthNm)) <==> (k == "wavelength_nm"@),
        forall|k: Seq<char>| (#[trigger] driven_laser_param_spec(k) == Some(OpticalParam::WavelengthM)) <==> (k == "wavelength_m"@),
        forall|k: Seq<char>| (#[trigger] driven_laser_param_spec(k) == Some(OpticalParam::RinDbHz)) <==> (k == "rin_db_hz"@ || k == "rin"@),
{
    reveal_strlit("slope_w_v");
    assert("slope_w_v"@.len() == 9 && "slope_w_v"@[0] == 's' && "slope_w_v"@[1] == 'l' && "slope_w_v"@[2] == 'o' && "slope_w_v"@[3] == 'p' && "slope_w_v"@[4] == 'e' && "slope_w_v"@[5] == '_' && "slope_w_v"@[6] == 'w' && "slope_w_v"@[7] == '_' && "slope_w_v"@[8] == 'v');
    reveal_strlit("slope");
    assert("slope"@.len() == 5 && "slope"@[0] == 's' && "slope"@[1] == 'l' && "slope"@[2] == 'o' && "slope"@[3] == 'p' && "slope"@[4] == 'e');
    reveal_strlit("slope_mw_v");
    assert("slope_mw_v"@.len() == 10 && "slope_mw_v"@[0] == 's' && "slope_mw_v"@[1] == 'l' && "slope_mw_v"@[2] == 'o' && "slope_mw_v"@[3] == 'p' && "slope_mw_v"@[4] == 'e' && "slope_mw_v"@[5] == '_' && "slope_mw_v"@[6] == 'm' && "slope_mw_v"@[7] == 'w' && "slope_mw_v"@[8] == '_' && "slope_mw_v"@[9] == 'v');
    reveal_strlit("v_th");
    assert("v_th"@.len() == 4 && "v_th"@[0] == 'v' && "v_th"@[1] == '_' && "v_th"@[2] == 't' && "v_th"@[3] == 'h');
    reveal_strlit("vth");
    assert("vth"@.len() == 3 && "vth"@[0] == 'v' && "vth"@[1] == 't' && "vth"@[2] == 'h');
    reveal_strlit("p_floor_w");
    assert("p_floor_w"@.len() == 9 && "p_floor_w"@[0] == 'p' && "p_floor_w"@[1] == '_' && "p_floor_w"@[2] == 'f' && "p_floor_w"@[3] == 'l' && "p_floor_w"@[4] == 'o' && "p_floor_w"@[5] == 'o' && "p_floor_w"@[6] == 'r' && "p_floor_w"@[7] == '_' && "p_floor_w"@[8] == 'w');
    reveal_strlit("v_knee_v");
    assert("v_knee_v"@.len() == 8 && "v_knee_v"@[0] == 'v' && "v_knee_v"@[1] == '_' && "v_knee_v"@[2] == 'k' && "v_knee_v"@[3] == 'n' && "v_knee_v"@[4] == 'e' && "v_knee_v"@[5] == 'e' && "v_knee_v"@[6] == '_' && "v_knee_v"@[7] == 'v');
    reveal_strlit("v_knee");
    assert("v_knee"@.len() == 6 && "v_knee"@[0] == 'v' && "v_knee"@[1] == '_' && "v_knee"@[2] == 'k' && "v_knee"@[3] == 'n' && "v_knee"@[4] == 'e' && "v_knee"@[5] == 'e');
    reveal_strlit("r_in");
    assert("r_in"@.len() == 4 && "r_in"@[0] == 'r' && "r_in"@[1] == '_' && "r_in"@[2] == 'i' && "r_in"@[3] == 'n');
    reveal_strlit("phi_0_deg");
    assert("phi_0_deg"@.len() == 9 && "phi_0_deg"@[0] == 'p' && "phi_0_deg"@[1] == 'h' && "phi_0_deg"@[2] == 'i' && "phi_0_deg"@[3] == '_' && "phi_0_deg"@[4] == '0' && "phi_0_deg"@[5] == '_' && "phi_0_deg"@[6] == 'd' && "phi_0_deg"@[7] == 'e' && "phi_0_deg"@[8] == 'g');
    reveal_strlit("phase_deg");
    assert("phase_deg"@.len() == 9 && "phase_deg"@[0] == 'p' && "phase_deg"@[1] == 'h' && "phase_deg"@[2] == 'a' && "phase_deg"@[3] == 's' && "phase_deg"@[4] == 'e' && "phase_deg"@[5] == '_' && "phase_deg"@[6] == 'd' && "phase_deg"@[7] == 'e' && "phase_deg"@[8] == 'g');
    reveal_strlit("wavelength_nm");
    assert("wavelength_nm"@.len() == 13 && "wavelength_nm"@[0] == 'w' && "wavelength_nm"@[1] == 'a' && "wavelength_nm"@[2] == 'v' && "wavelength_nm"@[3] == 'e' && "wavelength_nm"@[4] == 'l' && "wavelength_nm"@[5] == 'e' && "wavelength_nm"@[6] == 'n' && "wavelength_nm"@[7] == 'g' && "wavelength_nm"@[8] == 't' && "wavelength_nm"@[9] == 'h' && "wavelength_nm"@[10] == '_' && "wavelength_nm"@[11] == 'n' && "wavelength_nm"@[12] == 'm');
    reveal_strlit("wavelength_m");
    assert("wavelength_m"@.len() == 12 && "wavelength_m"@[0] == 'w' && "wavelength_m"@[1] == 'a' && "wavelength_m"@[2] == 'v' && "wavelength_m"@[3] == 'e' && "wavelength_m"@[4] == 'l' && "wavelength_m"@[5] == 'e' && "wavelength_m"@[6] == 'n' && "wavelength_m"@[7] == 'g' && "wavelength_m"@[8] == 't' && "wavelength_m"@[9] == 'h' && "wavelength_m"@[10] == '_' && "wavelength_m"@[11] == 'm');
    reveal_strlit("rin_db_hz");
    assert("rin_db_hz"@.len() == 9 && "rin_db_hz"@[0] == 'r' && "rin_db_hz"@[1] == 'i' && "rin_db_hz"@[2] == 'n' && "rin_db_hz"@[3] == '_' && "rin_db_hz"@[4] == 'd' && "rin_db_hz"@[5] == 'b' && "rin_db_hz"@[6] == '_' && "rin_db_hz"@[7] == 'h' && "rin_db_hz"@[8] == 'z');
    reveal_strlit("rin");
    assert("rin"@.len() == 3 && "rin"@[0] == 'r' && "rin"@[1] == 'i' && "rin"@[2] == 'n');
}

/// Each lower-cased name the mzm takes, and each alias, names the
/// parameter it spells; no other name names any of them.
#[verifier::rlimit(100)]
pub proof fn lemma_mzm_names_their_parameters()
    ensures
        forall|k: Seq<char>| (#[trigger] mzm_param_spec(k) == Some(OpticalParam::VPi)) <==> (k == "v_pi"@ || k == "vpi"@),
        forall|k: Seq<char>| (#[trigger] mzm_param_spec(k) == Some(OpticalParam::Alpha)) <==> (k == "alpha"@),
        forall|k: Seq<char>| (#[trigger] mzm_param_spec(k) == Some(OpticalParam::AlphaDb)) <==> (k == "alpha_db"@ || k == "il_db"@),
        forall|k: Seq<char>| (#[trigger] mzm_param_spec(k) == Some(OpticalParam::ER)) <==> (k == "e_r"@ || k == "er"@),
        forall|k: Seq<char>| (#[trigger] mzm_param_spec(k) == Some(OpticalParam::ERDb)) <==> (k == "e_r_db"@ || k == "er_db"@),
        forall|k: Seq<char>| (#[trigger] mzm_param_spec(k) == Some(OpticalParam::FC)) <==> (k == "f_c"@ || k == "fc"@),
{
    reveal_strlit("v_pi");
    assert("v_pi"@.len() == 4 && "v_pi"@[0] == 'v' && "v_pi"@[1] == '_' && "v_pi"@[2] == 'p' && "v_pi"@[3] == 'i');
    reveal_strlit("vpi");
    assert("vpi"@.len() == 3 && "vpi"@[0] == 'v' && "vpi"@[1] == 'p' && "vpi"@[2] == 'i');
    reveal_strlit("alpha");
    assert("alpha"@.len() == 5 && "alpha"@[0] == 'a' && "alpha"@[1] == 'l' && "alpha"@[2] == 'p' && "alpha"@[3] == 'h' && "alpha"@[4] == 'a');
    reveal_strlit("alpha_db");
    assert("alpha_db"@.len() == 8 && "alpha_db"@[0] == 'a' && "alpha_db"@[1] == 'l' && "alpha_db"@[2] == 'p' && "alpha_db"@[3] == 'h' && "alpha_db"@[4] == 'a' && "alpha_db"@[5] == '_' && "alpha_db"@[6] == 'd' && "alpha_db"@[7] == 'b');
    reveal_strlit("il_db");
    assert("il_db"@.len() == 5 && "il_db"@[0] == 'i' && "il_db"@[1] == 'l' && "il_db"@[2] == '_' && "il_db"@[3] == 'd' && "il_db"@[4] == 'b');
    reveal_strlit("e_r");
    assert("e_r"@.len() == 3 && "e_r"@[0] == 'e' && "e_r"@[1] == '_' && "e_r"@[2] == 'r');
    reveal_strlit("er");
    assert("er"@.len() == 2 && "er"@[0] == 'e' && "er"@[1] == 'r');
    reveal_strlit("e_r_db");
    assert("e_r_db"@.len() == 6 && "e_r_db"@[0] == 'e' && "e_r_db"@[1] == '_' && "e_r_db"@[2] == 'r' && "e_r_db"@[3] == '_' && "e_r_db"@[4] == 'd' && "e_r_db"@[5] == 'b');
    reveal_strlit("er_db");
    assert("er_db"@.len() == 5 && "er_db"@[0] == 'e' && "er_db"@[1] == 'r' && "er_db"@[2] == '_' && "er_db"@[3] == 'd' && "er_db"@[4] == 'b');
    reveal_strlit("f_c");
    assert("f_c"@.len() == 3 && "f_c"@[0] == 'f' && "f_c"@[1] == '_' && "f_c"@[2] == 'c');
    reveal_strlit("fc");
    assert("fc"@.len() == 2 && "fc"@[0] == 'f' && "fc"@[1] == 'c');
}

/// Each lower-cased name the splitter takes, and each alias, names the
/// parameter it spells; no other name names any of them.
#[verifier::rlimit(100)]
pub proof fn lemma_splitter_names_their_parameters()
    ensures
        forall|k: Seq<char>| (#[trigger] splitter_param_spec(k) == Some(OpticalParam::Alpha)) <==> (k == "alpha"@),
        forall|k: Seq<char>| (#[trigger] splitter_param_spec(k) == Some(OpticalParam::AlphaDb)) <==> (k == "alpha_db"@ || k == "il_db"@),
        forall|k: Seq<char>| (#[trigger] splitter_param_spec(k) == Some(OpticalParam::R)) <==> (k == "r"@ || k == "split_ratio"@),
{
    reveal_strlit("alpha");
    assert("alpha"@.len() == 5 && "alpha"@[0] == 'a' && "alpha"@[1] == 'l' && "alpha"@[2] == 'p' && "alpha"@[3] == 'h' && "alpha"@[4] == 'a');
    reveal_strlit("alpha_db");
    assert("alpha_db"@.len() == 8 && "alpha_db"@[0] == 'a' && "alpha_db"@[1] == 'l' && "alpha_db"@[2] == 'p' && "alpha_db"@[3] == 'h' && "alpha_db"@[4] == 'a' && "alpha_db"@[5] == '_' && "alpha_db"@[6] == 'd' && "alpha_db"@[7] == 'b');
    reveal_strlit("il_db");
    assert("il_db"@.len() == 5 && "il_db"@[0] == 'i' && "il_db"@[1] == 'l' && "il_db"@[2] == '_' && "il_db"@[3] == 'd' && "il_db"@[4] == 'b');
    reveal_strlit("r");
    assert("r"@.len() == 1 && "r"@[0] == 'r');
    reveal_strlit("split_ratio");
    assert("split_ratio"@.len() == 11 && "split_ratio"@[0] == 's' && "split_ratio"@[1] == 'p' && "split_ratio"@[2] == 'l' && "split_ratio"@[3] == 'i' && "split_ratio"@[4] == 't' && "split_ratio"@[5] == '_' && "split_ratio"@[6] == 'r' && "split_ratio"@[7] == 'a' && "split_ratio"@[8] == 't' && "split_ratio"@[9] == 'i' && "split_ratio"@[10] == 'o');
}

} // verus!
