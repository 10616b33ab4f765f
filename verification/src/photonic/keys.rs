//! Parameter-name routing of the PN modulator models: which name (or
//! alias) sets which parameter, and which names a model answers as
//! recognised. The values, their units and clamps are the caller's.

use vstd::prelude::*;
use crate::text::{is_key, lowercase_key, lowercased};

verus! {

/// A PN-modulator or optical-segment parameter.
#[derive(Clone, Copy, PartialEq, Eq, Structural, Debug)]
pub enum PnParam {
    LUm,
    LM,
    NG,
    NEff,
    WlRefNm,
    WlRefM,
    DnDvRev,
    DaDvRev,
    CJ0,
    VBi,
    MJ,
    ISat,
    NDiode,
    TauCarrier,
    DnDvInj,
    DaDvInj,
    AlphaDbCm,
    BetaTpa,
    AEffM2,
    AEffUm2,
    RTh,
    DnDt,
    PinAtRef,
    RSeries,
    DnDi,
    DaDi,
    DnDv,
    GPn,
    VPiL,
    DaDv,
    RHeater,
    PPi,
    TauTh,
}
/// The parameter a lower-cased name sets on the full PN phase shifter.
pub open spec fn pn_full_param_spec(k: Seq<char>) -> Option<PnParam> {
    if k == "l_um"@ {
        Some(PnParam::LUm)
    } else if k == "l_m"@ || k == "length"@ {
        Some(PnParam::LM)
    } else if k == "n_g"@ {
        Some(PnParam::NG)
    } else if k == "n_eff"@ {
        Some(PnParam::NEff)
    } else if k == "wl_ref_nm"@ {
        Some(PnParam::WlRefNm)
    } else if k == "wl_ref_m"@ {
        Some(PnParam::WlRefM)
    } else if k == "dn_dv_rev"@ || k == "dn_dv"@ {
        Some(PnParam::DnDvRev)
    } else if k == "da_dv_rev"@ || k == "da_dv"@ {
        Some(PnParam::DaDvRev)
    } else if k == "c_j0"@ {
        Some(PnParam::CJ0)
    } else if k == "v_bi"@ {
        Some(PnParam::VBi)
    } else if k == "m_j"@ {
        Some(PnParam::MJ)
    } else if k == "i_sat"@ || k == "is"@ {
        Some(PnParam::ISat)
    } else if k == "n_diode"@ || k == "n"@ {
        Some(PnParam::NDiode)
    } else if k == "tau_carrier"@ || k == "tau"@ {
        Some(PnParam::TauCarrier)
    } else if k == "dn_dv_inj"@ {
        Some(PnParam::DnDvInj)
    } else if k == "da_dv_inj"@ {
        Some(PnParam::DaDvInj)
    } else if k == "alpha_db_cm"@ {
        Some(PnParam::AlphaDbCm)
    } else if k == "beta_tpa"@ || k == "beta_tpa_m_per_w"@ {
        Some(PnParam::BetaTpa)
    } else if k == "a_eff_m2"@ {
        Some(PnParam::AEffM2)
    } else if k == "a_eff_um2"@ {
        Some(PnParam::AEffUm2)
    } else if k == "r_th"@ || k == "r_th_k_per_w"@ {
        Some(PnParam::RTh)
    } else if k == "dn_dt"@ {
        Some(PnParam::DnDt)
    } else if k == "pin_at_ref"@ {
        Some(PnParam::PinAtRef)
    } else if k == "r_series"@ {
        Some(PnParam::RSeries)
    } else {
        None
    }
}

/// The full-PN-phase-shifter parameter of the lower-cased name `k`.
pub fn pn_full_key(k: &String) -> (r: Option<PnParam>)
    ensures
        r == pn_full_param_spec(k@),
{
    if is_key(k, "l_um") {
        Some(PnParam::LUm)
    } else if is_key(k, "l_m") || is_key(k, "length") {
        Some(PnParam::LM)
    } else if is_key(k, "n_g") {
        Some(PnParam::NG)
    } else if is_key(k, "n_eff") {
        Some(PnParam::NEff)
    } else if is_key(k, "wl_ref_nm") {
        Some(PnParam::WlRefNm)
    } else if is_key(k, "wl_ref_m") {
        Some(PnParam::WlRefM)
    } else if is_key(k, "dn_dv_rev") || is_key(k, "dn_dv") {
        Some(PnParam::DnDvRev)
    } else if is_key(k, "da_dv_rev") || is_key(k, "da_dv") {
        Some(PnParam::DaDvRev)
    } else if is_key(k, "c_j0") {
        Some(PnParam::CJ0)
    } else if is_key(k, "v_bi") {
        Some(PnParam::VBi)
    } else if is_key(k, "m_j") {
        Some(PnParam::MJ)
    } else if is_key(k, "i_sat") || is_key(k, "is") {
        Some(PnParam::ISat)
    } else if is_key(k, "n_diode") || is_key(k, "n") {
        Some(PnParam::NDiode)
    } else if is_key(k, "tau_carrier") || is_key(k, "tau") {
        Some(PnParam::TauCarrier)
    } else if is_key(k, "dn_dv_inj") {
        Some(PnParam::DnDvInj)
    } else if is_key(k, "da_dv_inj") {
        Some(PnParam::DaDvInj)
    } else if is_key(k, "alpha_db_cm") {
        Some(PnParam::AlphaDbCm)
    } else if is_key(k, "beta_tpa") || is_key(k, "beta_tpa_m_per_w") {
        Some(PnParam::BetaTpa)
    } else if is_key(k, "a_eff_m2") {
        Some(PnParam::AEffM2)
    } else if is_key(k, "a_eff_um2") {
        Some(PnParam::AEffUm2)
    } else if is_key(k, "r_th") || is_key(k, "r_th_k_per_w") {
        Some(PnParam::RTh)
    } else if is_key(k, "dn_dt") {
        Some(PnParam::DnDt)
    } else if is_key(k, "pin_at_ref") {
        Some(PnParam::PinAtRef)
    } else if is_key(k, "r_series") {
        Some(PnParam::RSeries)
    } else {
        None
    }
}

/// The parameter `name` sets on the full PN phase shifter, compared
/// lower-cased. The shifter accepts the name exactly when there is one.
pub fn pn_full_param(name: &str) -> (r: Option<PnParam>)
    ensures
        r == pn_full_param_spec(lowercased(name@)),
{
    let lk = lowercase_key(name);
    pn_full_key(&lk)
}

/// The parameter a name sets on the full PN drive (case-sensitive).
pub open spec fn full_drive_param_spec(k: Seq<char>) -> Option<PnParam> {
    if k == "dn_dv_rev"@ || k == "dn_dv"@ {
        Some(PnParam::DnDvRev)
    } else if k == "da_dv_rev"@ || k == "da_dv"@ {
        Some(PnParam::DaDvRev)
    } else if k == "c_j0"@ {
        Some(PnParam::CJ0)
    } else if k == "v_bi"@ {
        Some(PnParam::VBi)
    } else if k == "m_j"@ {
        Some(PnParam::MJ)
    } else if k == "i_sat"@ || k == "is"@ {
        Some(PnParam::ISat)
    } else if k == "n_diode"@ || k == "n"@ {
        Some(PnParam::NDiode)
    } else if k == "tau_carrier"@ || k == "tau"@ {
        Some(PnParam::TauCarrier)
    } else if k == "dn_dv_inj"@ {
        Some(PnParam::DnDvInj)
    } else if k == "da_dv_inj"@ {
        Some(PnParam::DaDvInj)
    } else if k == "dn_di"@ || k == "dn_di_per_a"@ {
        Some(PnParam::DnDi)
    } else if k == "da_di"@ || k == "da_di_per_a"@ {
        Some(PnParam::DaDi)
    } else if k == "beta_tpa"@ || k == "beta_tpa_m_per_w"@ {
        Some(PnParam::BetaTpa)
    } else if k == "a_eff_m2"@ {
        Some(PnParam::AEffM2)
    } else if k == "a_eff_um2"@ {
        Some(PnParam::AEffUm2)
    } else if k == "r_th"@ || k == "r_th_k_per_w"@ {
        Some(PnParam::RTh)
    } else if k == "dn_dt"@ {
        Some(PnParam::DnDt)
    } else if k == "r_series"@ {
        Some(PnParam::RSeries)
    } else if k == "l_um"@ {
        Some(PnParam::LUm)
    } else if k == "l_m"@ || k == "length"@ {
        Some(PnParam::LM)
    } else if k == "alpha_db_cm"@ {
        Some(PnParam::AlphaDbCm)
    } else {
        None
    }
}

/// The parameter `k` sets on the full PN drive; names are matched as given.
pub fn full_drive_param(k: &String) -> (r: Option<PnParam>)
    ensures
        r == full_drive_param_spec(k@),
{
    if is_key(k, "dn_dv_rev") || is_key(k, "dn_dv") {
        Some(PnParam::DnDvRev)
    } else if is_key(k, "da_dv_rev") || is_key(k, "da_dv") {
        Some(PnParam::DaDvRev)
    } else if is_key(k, "c_j0") {
        Some(PnParam::CJ0)
    } else if is_key(k, "v_bi") {
        Some(PnParam::VBi)
    } else if is_key(k, "m_j") {
        Some(PnParam::MJ)
    } else if is_key(k, "i_sat") || is_key(k, "is") {
        Some(PnParam::ISat)
    } else if is_key(k, "n_diode") || is_key(k, "n") {
        Some(PnParam::NDiode)
    } else if is_key(k, "tau_carrier") || is_key(k, "tau") {
        Some(PnParam::TauCarrier)
    } else if is_key(k, "dn_dv_inj") {
        Some(PnParam::DnDvInj)
    } else if is_key(k, "da_dv_inj") {
        Some(PnParam::DaDvInj)
    } else if is_key(k, "dn_di") || is_key(k, "dn_di_per_a") {
        Some(PnParam::DnDi)
    } else if is_key(k, "da_di") || is_key(k, "da_di_per_a") {
        Some(PnParam::DaDi)
    } else if is_key(k, "beta_tpa") || is_key(k, "beta_tpa_m_per_w") {
        Some(PnParam::BetaTpa)
    } else if is_key(k, "a_eff_m2") {
        Some(PnParam::AEffM2)
    } else if is_key(k, "a_eff_um2") {
        Some(PnParam::AEffUm2)
    } else if is_key(k, "r_th") || is_key(k, "r_th_k_per_w") {
        Some(PnParam::RTh)
    } else if is_key(k, "dn_dt") {
        Some(PnParam::DnDt)
    } else if is_key(k, "r_series") {
        Some(PnParam::RSeries)
    } else if is_key(k, "l_um") {
        Some(PnParam::LUm)
    } else if is_key(k, "l_m") || is_key(k, "length") {
        Some(PnParam::LM)
    } else if is_key(k, "alpha_db_cm") {
        Some(PnParam::AlphaDbCm)
    } else {
        None
    }
}

/// The geometry the drive's self-heating reads but the segment owns: set,
/// yet not answered as the drive's own.
pub open spec fn is_drive_geometry(p: PnParam) -> bool {
    p == PnParam::LUm || p == PnParam::LM || p == PnParam::AlphaDbCm
}

/// Whether the full PN drive answers `k` as recognised: it sets a parameter
/// that is not segment geometry.
pub fn full_drive_accepts(k: &String) -> (b: bool)
    ensures
        b == (full_drive_param_spec(k@) matches Some(p) && !is_drive_geometry(p)),
{
    match full_drive_param(k) {
        Some(p) => !(p == PnParam::LUm || p == PnParam::LM || p == PnParam::AlphaDbCm),
        None => false,
    }
}

/// The parameter a name sets on an optical segment (case-sensitive).
pub open spec fn segment_param_spec(k: Seq<char>) -> Option<PnParam> {
    if k == "l_um"@ {
        Some(PnParam::LUm)
    } else if k == "l_m"@ || k == "length"@ {
        Some(PnParam::LM)
    } else if k == "n_g"@ {
        Some(PnParam::NG)
    } else if k == "n_eff"@ {
        Some(PnParam::NEff)
    } else if k == "wl_ref_m"@ || k == "lambda_ref_m"@ {
        Some(PnParam::WlRefM)
    } else if k == "wl_ref_nm"@ || k == "lambda_ref_nm"@ {
        Some(PnParam::WlRefNm)
    } else if k == "alpha_db_cm"@ {
        Some(PnParam::AlphaDbCm)
    } else if k == "pin_at_ref"@ {
        Some(PnParam::PinAtRef)
    } else {
        None
    }
}

/// The parameter `k` sets on an optical segment; names are matched as given.
pub fn segment_param(k: &String) -> (r: Option<PnParam>)
    ensures
        r == segment_param_spec(k@),
{
    if is_key(k, "l_um") {
        Some(PnParam::LUm)
    } else if is_key(k, "l_m") || is_key(k, "length") {
        Some(PnParam::LM)
    } else if is_key(k, "n_g") {
        Some(PnParam::NG)
    } else if is_key(k, "n_eff") {
        Some(PnParam::NEff)
    } else if is_key(k, "wl_ref_m") || is_key(k, "lambda_ref_m") {
        Some(PnParam::WlRefM)
    } else if is_key(k, "wl_ref_nm") || is_key(k, "lambda_ref_nm") {
        Some(PnParam::WlRefNm)
    } else if is_key(k, "alpha_db_cm") {
        Some(PnParam::AlphaDbCm)
    } else if is_key(k, "pin_at_ref") {
        Some(PnParam::PinAtRef)
    } else {
        None
    }
}

/// The parameter a name sets on the PN drive (case-sensitive).
pub open spec fn pn_drive_param_spec(k: Seq<char>) -> Option<PnParam> {
    if k == "dn_dv"@ {
        Some(PnParam::DnDv)
    } else if k == "g_pn"@ {
        Some(PnParam::GPn)
    } else if k == "v_pi_l"@ {
        Some(PnParam::VPiL)
    } else if k == "c_j0"@ {
        Some(PnParam::CJ0)
    } else if k == "v_bi"@ {
        Some(PnParam::VBi)
    } else if k == "m_j"@ {
        Some(PnParam::MJ)
    } else if k == "da_dv"@ {
        Some(PnParam::DaDv)
    } else if k == "wl_ref_m"@ || k == "lambda_ref_m"@ {
        Some(PnParam::WlRefM)
    } else if k == "wl_ref_nm"@ || k == "lambda_ref_nm"@ {
        Some(PnParam::WlRefNm)
    } else {
        None
    }
}

/// The parameter `k` sets on the PN drive.
pub fn pn_drive_param(k: &String) -> (r: Option<PnParam>)
    ensures
        r == pn_drive_param_spec(k@),
{
    if is_key(k, "dn_dv") {
        Some(PnParam::DnDv)
    } else if is_key(k, "g_pn") {
        Some(PnParam::GPn)
    } else if is_key(k, "v_pi_l") {
        Some(PnParam::VPiL)
    } else if is_key(k, "c_j0") {
        Some(PnParam::CJ0)
    } else if is_key(k, "v_bi") {
        Some(PnParam::VBi)
    } else if is_key(k, "m_j") {
        Some(PnParam::MJ)
    } else if is_key(k, "da_dv") {
        Some(PnParam::DaDv)
    } else if is_key(k, "wl_ref_m") || is_key(k, "lambda_ref_m") {
        Some(PnParam::WlRefM)
    } else if is_key(k, "wl_ref_nm") || is_key(k, "lambda_ref_nm") {
        Some(PnParam::WlRefNm)
    } else {
        None
    }
}

/// The parameter a name sets on the injection drive (case-sensitive).
pub open spec fn injection_param_spec(k: Seq<char>) -> Option<PnParam> {
    if k == "i_sat"@ || k == "is"@ {
        Some(PnParam::ISat)
    } else if k == "n_diode"@ || k == "n"@ {
        Some(PnParam::NDiode)
    } else if k == "tau_carrier"@ || k == "tau"@ {
        Some(PnParam::TauCarrier)
    } else if k == "dn_dv_inj"@ || k == "dn_dv"@ {
        Some(PnParam::DnDvInj)
    } else if k == "da_dv_inj"@ || k == "da_dv"@ {
        Some(PnParam::DaDvInj)
    } else {
        None
    }
}

/// The parameter `k` sets on the injection drive.
pub fn injection_param(k: &String) -> (r: Option<PnParam>)
    ensures
        r == injection_param_spec(k@),
{
    if is_key(k, "i_sat") || is_key(k, "is") {
        Some(PnParam::ISat)
    } else if is_key(k, "n_diode") || is_key(k, "n") {
        Some(PnParam::NDiode)
    } else if is_key(k, "tau_carrier") || is_key(k, "tau") {
        Some(PnParam::TauCarrier)
    } else if is_key(k, "dn_dv_inj") || is_key(k, "dn_dv") {
        Some(PnParam::DnDvInj)
    } else if is_key(k, "da_dv_inj") || is_key(k, "da_dv") {
        Some(PnParam::DaDvInj)
    } else {
        None
    }
}

/// The parameter a name sets on the metal heater (case-sensitive).
pub open spec fn heater_param_spec(k: Seq<char>) -> Option<PnParam> {
    if k == "r_heater"@ || k == "r"@ {
        Some(PnParam::RHeater)
    } else if k == "p_pi"@ || k == "p_pi_w"@ || k == "p_pi_th"@ {
        Some(PnParam::PPi)
    } else {
        None
    }
}

/// The parameter `k` sets on the metal heater.
pub fn heater_param(k: &String) -> (r: Option<PnParam>)
    ensures
        r == heater_param_spec(k@),
{
    if is_key(k, "r_heater") || is_key(k, "r") {
        Some(PnParam::RHeater)
    } else if is_key(k, "p_pi") || is_key(k, "p_pi_w") || is_key(k, "p_pi_th") {
        Some(PnParam::PPi)
    } else {
        None
    }
}

/// The parameter a name sets on the thermal-RC heater (case-sensitive).
pub open spec fn heater_rc_param_spec(k: Seq<char>) -> Option<PnParam> {
    if k == "r_heater"@ || k == "r"@ {
        Some(PnParam::RHeater)
    } else if k == "p_pi"@ || k == "p_pi_w"@ {
        Some(PnParam::PPi)
    } else if k == "tau_th"@ || k == "tau"@ {
        Some(PnParam::TauTh)
    } else {
        None
    }
}

/// The parameter `k` sets on the thermal-RC heater.
pub fn heater_rc_param(k: &String) -> (r: Option<PnParam>)
    ensures
        r == heater_rc_param_spec(k@),
{
    if is_key(k, "r_heater") || is_key(k, "r") {
        Some(PnParam::RHeater)
    } else if is_key(k, "p_pi") || is_key(k, "p_pi_w") {
        Some(PnParam::PPi)
    } else if is_key(k, "tau_th") || is_key(k, "tau") {
        Some(PnParam::TauTh)
    } else {
        None
    }
}

/// The parameter a name sets on the expression-defined drive
/// (case-sensitive): its junction conductance alone.
pub open spec fn expr_drive_param_spec(k: Seq<char>) -> Option<PnParam> {
    if k == "g_pn"@ {
        Some(PnParam::GPn)
    } else {
        None
    }
}

/// The parameter `k` sets on the expression-defined drive.
pub fn expr_drive_param(k: &String) -> (r: Option<PnParam>)
    ensures
        r == expr_drive_param_spec(k@),
{
    if is_key(k, "g_pn") {
        Some(PnParam::GPn)
    } else {
        None
    }
}

/// The parameter a lower-cased name sets on the full PN phase shifter with a
/// heater: the heater's names first, then the shifter's.
pub open spec fn pn_thermal_full_param_spec(k: Seq<char>) -> Option<PnParam> {
    match heater_param_spec(k) {
        Some(p) => Some(p),
        None => pn_full_param_spec(k),
    }
}

/// The parameter `name` sets on the full PN phase shifter with a heater,
/// compared lower-cased. The device accepts the name exactly when there is
/// one.
pub fn pn_thermal_full_param(name: &str) -> (r: Option<PnParam>)
    ensures
        r == pn_thermal_full_param_spec(lowercased(name@)),
{
    let lk = lowercase_key(name);
    match heater_param(&lk) {
        Some(p) => Some(p),
        None => pn_full_key(&lk),
    }
}

/// The drive models an active optical device can carry; a heater bolted on
/// to a drive is a second model after it.
#[derive(Clone, Copy, PartialEq, Eq, Structural, Debug)]
pub enum DriveModel {
    Pn,
    Injection,
    FullPn,
    Heater,
    HeaterRc,
    Expr,
}

/// The parameter `k` sets on drive model `m`.
pub open spec fn drive_model_param(m: DriveModel, k: Seq<char>) -> Option<PnParam> {
    match m {
        DriveModel::Pn => pn_drive_param_spec(k),
        DriveModel::Injection => injection_param_spec(k),
        DriveModel::FullPn => full_drive_param_spec(k),
        DriveModel::Heater => heater_param_spec(k),
        DriveModel::HeaterRc => heater_rc_param_spec(k),
        DriveModel::Expr => expr_drive_param_spec(k),
    }
}

/// Whether drive model `m` answers `k` as recognised: it sets a parameter,
/// except the reference wavelength on the PN drive and the segment geometry
/// on the full PN drive, which the segment answers for.
pub open spec fn drive_answers(m: DriveModel, k: Seq<char>) -> bool {
    match drive_model_param(m, k) {
        Some(p) => !(m == DriveModel::Pn && (p == PnParam::WlRefM || p == PnParam::WlRefNm))
            && !(m == DriveModel::FullPn && is_drive_geometry(p)),
        None => false,
    }
}

pub fn drive_model_accepts(m: DriveModel, k: &String) -> (b: bool)
    ensures
        b == drive_answers(m, k@),
{
    let p = match m {
        DriveModel::Pn => pn_drive_param(k),
        DriveModel::Injection => injection_param(k),
        DriveModel::FullPn => full_drive_param(k),
        DriveModel::Heater => heater_param(k),
        DriveModel::HeaterRc => heater_rc_param(k),
        DriveModel::Expr => expr_drive_param(k),
    };
    match p {
        Some(q) => !(m == DriveModel::Pn && (q == PnParam::WlRefM || q == PnParam::WlRefNm))
            && !(m == DriveModel::FullPn && (q == PnParam::LUm || q == PnParam::LM || q == PnParam::AlphaDbCm)),
        None => false,
    }
}

/// Whether an active device on an optical segment with drive models
/// `models` recognises the lower-cased name `k`: the segment or any model
/// takes it (every one of them is offered it).
pub open spec fn active_answers(models: Seq<DriveModel>, k: Seq<char>) -> bool {
    segment_param_spec(k) is Some || exists|i: int| 0 <= i < models.len() && drive_answers(#[trigger] models[i], k)
}

/// Whether an active device with drive models `models` recognises `name`,
/// compared lower-cased.
pub fn active_recognises(models: &[DriveModel], name: &str) -> (b: bool)
    ensures
        b == active_answers(models@, lowercased(name@)),
{
    let lk = lowercase_key(name);
    let mut any = segment_param(&lk).is_some();
    let mut i: usize = 0;
    while i < models.len()
        invariant
            i <= models@.len(),
            lk@ == lowercased(name@),
            any == (segment_param_spec(lk@) is Some || exists|j: int| 0 <= j < i && drive_answers(#[trigger] models@[j], lk@)),
        decreases models@.len() - i,
    {
        let m = drive_model_accepts(models[i], &lk);
        any = any || m;
        i = i + 1;
    }
    any
}

/// Each name the full PN phase shifter takes, and each alias, names the parameter it
/// spells; no other name names any of them.
#[verifier::rlimit(100)]
pub proof fn lemma_pn_full_names_their_parameters()
    ensures
        forall|k: Seq<char>| (#[trigger] pn_full_param_spec(k) == Some(PnParam::LUm)) <==> (k == "l_um"@),
        forall|k: Seq<char>| (#[trigger] pn_full_param_spec(k) == Some(PnParam::LM)) <==> (k == "l_m"@ || k == "length"@),
        forall|k: Seq<char>| (#[trigger] pn_full_param_spec(k) == Some(PnParam::NG)) <==> (k == "n_g"@),
        forall|k: Seq<char>| (#[trigger] pn_full_param_spec(k) == Some(PnParam::NEff)) <==> (k == "n_eff"@),
        forall|k: Seq<char>| (#[trigger] pn_full_param_spec(k) == Some(PnParam::WlRefNm)) <==> (k == "wl_ref_nm"@),
        forall|k: Seq<char>| (#[trigger] pn_full_param_spec(k) == Some(PnParam::WlRefM)) <==> (k == "wl_ref_m"@),
        forall|k: Seq<char>| (#[trigger] pn_full_param_spec(k) == Some(PnParam::DnDvRev)) <==> (k == "dn_dv_rev"@ || k == "dn_dv"@),
        forall|k: Seq<char>| (#[trigger] pn_full_param_spec(k) == Some(PnParam::DaDvRev)) <==> (k == "da_dv_rev"@ || k == "da_dv"@),
        forall|k: Seq<char>| (#[trigger] pn_full_param_spec(k) == Some(PnParam::CJ0)) <==> (k == "c_j0"@),
        forall|k: Seq<char>| (#[trigger] pn_full_param_spec(k) == Some(PnParam::VBi)) <==> (k == "v_bi"@),
        forall|k: Seq<char>| (#[trigger] pn_full_param_spec(k) == Some(PnParam::MJ)) <==> (k == "m_j"@),
        forall|k: Seq<char>| (#[trigger] pn_full_param_spec(k) == Some(PnParam::ISat)) <==> (k == "i_sat"@ || k == "is"@),
        forall|k: Seq<char>| (#[trigger] pn_full_param_spec(k) == Some(PnParam::NDiode)) <==> (k == "n_diode"@ || k == "n"@),
        forall|k: Seq<char>| (#[trigger] pn_full_param_spec(k) == Some(PnParam::TauCarrier)) <==> (k == "tau_carrier"@ || k == "tau"@),
        forall|k: Seq<char>| (#[trigger] pn_full_param_spec(k) == Some(PnParam::DnDvInj)) <==> (k == "dn_dv_inj"@),
        forall|k: Seq<char>| (#[trigger] pn_full_param_spec(k) == Some(PnParam::DaDvInj)) <==> (k == "da_dv_inj"@),
        forall|k: Seq<char>| (#[trigger] pn_full_param_spec(k) == Some(PnParam::AlphaDbCm)) <==> (k == "alpha_db_cm"@),
        forall|k: Seq<char>| (#[trigger] pn_full_param_spec(k) == Some(PnParam::BetaTpa)) <==> (k == "beta_tpa"@ || k == "beta_tpa_m_per_w"@),
        forall|k: Seq<char>| (#[trigger] pn_full_param_spec(k) == Some(PnParam::AEffM2)) <==> (k == "a_eff_m2"@),
        forall|k: Seq<char>| (#[trigger] pn_full_param_spec(k) == Some(PnParam::AEffUm2)) <==> (k == "a_eff_um2"@),
        forall|k: Seq<char>| (#[trigger] pn_full_param_spec(k) == Some(PnParam::RTh)) <==> (k == "r_th"@ || k == "r_th_k_per_w"@),
        forall|k: Seq<char>| (#[trigger] pn_full_param_spec(k) == Some(PnParam::DnDt)) <==> (k == "dn_dt"@),
        forall|k: Seq<char>| (#[trigger] pn_full_param_spec(k) == Some(PnParam::PinAtRef)) <==> (k == "pin_at_ref"@),
        forall|k: Seq<char>| (#[trigger] pn_full_param_spec(k) == Some(PnParam::RSeries)) <==> (k == "r_series"@),
{
    reveal_strlit("l_um");
    assert("l_um"@.len() == 4 && "l_um"@[0] == 'l' && "l_um"@[1] == '_' && "l_um"@[2] == 'u' && "l_um"@[3] == 'm');
    reveal_strlit("l_m");
    assert("l_m"@.len() == 3 && "l_m"@[0] == 'l' && "l_m"@[1] == '_' && "l_m"@[2] == 'm');
    reveal_strlit("length");
    assert("length"@.len() == 6 && "length"@[0] == 'l' && "length"@[1] == 'e' && "length"@[2] == 'n' && "length"@[3] == 'g' && "length"@[4] == 't' && "length"@[5] == 'h');
    reveal_strlit("n_g");
    assert("n_g"@.len() == 3 && "n_g"@[0] == 'n' && "n_g"@[1] == '_' && "n_g"@[2] == 'g');
    reveal_strlit("n_eff");
    assert("n_eff"@.len() == 5 && "n_eff"@[0] == 'n' && "n_eff"@[1] == '_' && "n_eff"@[2] == 'e' && "n_eff"@[3] == 'f' && "n_eff"@[4] == 'f');
    reveal_strlit("wl_ref_nm");
    assert("wl_ref_nm"@.len() == 9 && "wl_ref_nm"@[0] == 'w' && "wl_ref_nm"@[1] == 'l' && "wl_ref_nm"@[2] == '_' && "wl_ref_nm"@[3] == 'r' && "wl_ref_nm"@[4] == 'e' && "wl_ref_nm"@[5] == 'f' && "wl_ref_nm"@[6] == '_' && "wl_ref_nm"@[7] == 'n' && "wl_ref_nm"@[8] == 'm');
    reveal_strlit("wl_ref_m");
    assert("wl_ref_m"@.len() == 8 && "wl_ref_m"@[0] == 'w' && "wl_ref_m"@[1] == 'l' && "wl_ref_m"@[2] == '_' && "wl_ref_m"@[3] == 'r' && "wl_ref_m"@[4] == 'e' && "wl_ref_m"@[5] == 'f' && "wl_ref_m"@[6] == '_' && "wl_ref_m"@[7] == 'm');
    reveal_strlit("dn_dv_rev");
    assert("dn_dv_rev"@.len() == 9 && "dn_dv_rev"@[0] == 'd' && "dn_dv_rev"@[1] == 'n' && "dn_dv_rev"@[2] == '_' && "dn_dv_rev"@[3] == 'd' && "dn_dv_rev"@[4] == 'v' && "dn_dv_rev"@[5] == '_' && "dn_dv_rev"@[6] == 'r' && "dn_dv_rev"@[7] == 'e' && "dn_dv_rev"@[8] == 'v');
    reveal_strlit("dn_dv");
    assert("dn_dv"@.len() == 5 && "dn_dv"@[0] == 'd' && "dn_dv"@[1] == 'n' && "dn_dv"@[2] == '_' && "dn_dv"@[3] == 'd' && "dn_dv"@[4] == 'v');
    reveal_strlit("da_dv_rev");
    assert("da_dv_rev"@.len() == 9 && "da_dv_rev"@[0] == 'd' && "da_dv_rev"@[1] == 'a' && "da_dv_rev"@[2] == '_' && "da_dv_rev"@[3] == 'd' && "da_dv_rev"@[4] == 'v' && "da_dv_rev"@[5] == '_' && "da_dv_rev"@[6] == 'r' && "da_dv_rev"@[7] == 'e' && "da_dv_rev"@[8] == 'v');
    reveal_strlit("da_dv");
    assert("da_dv"@.len() == 5 && "da_dv"@[0] == 'd' && "da_dv"@[1] == 'a' && "da_dv"@[2] == '_' && "da_dv"@[3] == 'd' && "da_dv"@[4] == 'v');
    reveal_strlit("c_j0");
    assert("c_j0"@.len() == 4 && "c_j0"@[0] == 'c' && "c_j0"@[1] == '_' && "c_j0"@[2] == 'j' && "c_j0"@[3] == '0');
    reveal_strlit("v_bi");
    assert("v_bi"@.len() == 4 && "v_bi"@[0] == 'v' && "v_bi"@[1] == '_' && "v_bi"@[2] == 'b' && "v_bi"@[3] == 'i');
    reveal_strlit("m_j");
    assert("m_j"@.len() == 3 && "m_j"@[0] == 'm' && "m_j"@[1] == '_' && "m_j"@[2] == 'j');
    reveal_strlit("i_sat");
    assert("i_sat"@.len() == 5 && "i_sat"@[0] == 'i' && "i_sat"@[1] == '_' && "i_sat"@[2] == 's' && "i_sat"@[3] == 'a' && "i_sat"@[4] == 't');
    reveal_strlit("is");
    assert("is"@.len() == 2 && "is"@[0] == 'i' && "is"@[1] == 's');
    reveal_strlit("n_diode");
    assert("n_diode"@.len() == 7 && "n_diode"@[0] == 'n' && "n_diode"@[1] == '_' && "n_diode"@[2] == 'd' && "n_diode"@[3] == 'i' && "n_diode"@[4] == 'o' && "n_diode"@[5] == 'd' && "n_diode"@[6] == 'e');
    reveal_strlit("n");
    assert("n"@.len() == 1 && "n"@[0] == 'n');
    reveal_strlit("tau_carrier");
    assert("tau_carrier"@.len() == 11 && "tau_carrier"@[0] == 't' && "tau_carrier"@[1] == 'a' && "tau_carrier"@[2] == 'u' && "tau_carrier"@[3] == '_' && "tau_carrier"@[4] == 'c' && "tau_carrier"@[5] == 'a' && "tau_carrier"@[6] == 'r' && "tau_carrier"@[7] == 'r' && "tau_carrier"@[8] == 'i' && "tau_carrier"@[9] == 'e' && "tau_carrier"@[10] == 'r');
    reveal_strlit("tau");
    assert("tau"@.len() == 3 && "tau"@[0] == 't' && "tau"@[1] == 'a' && "tau"@[2] == 'u');
    reveal_strlit("dn_dv_inj");
    assert("dn_dv_inj"@.len() == 9 && "dn_dv_inj"@[0] == 'd' && "dn_dv_inj"@[1] == 'n' && "dn_dv_inj"@[2] == '_' && "dn_dv_inj"@[3] == 'd' && "dn_dv_inj"@[4] == 'v' && "dn_dv_inj"@[5] == '_' && "dn_dv_inj"@[6] == 'i' && "dn_dv_inj"@[7] == 'n' && "dn_dv_inj"@[8] == 'j');
    reveal_strlit("da_dv_inj");
    assert("da_dv_inj"@.len() == 9 && "da_dv_inj"@[0] == 'd' && "da_dv_inj"@[1] == 'a' && "da_dv_inj"@[2] == '_' && "da_dv_inj"@[3] == 'd' && "da_dv_inj"@[4] == 'v' && "da_dv_inj"@[5] == '_' && "da_dv_inj"@[6] == 'i' && "da_dv_inj"@[7] == 'n' && "da_dv_inj"@[8] == 'j');
    reveal_strlit("alpha_db_cm");
    assert("alpha_db_cm"@.len() == 11 && "alpha_db_cm"@[0] == 'a' && "alpha_db_cm"@[1] == 'l' && "alpha_db_cm"@[2] == 'p' && "alpha_db_cm"@[3] == 'h' && "alpha_db_cm"@[4] == 'a' && "alpha_db_cm"@[5] == '_' && "alpha_db_cm"@[6] == 'd' && "alpha_db_cm"@[7] == 'b' && "alpha_db_cm"@[8] == '_' && "alpha_db_cm"@[9] == 'c' && "alpha_db_cm"@[10] == 'm');
    reveal_strlit("beta_tpa");
    assert("beta_tpa"@.len() == 8 && "beta_tpa"@[0] == 'b' && "beta_tpa"@[1] == 'e' && "beta_tpa"@[2] == 't' && "beta_tpa"@[3] == 'a' && "beta_tpa"@[4] == '_' && "beta_tpa"@[5] == 't' && "beta_tpa"@[6] == 'p' && "beta_tpa"@[7] == 'a');
    reveal_strlit("beta_tpa_m_per_w");
    assert("beta_tpa_m_per_w"@.len() == 16 && "beta_tpa_m_per_w"@[0] == 'b' && "beta_tpa_m_per_w"@[1] == 'e' && "beta_tpa_m_per_w"@[2] == 't' && "beta_tpa_m_per_w"@[3] == 'a' && "beta_tpa_m_per_w"@[4] == '_' && "beta_tpa_m_per_w"@[5] == 't' && "beta_tpa_m_per_w"@[6] == 'p' && "beta_tpa_m_per_w"@[7] == 'a' && "beta_tpa_m_per_w"@[8] == '_' && "beta_tpa_m_per_w"@[9] == 'm' && "beta_tpa_m_per_w"@[10] == '_' && "beta_tpa_m_per_w"@[11] == 'p' && "beta_tpa_m_per_w"@[12] == 'e' && "beta_tpa_m_per_w"@[13] == 'r' && "beta_tpa_m_per_w"@[14] == '_' && "beta_tpa_m_per_w"@[15] == 'w');
    reveal_strlit("a_eff_m2");
    assert("a_eff_m2"@.len() == 8 && "a_eff_m2"@[0] == 'a' && "a_eff_m2"@[1] == '_' && "a_eff_m2"@[2] == 'e' && "a_eff_m2"@[3] == 'f' && "a_eff_m2"@[4] == 'f' && "a_eff_m2"@[5] == '_' && "a_eff_m2"@[6] == 'm' && "a_eff_m2"@[7] == '2');
    reveal_strlit("a_eff_um2");
    assert("a_eff_um2"@.len() == 9 && "a_eff_um2"@[0] == 'a' && "a_eff_um2"@[1] == '_' && "a_eff_um2"@[2] == 'e' && "a_eff_um2"@[3] == 'f' && "a_eff_um2"@[4] == 'f' && "a_eff_um2"@[5] == '_' && "a_eff_um2"@[6] == 'u' && "a_eff_um2"@[7] == 'm' && "a_eff_um2"@[8] == '2');
    reveal_strlit("r_th");
    assert("r_th"@.len() == 4 && "r_th"@[0] == 'r' && "r_th"@[1] == '_' && "r_th"@[2] == 't' && "r_th"@[3] == 'h');
    reveal_strlit("r_th_k_per_w");
    assert("r_th_k_per_w"@.len() == 12 && "r_th_k_per_w"@[0] == 'r' && "r_th_k_per_w"@[1] == '_' && "r_th_k_per_w"@[2] == 't' && "r_th_k_per_w"@[3] == 'h' && "r_th_k_per_w"@[4] == '_' && "r_th_k_per_w"@[5] == 'k' && "r_th_k_per_w"@[6] == '_' && "r_th_k_per_w"@[7] == 'p' && "r_th_k_per_w"@[8] == 'e' && "r_th_k_per_w"@[9] == 'r' && "r_th_k_per_w"@[10] == '_' && "r_th_k_per_w"@[11] == 'w');
    reveal_strlit("dn_dt");
    assert("dn_dt"@.len() == 5 && "dn_dt"@[0] == 'd' && "dn_dt"@[1] == 'n' && "dn_dt"@[2] == '_' && "dn_dt"@[3] == 'd' && "dn_dt"@[4] == 't');
    reveal_strlit("pin_at_ref");
    assert("pin_at_ref"@.len() == 10 && "pin_at_ref"@[0] == 'p' && "pin_at_ref"@[1] == 'i' && "pin_at_ref"@[2] == 'n' && "pin_at_ref"@[3] == '_' && "pin_at_ref"@[4] == 'a' && "pin_at_ref"@[5] == 't' && "pin_at_ref"@[6] == '_' && "pin_at_ref"@[7] == 'r' && "pin_at_ref"@[8] == 'e' && "pin_at_ref"@[9] == 'f');
    reveal_strlit("r_series");
    assert("r_series"@.len() == 8 && "r_series"@[0] == 'r' && "r_series"@[1] == '_' && "r_series"@[2] == 's' && "r_series"@[3] == 'e' && "r_series"@[4] == 'r' && "r_series"@[5] == 'i' && "r_series"@[6] == 'e' && "r_series"@[7] == 's');
}

/// Each name the full PN drive takes, and each alias, names the parameter it
/// spells; no other name names any of them.
#[verifier::rlimit(100)]
pub proof fn lemma_full_drive_names_their_parameters()
    ensures
        forall|k: Seq<char>| (#[trigger] full_drive_param_spec(k) == Some(PnParam::DnDvRev)) <==> (k == "dn_dv_rev"@ || k == "dn_dv"@),
        forall|k: Seq<char>| (#[trigger] full_drive_param_spec(k) == Some(PnParam::DaDvRev)) <==> (k == "da_dv_rev"@ || k == "da_dv"@),
        forall|k: Seq<char>| (#[trigger] full_drive_param_spec(k) == Some(PnParam::CJ0)) <==> (k == "c_j0"@),
        forall|k: Seq<char>| (#[trigger] full_drive_param_spec(k) == Some(PnParam::VBi)) <==> (k == "v_bi"@),
        forall|k: Seq<char>| (#[trigger] full_drive_param_spec(k) == Some(PnParam::MJ)) <==> (k == "m_j"@),
        forall|k: Seq<char>| (#[trigger] full_drive_param_spec(k) == Some(PnParam::ISat)) <==> (k == "i_sat"@ || k == "is"@),
        forall|k: Seq<char>| (#[trigger] full_drive_param_spec(k) == Some(PnParam::NDiode)) <==> (k == "n_diode"@ || k == "n"@),
        forall|k: Seq<char>| (#[trigger] full_drive_param_spec(k) == Some(PnParam::TauCarrier)) <==> (k == "tau_carrier"@ || k == "tau"@),
        forall|k: Seq<char>| (#[trigger] full_drive_param_spec(k) == Some(PnParam::DnDvInj)) <==> (k == "dn_dv_inj"@),
        forall|k: Seq<char>| (#[trigger] full_drive_param_spec(k) == Some(PnParam::DaDvInj)) <==> (k == "da_dv_inj"@),
        forall|k: Seq<char>| (#[trigger] full_drive_param_spec(k) == Some(PnParam::DnDi)) <==> (k == "dn_di"@ || k == "dn_di_per_a"@),
        forall|k: Seq<char>| (#[trigger] full_drive_param_spec(k) == Some(PnParam::DaDi)) <==> (k == "da_di"@ || k == "da_di_per_a"@),
        forall|k: Seq<char>| (#[trigger] full_drive_param_spec(k) == Some(PnParam::BetaTpa)) <==> (k == "beta_tpa"@ || k == "beta_tpa_m_per_w"@),
        forall|k: Seq<char>| (#[trigger] full_drive_param_spec(k) == Some(PnParam::AEffM2)) <==> (k == "a_eff_m2"@),
        forall|k: Seq<char>| (#[trigger] full_drive_param_spec(k) == Some(PnParam::AEffUm2)) <==> (k == "a_eff_um2"@),
        forall|k: Seq<char>| (#[trigger] full_drive_param_spec(k) == Some(PnParam::RTh)) <==> (k == "r_th"@ || k == "r_th_k_per_w"@),
        forall|k: Seq<char>| (#[trigger] full_drive_param_spec(k) == Some(PnParam::DnDt)) <==> (k == "dn_dt"@),
        forall|k: Seq<char>| (#[trigger] full_drive_param_spec(k) == Some(PnParam::RSeries)) <==> (k == "r_series"@),
        forall|k: Seq<char>| (#[trigger] full_drive_param_spec(k) == Some(PnParam::LUm)) <==> (k == "l_um"@),
        forall|k: Seq<char>| (#[trigger] full_drive_param_spec(k) == Some(PnParam::LM)) <==> (k == "l_m"@ || k == "length"@),
        forall|k: Seq<char>| (#[trigger] full_drive_param_spec(k) == Some(PnParam::AlphaDbCm)) <==> (k == "alpha_db_cm"@),
{
    reveal_strlit("dn_dv_rev");
    assert("dn_dv_rev"@.len() == 9 && "dn_dv_rev"@[0] == 'd' && "dn_dv_rev"@[1] == 'n' && "dn_dv_rev"@[2] == '_' && "dn_dv_rev"@[3] == 'd' && "dn_dv_rev"@[4] == 'v' && "dn_dv_rev"@[5] == '_' && "dn_dv_rev"@[6] == 'r' && "dn_dv_rev"@[7] == 'e' && "dn_dv_rev"@[8] == 'v');
    reveal_strlit("dn_dv");
    assert("dn_dv"@.len() == 5 && "dn_dv"@[0] == 'd' && "dn_dv"@[1] == 'n' && "dn_dv"@[2] == '_' && "dn_dv"@[3] == 'd' && "dn_dv"@[4] == 'v');
    reveal_strlit("da_dv_rev");
    assert("da_dv_rev"@.len() == 9 && "da_dv_rev"@[0] == 'd' && "da_dv_rev"@[1] == 'a' && "da_dv_rev"@[2] == '_' && "da_dv_rev"@[3] == 'd' && "da_dv_rev"@[4] == 'v' && "da_dv_rev"@[5] == '_' && "da_dv_rev"@[6] == 'r' && "da_dv_rev"@[7] == 'e' && "da_dv_rev"@[8] == 'v');
    reveal_strlit("da_dv");
    assert("da_dv"@.len() == 5 && "da_dv"@[0] == 'd' && "da_dv"@[1] == 'a' && "da_dv"@[2] == '_' && "da_dv"@[3] == 'd' && "da_dv"@[4] == 'v');
    reveal_strlit("c_j0");
    assert("c_j0"@.len() == 4 && "c_j0"@[0] == 'c' && "c_j0"@[1] == '_' && "c_j0"@[2] == 'j' && "c_j0"@[3] == '0');
    reveal_strlit("v_bi");
    assert("v_bi"@.len() == 4 && "v_bi"@[0] == 'v' && "v_bi"@[1] == '_' && "v_bi"@[2] == 'b' && "v_bi"@[3] == 'i');
    reveal_strlit("m_j");
    assert("m_j"@.len() == 3 && "m_j"@[0] == 'm' && "m_j"@[1] == '_' && "m_j"@[2] == 'j');
    reveal_strlit("i_sat");
    assert("i_sat"@.len() == 5 && "i_sat"@[0] == 'i' && "i_sat"@[1] == '_' && "i_sat"@[2] == 's' && "i_sat"@[3] == 'a' && "i_sat"@[4] == 't');
    reveal_strlit("is");
    assert("is"@.len() == 2 && "is"@[0] == 'i' && "is"@[1] == 's');
    reveal_strlit("n_diode");
    assert("n_diode"@.len() == 7 && "n_diode"@[0] == 'n' && "n_diode"@[1] == '_' && "n_diode"@[2] == 'd' && "n_diode"@[3] == 'i' && "n_diode"@[4] == 'o' && "n_diode"@[5] == 'd' && "n_diode"@[6] == 'e');
    reveal_strlit("n");
    assert("n"@.len() == 1 && "n"@[0] == 'n');
    reveal_strlit("tau_carrier");
    assert("tau_carrier"@.len() == 11 && "tau_carrier"@[0] == 't' && "tau_carrier"@[1] == 'a' && "tau_carrier"@[2] == 'u' && "tau_carrier"@[3] == '_' && "tau_carrier"@[4] == 'c' && "tau_carrier"@[5] == 'a' && "tau_carrier"@[6] == 'r' && "tau_carrier"@[7] == 'r' && "tau_carrier"@[8] == 'i' && "tau_carrier"@[9] == 'e' && "tau_carrier"@[10] == 'r');
    reveal_strlit("tau");
    assert("tau"@.len() == 3 && "tau"@[0] == 't' && "tau"@[1] == 'a' && "tau"@[2] == 'u');
    reveal_strlit("dn_dv_inj");
    assert("dn_dv_inj"@.len() == 9 && "dn_dv_inj"@[0] == 'd' && "dn_dv_inj"@[1] == 'n' && "dn_dv_inj"@[2] == '_' && "dn_dv_inj"@[3] == 'd' && "dn_dv_inj"@[4] == 'v' && "dn_dv_inj"@[5] == '_' && "dn_dv_inj"@[6] == 'i' && "dn_dv_inj"@[7] == 'n' && "dn_dv_inj"@[8] == 'j');
    reveal_strlit("da_dv_inj");
    assert("da_dv_inj"@.len() == 9 && "da_dv_inj"@[0] == 'd' && "da_dv_inj"@[1] == 'a' && "da_dv_inj"@[2] == '_' && "da_dv_inj"@[3] == 'd' && "da_dv_inj"@[4] == 'v' && "da_dv_inj"@[5] == '_' && "da_dv_inj"@[6] == 'i' && "da_dv_inj"@[7] == 'n' && "da_dv_inj"@[8] == 'j');
    reveal_strlit("dn_di");
    assert("dn_di"@.len() == 5 && "dn_di"@[0] == 'd' && "dn_di"@[1] == 'n' && "dn_di"@[2] == '_' && "dn_di"@[3] == 'd' && "dn_di"@[4] == 'i');
    reveal_strlit("dn_di_per_a");
    assert("dn_di_per_a"@.len() == 11 && "dn_di_per_a"@[0] == 'd' && "dn_di_per_a"@[1] == 'n' && "dn_di_per_a"@[2] == '_' && "dn_di_per_a"@[3] == 'd' && "dn_di_per_a"@[4] == 'i' && "dn_di_per_a"@[5] == '_' && "dn_di_per_a"@[6] == 'p' && "dn_di_per_a"@[7] == 'e' && "dn_di_per_a"@[8] == 'r' && "dn_di_per_a"@[9] == '_' && "dn_di_per_a"@[10] == 'a');
    reveal_strlit("da_di");
    assert("da_di"@.len() == 5 && "da_di"@[0] == 'd' && "da_di"@[1] == 'a' && "da_di"@[2] == '_' && "da_di"@[3] == 'd' && "da_di"@[4] == 'i');
    reveal_strlit("da_di_per_a");
    assert("da_di_per_a"@.len() == 11 && "da_di_per_a"@[0] == 'd' && "da_di_per_a"@[1] == 'a' && "da_di_per_a"@[2] == '_' && "da_di_per_a"@[3] == 'd' && "da_di_per_a"@[4] == 'i' && "da_di_per_a"@[5] == '_' && "da_di_per_a"@[6] == 'p' && "da_di_per_a"@[7] == 'e' && "da_di_per_a"@[8] == 'r' && "da_di_per_a"@[9] == '_' && "da_di_per_a"@[10] == 'a');
    reveal_strlit("beta_tpa");
    assert("beta_tpa"@.len() == 8 && "beta_tpa"@[0] == 'b' && "beta_tpa"@[1] == 'e' && "beta_tpa"@[2] == 't' && "beta_tpa"@[3] == 'a' && "beta_tpa"@[4] == '_' && "beta_tpa"@[5] == 't' && "beta_tpa"@[6] == 'p' && "beta_tpa"@[7] == 'a');
    reveal_strlit("beta_tpa_m_per_w");
    assert("beta_tpa_m_per_w"@.len() == 16 && "beta_tpa_m_per_w"@[0] == 'b' && "beta_tpa_m_per_w"@[1] == 'e' && "beta_tpa_m_per_w"@[2] == 't' && "beta_tpa_m_per_w"@[3] == 'a' && "beta_tpa_m_per_w"@[4] == '_' && "beta_tpa_m_per_w"@[5] == 't' && "beta_tpa_m_per_w"@[6] == 'p' && "beta_tpa_m_per_w"@[7] == 'a' && "beta_tpa_m_per_w"@[8] == '_' && "beta_tpa_m_per_w"@[9] == 'm' && "beta_tpa_m_per_w"@[10] == '_' && "beta_tpa_m_per_w"@[11] == 'p' && "beta_tpa_m_per_w"@[12] == 'e' && "beta_tpa_m_per_w"@[13] == 'r' && "beta_tpa_m_per_w"@[14] == '_' && "beta_tpa_m_per_w"@[15] == 'w');
    reveal_strlit("a_eff_m2");
    assert("a_eff_m2"@.len() == 8 && "a_eff_m2"@[0] == 'a' && "a_eff_m2"@[1] == '_' && "a_eff_m2"@[2] == 'e' && "a_eff_m2"@[3] == 'f' && "a_eff_m2"@[4] == 'f' && "a_eff_m2"@[5] == '_' && "a_eff_m2"@[6] == 'm' && "a_eff_m2"@[7] == '2');
    reveal_strlit("a_eff_um2");
    assert("a_eff_um2"@.len() == 9 && "a_eff_um2"@[0] == 'a' && "a_eff_um2"@[1] == '_' && "a_eff_um2"@[2] == 'e' && "a_eff_um2"@[3] == 'f' && "a_eff_um2"@[4] == 'f' && "a_eff_um2"@[5] == '_' && "a_eff_um2"@[6] == 'u' && "a_eff_um2"@[7] == 'm' && "a_eff_um2"@[8] == '2');
    reveal_strlit("r_th");
    assert("r_th"@.len() == 4 && "r_th"@[0] == 'r' && "r_th"@[1] == '_' && "r_th"@[2] == 't' && "r_th"@[3] == 'h');
    reveal_strlit("r_th_k_per_w");
    assert("r_th_k_per_w"@.len() == 12 && "r_th_k_per_w"@[0] == 'r' && "r_th_k_per_w"@[1] == '_' && "r_th_k_per_w"@[2] == 't' && "r_th_k_per_w"@[3] == 'h' && "r_th_k_per_w"@[4] == '_' && "r_th_k_per_w"@[5] == 'k' && "r_th_k_per_w"@[6] == '_' && "r_th_k_per_w"@[7] == 'p' && "r_th_k_per_w"@[8] == 'e' && "r_th_k_per_w"@[9] == 'r' && "r_th_k_per_w"@[10] == '_' && "r_th_k_per_w"@[11] == 'w');
    reveal_strlit("dn_dt");
    assert("dn_dt"@.len() == 5 && "dn_dt"@[0] == 'd' && "dn_dt"@[1] == 'n' && "dn_dt"@[2] == '_' && "dn_dt"@[3] == 'd' && "dn_dt"@[4] == 't');
    reveal_strlit("r_series");
    assert("r_series"@.len() == 8 && "r_series"@[0] == 'r' && "r_series"@[1] == '_' && "r_series"@[2] == 's' && "r_series"@[3] == 'e' && "r_series"@[4] == 'r' && "r_series"@[5] == 'i' && "r_series"@[6] == 'e' && "r_series"@[7] == 's');
    reveal_strlit("l_um");
    assert("l_um"@.len() == 4 && "l_um"@[0] == 'l' && "l_um"@[1] == '_' && "l_um"@[2] == 'u' && "l_um"@[3] == 'm');
    reveal_strlit("l_m");
    assert("l_m"@.len() == 3 && "l_m"@[0] == 'l' && "l_m"@[1] == '_' && "l_m"@[2] == 'm');
    reveal_strlit("length");
    assert("length"@.len() == 6 && "length"@[0] == 'l' && "length"@[1] == 'e' && "length"@[2] == 'n' && "length"@[3] == 'g' && "length"@[4] == 't' && "length"@[5] == 'h');
    reveal_strlit("alpha_db_cm");
    assert("alpha_db_cm"@.len() == 11 && "alpha_db_cm"@[0] == 'a' && "alpha_db_cm"@[1] == 'l' && "alpha_db_cm"@[2] == 'p' && "alpha_db_cm"@[3] == 'h' && "alpha_db_cm"@[4] == 'a' && "alpha_db_cm"@[5] == '_' && "alpha_db_cm"@[6] == 'd' && "alpha_db_cm"@[7] == 'b' && "alpha_db_cm"@[8] == '_' && "alpha_db_cm"@[9] == 'c' && "alpha_db_cm"@[10] == 'm');
}

/// Each name an optical segment takes, and each alias, names the parameter it
/// spells; no other name names any of them.
#[verifier::rlimit(100)]
pub proof fn lemma_segment_names_their_parameters()
    ensures
        forall|k: Seq<char>| (#[trigger] segment_param_spec(k) == Some(PnParam::LUm)) <==> (k == "l_um"@),
        forall|k: Seq<char>| (#[trigger] segment_param_spec(k) == Some(PnParam::LM)) <==> (k == "l_m"@ || k == "length"@),
        forall|k: Seq<char>| (#[trigger] segment_param_spec(k) == Some(PnParam::NG)) <==> (k == "n_g"@),
        forall|k: Seq<char>| (#[trigger] segment_param_spec(k) == Some(PnParam::NEff)) <==> (k == "n_eff"@),
        forall|k: Seq<char>| (#[trigger] segment_param_spec(k) == Some(PnParam::WlRefM)) <==> (k == "wl_ref_m"@ || k == "lambda_ref_m"@),
        forall|k: Seq<char>| (#[trigger] segment_param_spec(k) == Some(PnParam::WlRefNm)) <==> (k == "wl_ref_nm"@ || k == "lambda_ref_nm"@),
        forall|k: Seq<char>| (#[trigger] segment_param_spec(k) == Some(PnParam::AlphaDbCm)) <==> (k == "alpha_db_cm"@),
        forall|k: Seq<char>| (#[trigger] segment_param_spec(k) == Some(PnParam::PinAtRef)) <==> (k == "pin_at_ref"@),
{
    reveal_strlit("l_um");
    assert("l_um"@.len() == 4 && "l_um"@[0] == 'l' && "l_um"@[1] == '_' && "l_um"@[2] == 'u' && "l_um"@[3] == 'm');
    reveal_strlit("l_m");
    assert("l_m"@.len() == 3 && "l_m"@[0] == 'l' && "l_m"@[1] == '_' && "l_m"@[2] == 'm');
    reveal_strlit("length");
    assert("length"@.len() == 6 && "length"@[0] == 'l' && "length"@[1] == 'e' && "length"@[2] == 'n' && "length"@[3] == 'g' && "length"@[4] == 't' && "length"@[5] == 'h');
    reveal_strlit("n_g");
    assert("n_g"@.len() == 3 && "n_g"@[0] == 'n' && "n_g"@[1] == '_' && "n_g"@[2] == 'g');
    reveal_strlit("n_eff");
    assert("n_eff"@.len() == 5 && "n_eff"@[0] == 'n' && "n_eff"@[1] == '_' && "n_eff"@[2] == 'e' && "n_eff"@[3] == 'f' && "n_eff"@[4] == 'f');
    reveal_strlit("wl_ref_m");
    assert("wl_ref_m"@.len() == 8 && "wl_ref_m"@[0] == 'w' && "wl_ref_m"@[1] == 'l' && "wl_ref_m"@[2] == '_' && "wl_ref_m"@[3] == 'r' && "wl_ref_m"@[4] == 'e' && "wl_ref_m"@[5] == 'f' && "wl_ref_m"@[6] == '_' && "wl_ref_m"@[7] == 'm');
    reveal_strlit("lambda_ref_m");
    assert("lambda_ref_m"@.len() == 12 && "lambda_ref_m"@[0] == 'l' && "lambda_ref_m"@[1] == 'a' && "lambda_ref_m"@[2] == 'm' && "lambda_ref_m"@[3] == 'b' && "lambda_ref_m"@[4] == 'd' && "lambda_ref_m"@[5] == 'a' && "lambda_ref_m"@[6] == '_' && "lambda_ref_m"@[7] == 'r' && "lambda_ref_m"@[8] == 'e' && "lambda_ref_m"@[9] == 'f' && "lambda_ref_m"@[10] == '_' && "lambda_ref_m"@[11] == 'm');
    reveal_strlit("wl_ref_nm");
    assert("wl_ref_nm"@.len() == 9 && "wl_ref_nm"@[0] == 'w' && "wl_ref_nm"@[1] == 'l' && "wl_ref_nm"@[2] == '_' && "wl_ref_nm"@[3] == 'r' && "wl_ref_nm"@[4] == 'e' && "wl_ref_nm"@[5] == 'f' && "wl_ref_nm"@[6] == '_' && "wl_ref_nm"@[7] == 'n' && "wl_ref_nm"@[8] == 'm');
    reveal_strlit("lambda_ref_nm");
    assert("lambda_ref_nm"@.len() == 13 && "lambda_ref_nm"@[0] == 'l' && "lambda_ref_nm"@[1] == 'a' && "lambda_ref_nm"@[2] == 'm' && "lambda_ref_nm"@[3] == 'b' && "lambda_ref_nm"@[4] == 'd' && "lambda_ref_nm"@[5] == 'a' && "lambda_ref_nm"@[6] == '_' && "lambda_ref_nm"@[7] == 'r' && "lambda_ref_nm"@[8] == 'e' && "lambda_ref_nm"@[9] == 'f' && "lambda_ref_nm"@[10] == '_' && "lambda_ref_nm"@[11] == 'n' && "lambda_ref_nm"@[12] == 'm');
    reveal_strlit("alpha_db_cm");
    assert("alpha_db_cm"@.len() == 11 && "alpha_db_cm"@[0] == 'a' && "alpha_db_cm"@[1] == 'l' && "alpha_db_cm"@[2] == 'p' && "alpha_db_cm"@[3] == 'h' && "alpha_db_cm"@[4] == 'a' && "alpha_db_cm"@[5] == '_' && "alpha_db_cm"@[6] == 'd' && "alpha_db_cm"@[7] == 'b' && "alpha_db_cm"@[8] == '_' && "alpha_db_cm"@[9] == 'c' && "alpha_db_cm"@[10] == 'm');
    reveal_strlit("pin_at_ref");
    assert("pin_at_ref"@.len() == 10 && "pin_at_ref"@[0] == 'p' && "pin_at_ref"@[1] == 'i' && "pin_at_ref"@[2] == 'n' && "pin_at_ref"@[3] == '_' && "pin_at_ref"@[4] == 'a' && "pin_at_ref"@[5] == 't' && "pin_at_ref"@[6] == '_' && "pin_at_ref"@[7] == 'r' && "pin_at_ref"@[8] == 'e' && "pin_at_ref"@[9] == 'f');
}

/// Each name the PN drive takes, and each alias, names the parameter it
/// spells; no other name names any of them.
#[verifier::rlimit(100)]
pub proof fn lemma_pn_drive_names_their_parameters()
    ensures
        forall|k: Seq<char>| (#[trigger] pn_drive_param_spec(k) == Some(PnParam::DnDv)) <==> (k == "dn_dv"@),
        forall|k: Seq<char>| (#[trigger] pn_drive_param_spec(k) == Some(PnParam::GPn)) <==> (k == "g_pn"@),
        forall|k: Seq<char>| (#[trigger] pn_drive_param_spec(k) == Some(PnParam::VPiL)) <==> (k == "v_pi_l"@),
        forall|k: Seq<char>| (#[trigger] pn_drive_param_spec(k) == Some(PnParam::CJ0)) <==> (k == "c_j0"@),
        forall|k: Seq<char>| (#[trigger] pn_drive_param_spec(k) == Some(PnParam::VBi)) <==> (k == "v_bi"@),
        forall|k: Seq<char>| (#[trigger] pn_drive_param_spec(k) == Some(PnParam::MJ)) <==> (k == "m_j"@),
        forall|k: Seq<char>| (#[trigger] pn_drive_param_spec(k) == Some(PnParam::DaDv)) <==> (k == "da_dv"@),
        forall|k: Seq<char>| (#[trigger] pn_drive_param_spec(k) == Some(PnParam::WlRefM)) <==> (k == "wl_ref_m"@ || k == "lambda_ref_m"@),
        forall|k: Seq<char>| (#[trigger] pn_drive_param_spec(k) == Some(PnParam::WlRefNm)) <==> (k == "wl_ref_nm"@ || k == "lambda_ref_nm"@),
{
    reveal_strlit("dn_dv");
    assert("dn_dv"@.len() == 5 && "dn_dv"@[0] == 'd' && "dn_dv"@[1] == 'n' && "dn_dv"@[2] == '_' && "dn_dv"@[3] == 'd' && "dn_dv"@[4] == 'v');
    reveal_strlit("g_pn");
    assert("g_pn"@.len() == 4 && "g_pn"@[0] == 'g' && "g_pn"@[1] == '_' && "g_pn"@[2] == 'p' && "g_pn"@[3] == 'n');
    reveal_strlit("v_pi_l");
    assert("v_pi_l"@.len() == 6 && "v_pi_l"@[0] == 'v' && "v_pi_l"@[1] == '_' && "v_pi_l"@[2] == 'p' && "v_pi_l"@[3] == 'i' && "v_pi_l"@[4] == '_' && "v_pi_l"@[5] == 'l');
    reveal_strlit("c_j0");
    assert("c_j0"@.len() == 4 && "c_j0"@[0] == 'c' && "c_j0"@[1] == '_' && "c_j0"@[2] == 'j' && "c_j0"@[3] == '0');
    reveal_strlit("v_bi");
    assert("v_bi"@.len() == 4 && "v_bi"@[0] == 'v' && "v_bi"@[1] == '_' && "v_bi"@[2] == 'b' && "v_bi"@[3] == 'i');
    reveal_strlit("m_j");
    assert("m_j"@.len() == 3 && "m_j"@[0] == 'm' && "m_j"@[1] == '_' && "m_j"@[2] == 'j');
    reveal_strlit("da_dv");
    assert("da_dv"@.len() == 5 && "da_dv"@[0] == 'd' && "da_dv"@[1] == 'a' && "da_dv"@[2] == '_' && "da_dv"@[3] == 'd' && "da_dv"@[4] == 'v');
    reveal_strlit("wl_ref_m");
    assert("wl_ref_m"@.len() == 8 && "wl_ref_m"@[0] == 'w' && "wl_ref_m"@[1] == 'l' && "wl_ref_m"@[2] == '_' && "wl_ref_m"@[3] == 'r' && "wl_ref_m"@[4] == 'e' && "wl_ref_m"@[5] == 'f' && "wl_ref_m"@[6] == '_' && "wl_ref_m"@[7] == 'm');
    reveal_strlit("lambda_ref_m");
    assert("lambda_ref_m"@.len() == 12 && "lambda_ref_m"@[0] == 'l' && "lambda_ref_m"@[1] == 'a' && "lambda_ref_m"@[2] == 'm' && "lambda_ref_m"@[3] == 'b' && "lambda_ref_m"@[4] == 'd' && "lambda_ref_m"@[5] == 'a' && "lambda_ref_m"@[6] == '_' && "lambda_ref_m"@[7] == 'r' && "lambda_ref_m"@[8] == 'e' && "lambda_ref_m"@[9] == 'f' && "lambda_ref_m"@[10] == '_' && "lambda_ref_m"@[11] == 'm');
    reveal_strlit("wl_ref_nm");
    assert("wl_ref_nm"@.len() == 9 && "wl_ref_nm"@[0] == 'w' && "wl_ref_nm"@[1] == 'l' && "wl_ref_nm"@[2] == '_' && "wl_ref_nm"@[3] == 'r' && "wl_ref_nm"@[4] == 'e' && "wl_ref_nm"@[5] == 'f' && "wl_ref_nm"@[6] == '_' && "wl_ref_nm"@[7] == 'n' && "wl_ref_nm"@[8] == 'm');
    reveal_strlit("lambda_ref_nm");
    assert("lambda_ref_nm"@.len() == 13 && "lambda_ref_nm"@[0] == 'l' && "lambda_ref_nm"@[1] == 'a' && "lambda_ref_nm"@[2] == 'm' && "lambda_ref_nm"@[3] == 'b' && "lambda_ref_nm"@[4] == 'd' && "lambda_ref_nm"@[5] == 'a' && "lambda_ref_nm"@[6] == '_' && "lambda_ref_nm"@[7] == 'r' && "lambda_ref_nm"@[8] == 'e' && "lambda_ref_nm"@[9] == 'f' && "lambda_ref_nm"@[10] == '_' && "lambda_ref_nm"@[11] == 'n' && "lambda_ref_nm"@[12] == 'm');
}

/// Each name the injection drive takes, and each alias, names the parameter it
/// spells; no other name names any of them.
#[verifier::rlimit(100)]
pub proof fn lemma_injection_names_their_parameters()
    ensures
        forall|k: Seq<char>| (#[trigger] injection_param_spec(k) == Some(PnParam::ISat)) <==> (k == "i_sat"@ || k == "is"@),
        forall|k: Seq<char>| (#[trigger] injection_param_spec(k) == Some(PnParam::NDiode)) <==> (k == "n_diode"@ || k == "n"@),
        forall|k: Seq<char>| (#[trigger] injection_param_spec(k) == Some(PnParam::TauCarrier)) <==> (k == "tau_carrier"@ || k == "tau"@),
        forall|k: Seq<char>| (#[trigger] injection_param_spec(k) == Some(PnParam::DnDvInj)) <==> (k == "dn_dv_inj"@ || k == "dn_dv"@),
        forall|k: Seq<char>| (#[trigger] injection_param_spec(k) == Some(PnParam::DaDvInj)) <==> (k == "da_dv_inj"@ || k == "da_dv"@),
{
    reveal_strlit("i_sat");
    assert("i_sat"@.len() == 5 && "i_sat"@[0] == 'i' && "i_sat"@[1] == '_' && "i_sat"@[2] == 's' && "i_sat"@[3] == 'a' && "i_sat"@[4] == 't');
    reveal_strlit("is");
    assert("is"@.len() == 2 && "is"@[0] == 'i' && "is"@[1] == 's');
    reveal_strlit("n_diode");
    assert("n_diode"@.len() == 7 && "n_diode"@[0] == 'n' && "n_diode"@[1] == '_' && "n_diode"@[2] == 'd' && "n_diode"@[3] == 'i' && "n_diode"@[4] == 'o' && "n_diode"@[5] == 'd' && "n_diode"@[6] == 'e');
    reveal_strlit("n");
    assert("n"@.len() == 1 && "n"@[0] == 'n');
    reveal_strlit("tau_carrier");
    assert("tau_carrier"@.len() == 11 && "tau_carrier"@[0] == 't' && "tau_carrier"@[1] == 'a' && "tau_carrier"@[2] == 'u' && "tau_carrier"@[3] == '_' && "tau_carrier"@[4] == 'c' && "tau_carrier"@[5] == 'a' && "tau_carrier"@[6] == 'r' && "tau_carrier"@[7] == 'r' && "tau_carrier"@[8] == 'i' && "tau_carrier"@[9] == 'e' && "tau_carrier"@[10] == 'r');
    reveal_strlit("tau");
    assert("tau"@.len() == 3 && "tau"@[0] == 't' && "tau"@[1] == 'a' && "tau"@[2] == 'u');
    reveal_strlit("dn_dv_inj");
    assert("dn_dv_inj"@.len() == 9 && "dn_dv_inj"@[0] == 'd' && "dn_dv_inj"@[1] == 'n' && "dn_dv_inj"@[2] == '_' && "dn_dv_inj"@[3] == 'd' && "dn_dv_inj"@[4] == 'v' && "dn_dv_inj"@[5] == '_' && "dn_dv_inj"@[6] == 'i' && "dn_dv_inj"@[7] == 'n' && "dn_dv_inj"@[8] == 'j');
    reveal_strlit("dn_dv");
    assert("dn_dv"@.len() == 5 && "dn_dv"@[0] == 'd' && "dn_dv"@[1] == 'n' && "dn_dv"@[2] == '_' && "dn_dv"@[3] == 'd' && "dn_dv"@[4] == 'v');
    reveal_strlit("da_dv_inj");
    assert("da_dv_inj"@.len() == 9 && "da_dv_inj"@[0] == 'd' && "da_dv_inj"@[1] == 'a' && "da_dv_inj"@[2] == '_' && "da_dv_inj"@[3] == 'd' && "da_dv_inj"@[4] == 'v' && "da_dv_inj"@[5] == '_' && "da_dv_inj"@[6] == 'i' && "da_dv_inj"@[7] == 'n' && "da_dv_inj"@[8] == 'j');
    reveal_strlit("da_dv");
    assert("da_dv"@.len() == 5 && "da_dv"@[0] == 'd' && "da_dv"@[1] == 'a' && "da_dv"@[2] == '_' && "da_dv"@[3] == 'd' && "da_dv"@[4] == 'v');
}

/// Each name the metal heater takes, and each alias, names the parameter it
/// spells; no other name names any of them.
#[verifier::rlimit(100)]
pub proof fn lemma_heater_names_their_parameters()
    ensures
        forall|k: Seq<char>| (#[trigger] heater_param_spec(k) == Some(PnParam::RHeater)) <==> (k == "r_heater"@ || k == "r"@),
        forall|k: Seq<char>| (#[trigger] heater_param_spec(k) == Some(PnParam::PPi)) <==> (k == "p_pi"@ || k == "p_pi_w"@ || k == "p_pi_th"@),
{
    reveal_strlit("r_heater");
    assert("r_heater"@.len() == 8 && "r_heater"@[0] == 'r' && "r_heater"@[1] == '_' && "r_heater"@[2] == 'h' && "r_heater"@[3] == 'e' && "r_heater"@[4] == 'a' && "r_heater"@[5] == 't' && "r_heater"@[6] == 'e' && "r_heater"@[7] == 'r');
    reveal_strlit("r");
    assert("r"@.len() == 1 && "r"@[0] == 'r');
    reveal_strlit("p_pi");
    assert("p_pi"@.len() == 4 && "p_pi"@[0] == 'p' && "p_pi"@[1] == '_' && "p_pi"@[2] == 'p' && "p_pi"@[3] == 'i');
    reveal_strlit("p_pi_w");
    assert("p_pi_w"@.len() == 6 && "p_pi_w"@[0] == 'p' && "p_pi_w"@[1] == '_' && "p_pi_w"@[2] == 'p' && "p_pi_w"@[3] == 'i' && "p_pi_w"@[4] == '_' && "p_pi_w"@[5] == 'w');
    reveal_strlit("p_pi_th");
    assert("p_pi_th"@.len() == 7 && "p_pi_th"@[0] == 'p' && "p_pi_th"@[1] == '_' && "p_pi_th"@[2] == 'p' && "p_pi_th"@[3] == 'i' && "p_pi_th"@[4] == '_' && "p_pi_th"@[5] == 't' && "p_pi_th"@[6] == 'h');
}

/// Each name the thermal-RC heater takes, and each alias, names the parameter it
/// spells; no other name names any of them.
#[verifier::rlimit(100)]
pub proof fn lemma_heater_rc_names_their_parameters()
    ensures
        forall|k: Seq<char>| (#[trigger] heater_rc_param_spec(k) == Some(PnParam::RHeater)) <==> (k == "r_heater"@ || k == "r"@),
        forall|k: Seq<char>| (#[trigger] heater_rc_param_spec(k) == Some(PnParam::PPi)) <==> (k == "p_pi"@ || k == "p_pi_w"@),
        forall|k: Seq<char>| (#[trigger] heater_rc_param_spec(k) == Some(PnParam::TauTh)) <==> (k == "tau_th"@ || k == "tau"@),
{
    reveal_strlit("r_heater");
    assert("r_heater"@.len() == 8 && "r_heater"@[0] == 'r' && "r_heater"@[1] == '_' && "r_heater"@[2] == 'h' && "r_heater"@[3] == 'e' && "r_heater"@[4] == 'a' && "r_heater"@[5] == 't' && "r_heater"@[6] == 'e' && "r_heater"@[7] == 'r');
    reveal_strlit("r");
    assert("r"@.len() == 1 && "r"@[0] == 'r');
    reveal_strlit("p_pi");
    assert("p_pi"@.len() == 4 && "p_pi"@[0] == 'p' && "p_pi"@[1] == '_' && "p_pi"@[2] == 'p' && "p_pi"@[3] == 'i');
    reveal_strlit("p_pi_w");
    assert("p_pi_w"@.len() == 6 && "p_pi_w"@[0] == 'p' && "p_pi_w"@[1] == '_' && "p_pi_w"@[2] == 'p' && "p_pi_w"@[3] == 'i' && "p_pi_w"@[4] == '_' && "p_pi_w"@[5] == 'w');
    reveal_strlit("tau_th");
    assert("tau_th"@.len() == 6 && "tau_th"@[0] == 't' && "tau_th"@[1] == 'a' && "tau_th"@[2] == 'u' && "tau_th"@[3] == '_' && "tau_th"@[4] == 't' && "tau_th"@[5] == 'h');
    reveal_strlit("tau");
    assert("tau"@.len() == 3 && "tau"@[0] == 't' && "tau"@[1] == 'a' && "tau"@[2] == 'u');
}

/// Each name the expression-defined drive takes, and each alias, names the parameter it
/// spells; no other name names any of them.
#[verifier::rlimit(100)]
pub proof fn lemma_expr_drive_names_their_parameters()
    ensures
        forall|k: Seq<char>| (#[trigger] expr_drive_param_spec(k) == Some(PnParam::GPn)) <==> (k == "g_pn"@),
{
    reveal_strlit("g_pn");
    assert("g_pn"@.len() == 4 && "g_pn"@[0] == 'g' && "g_pn"@[1] == '_' && "g_pn"@[2] == 'p' && "g_pn"@[3] == 'n');
}

} // verus!
