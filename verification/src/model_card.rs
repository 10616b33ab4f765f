//! Model-card routing of the semiconductor devices: which card key (or
//! alias) sets which model parameter, and which keys go on the list of
//! unrecognised names. Values are carried as an opaque `T`; turning them into
//! the model's numbers (unit conversions, defaults) is the caller's.

use vstd::prelude::*;
use crate::text::{is_key, lowercase_key, lowercased};

verus! {

/// Whether `k` is one of the `unmodelled` names.
pub open spec fn listed(unmodelled: Seq<String>, k: Seq<char>) -> bool {
    exists|i: int| 0 <= i < unmodelled.len() && unmodelled[i]@ == k
}

/// Whether `k` is one of the `unmodelled` names.
pub fn is_listed(unmodelled: &[String], k: &String) -> (b: bool)
    ensures
        b == listed(unmodelled@, k@),
{
    let mut i: usize = 0;
    while i < unmodelled.len()
        invariant
            i <= unmodelled@.len(),
            forall|j: int| 0 <= j < i ==> unmodelled@[j]@ != k@,
        decreases unmodelled@.len() - i,
    {
        if unmodelled[i] == *k {
            return true;
        }
        i = i + 1;
    }
    false
}

/// A Gummel–Poon model-card parameter.
#[derive(Clone, Copy, PartialEq, Eq, Structural, Debug)]
pub enum BjtParam {
    Is,
    Kf,
    Af,
    Tnom,
    Eg,
    Xti,
    Xtb,
    Bf,
    Br,
    Nf,
    Nr,
    Vaf,
    Var,
    Ikf,
    Ikr,
    Ise,
    Ne,
    Isc,
    Nc,
    Tf,
    Xtf,
    Vtf,
    Itf,
    Tr,
    Rb,
    Rbm,
    Irb,
    Rc,
    Re,
    Cje,
    Vje,
    Mje,
    Cjc,
    Vjc,
    Mjc,
    Fc,
    Xcjc,
    Iss,
    Cjs,
    Vjs,
    Mjs,
}

/// The BJT parameter a lower-cased card key sets, aliases included.
pub open spec fn bjt_param_spec(k: Seq<char>) -> Option<BjtParam> {
    if k == "is"@ {
        Some(BjtParam::Is)
    } else if k == "kf"@ {
        Some(BjtParam::Kf)
    } else if k == "af"@ {
        Some(BjtParam::Af)
    } else if k == "tnom"@ {
        Some(BjtParam::Tnom)
    } else if k == "eg"@ {
        Some(BjtParam::Eg)
    } else if k == "xti"@ {
        Some(BjtParam::Xti)
    } else if k == "xtb"@ {
        Some(BjtParam::Xtb)
    } else if k == "bf"@ || k == "hfe"@ {
        Some(BjtParam::Bf)
    } else if k == "br"@ || k == "hrc"@ {
        Some(BjtParam::Br)
    } else if k == "nf"@ {
        Some(BjtParam::Nf)
    } else if k == "nr"@ {
        Some(BjtParam::Nr)
    } else if k == "vaf"@ || k == "va"@ {
        Some(BjtParam::Vaf)
    } else if k == "var"@ || k == "vb"@ {
        Some(BjtParam::Var)
    } else if k == "ikf"@ || k == "jbf"@ {
        Some(BjtParam::Ikf)
    } else if k == "ikr"@ || k == "jbr"@ {
        Some(BjtParam::Ikr)
    } else if k == "ise"@ || k == "c2"@ {
        Some(BjtParam::Ise)
    } else if k == "ne"@ {
        Some(BjtParam::Ne)
    } else if k == "isc"@ || k == "c4"@ {
        Some(BjtParam::Isc)
    } else if k == "nc"@ {
        Some(BjtParam::Nc)
    } else if k == "tf"@ {
        Some(BjtParam::Tf)
    } else if k == "xtf"@ {
        Some(BjtParam::Xtf)
    } else if k == "vtf"@ {
        Some(BjtParam::Vtf)
    } else if k == "itf"@ || k == "jtf"@ {
        Some(BjtParam::Itf)
    } else if k == "tr"@ {
        Some(BjtParam::Tr)
    } else if k == "rb"@ {
        Some(BjtParam::Rb)
    } else if k == "rbm"@ {
        Some(BjtParam::Rbm)
    } else if k == "irb"@ || k == "jrb"@ || k == "irb0"@ {
        Some(BjtParam::Irb)
    } else if k == "rc"@ {
        Some(BjtParam::Rc)
    } else if k == "re"@ {
        Some(BjtParam::Re)
    } else if k == "cje"@ {
        Some(BjtParam::Cje)
    } else if k == "vje"@ {
        Some(BjtParam::Vje)
    } else if k == "mje"@ {
        Some(BjtParam::Mje)
    } else if k == "cjc"@ {
        Some(BjtParam::Cjc)
    } else if k == "vjc"@ {
        Some(BjtParam::Vjc)
    } else if k == "mjc"@ {
        Some(BjtParam::Mjc)
    } else if k == "fc"@ {
        Some(BjtParam::Fc)
    } else if k == "xcjc"@ || k == "cdis"@ {
        Some(BjtParam::Xcjc)
    } else if k == "iss"@ {
        Some(BjtParam::Iss)
    } else if k == "cjs"@ || k == "ccs"@ {
        Some(BjtParam::Cjs)
    } else if k == "vjs"@ || k == "pjs"@ {
        Some(BjtParam::Vjs)
    } else if k == "mjs"@ || k == "ms"@ {
        Some(BjtParam::Mjs)
    } else {
        None
    }
}

/// The BJT parameter the lower-cased key `k` sets.
pub fn bjt_key(k: &String) -> (r: Option<BjtParam>)
    ensures
        r == bjt_param_spec(k@),
{
    if is_key(k, "is") {
        Some(BjtParam::Is)
    } else if is_key(k, "kf") {
        Some(BjtParam::Kf)
    } else if is_key(k, "af") {
        Some(BjtParam::Af)
    } else if is_key(k, "tnom") {
        Some(BjtParam::Tnom)
    } else if is_key(k, "eg") {
        Some(BjtParam::Eg)
    } else if is_key(k, "xti") {
        Some(BjtParam::Xti)
    } else if is_key(k, "xtb") {
        Some(BjtParam::Xtb)
    } else if is_key(k, "bf") || is_key(k, "hfe") {
        Some(BjtParam::Bf)
    } else if is_key(k, "br") || is_key(k, "hrc") {
        Some(BjtParam::Br)
    } else if is_key(k, "nf") {
        Some(BjtParam::Nf)
    } else if is_key(k, "nr") {
        Some(BjtParam::Nr)
    } else if is_key(k, "vaf") || is_key(k, "va") {
        Some(BjtParam::Vaf)
    } else if is_key(k, "var") || is_key(k, "vb") {
        Some(BjtParam::Var)
    } else if is_key(k, "ikf") || is_key(k, "jbf") {
        Some(BjtParam::Ikf)
    } else if is_key(k, "ikr") || is_key(k, "jbr") {
        Some(BjtParam::Ikr)
    } else if is_key(k, "ise") || is_key(k, "c2") {
        Some(BjtParam::Ise)
    } else if is_key(k, "ne") {
        Some(BjtParam::Ne)
    } else if is_key(k, "isc") || is_key(k, "c4") {
        Some(BjtParam::Isc)
    } else if is_key(k, "nc") {
        Some(BjtParam::Nc)
    } else if is_key(k, "tf") {
        Some(BjtParam::Tf)
    } else if is_key(k, "xtf") {
        Some(BjtParam::Xtf)
    } else if is_key(k, "vtf") {
        Some(BjtParam::Vtf)
    } else if is_key(k, "itf") || is_key(k, "jtf") {
        Some(BjtParam::Itf)
    } else if is_key(k, "tr") {
        Some(BjtParam::Tr)
    } else if is_key(k, "rb") {
        Some(BjtParam::Rb)
    } else if is_key(k, "rbm") {
        Some(BjtParam::Rbm)
    } else if is_key(k, "irb") || is_key(k, "jrb") || is_key(k, "irb0") {
        Some(BjtParam::Irb)
    } else if is_key(k, "rc") {
        Some(BjtParam::Rc)
    } else if is_key(k, "re") {
        Some(BjtParam::Re)
    } else if is_key(k, "cje") {
        Some(BjtParam::Cje)
    } else if is_key(k, "vje") {
        Some(BjtParam::Vje)
    } else if is_key(k, "mje") {
        Some(BjtParam::Mje)
    } else if is_key(k, "cjc") {
        Some(BjtParam::Cjc)
    } else if is_key(k, "vjc") {
        Some(BjtParam::Vjc)
    } else if is_key(k, "mjc") {
        Some(BjtParam::Mjc)
    } else if is_key(k, "fc") {
        Some(BjtParam::Fc)
    } else if is_key(k, "xcjc") || is_key(k, "cdis") {
        Some(BjtParam::Xcjc)
    } else if is_key(k, "iss") {
        Some(BjtParam::Iss)
    } else if is_key(k, "cjs") || is_key(k, "ccs") {
        Some(BjtParam::Cjs)
    } else if is_key(k, "vjs") || is_key(k, "pjs") {
        Some(BjtParam::Vjs)
    } else if is_key(k, "mjs") || is_key(k, "ms") {
        Some(BjtParam::Mjs)
    } else {
        None
    }
}

/// The BJT parameter a card key sets, compared lower-cased.
pub fn bjt_param(key: &str) -> (r: Option<BjtParam>)
    ensures
        r == bjt_param_spec(lowercased(key@)),
{
    let lk = lowercase_key(key);
    bjt_key(&lk)
}

/// Each Gummel–Poon card key names the parameter it spells, and its SPICE
/// aliases name the same one: `bf`/`hfe` the forward beta, `br`/`hrc` the
/// reverse beta, `vaf`/`va` the forward and `var`/`vb` the reverse Early
/// voltage, `ikf`/`jbf` and `ikr`/`jbr` the knee currents, `ise`/`c2` and
/// `isc`/`c4` the leakage saturation currents, `itf`/`jtf`, `irb`/`jrb`/`irb0`,
/// `xcjc`/`cdis`, `cjs`/`ccs`, `vjs`/`pjs`, `mjs`/`ms`; no other key names any
/// of them.
#[verifier::rlimit(100)]
pub proof fn lemma_bjt_keys_name_their_parameters()
    ensures
        forall|k: Seq<char>| (#[trigger] bjt_param_spec(k) == Some(BjtParam::Is)) <==> (k == "is"@),
        forall|k: Seq<char>| (#[trigger] bjt_param_spec(k) == Some(BjtParam::Kf)) <==> (k == "kf"@),
        forall|k: Seq<char>| (#[trigger] bjt_param_spec(k) == Some(BjtParam::Af)) <==> (k == "af"@),
        forall|k: Seq<char>| (#[trigger] bjt_param_spec(k) == Some(BjtParam::Tnom)) <==> (k == "tnom"@),
        forall|k: Seq<char>| (#[trigger] bjt_param_spec(k) == Some(BjtParam::Eg)) <==> (k == "eg"@),
        forall|k: Seq<char>| (#[trigger] bjt_param_spec(k) == Some(BjtParam::Xti)) <==> (k == "xti"@),
        forall|k: Seq<char>| (#[trigger] bjt_param_spec(k) == Some(BjtParam::Xtb)) <==> (k == "xtb"@),
        forall|k: Seq<char>| (#[trigger] bjt_param_spec(k) == Some(BjtParam::Bf)) <==> (k == "bf"@ || k == "hfe"@),
        forall|k: Seq<char>| (#[trigger] bjt_param_spec(k) == Some(BjtParam::Br)) <==> (k == "br"@ || k == "hrc"@),
        forall|k: Seq<char>| (#[trigger] bjt_param_spec(k) == Some(BjtParam::Nf)) <==> (k == "nf"@),
        forall|k: Seq<char>| (#[trigger] bjt_param_spec(k) == Some(BjtParam::Nr)) <==> (k == "nr"@),
        forall|k: Seq<char>| (#[trigger] bjt_param_spec(k) == Some(BjtParam::Vaf)) <==> (k == "vaf"@ || k == "va"@),
        forall|k: Seq<char>| (#[trigger] bjt_param_spec(k) == Some(BjtParam::Var)) <==> (k == "var"@ || k == "vb"@),
        forall|k: Seq<char>| (#[trigger] bjt_param_spec(k) == Some(BjtParam::Ikf)) <==> (k == "ikf"@ || k == "jbf"@),
        forall|k: Seq<char>| (#[trigger] bjt_param_spec(k) == Some(BjtParam::Ikr)) <==> (k == "ikr"@ || k == "jbr"@),
        forall|k: Seq<char>| (#[trigger] bjt_param_spec(k) == Some(BjtParam::Ise)) <==> (k == "ise"@ || k == "c2"@),
        forall|k: Seq<char>| (#[trigger] bjt_param_spec(k) == Some(BjtParam::Ne)) <==> (k == "ne"@),
        forall|k: Seq<char>| (#[trigger] bjt_param_spec(k) == Some(BjtParam::Isc)) <==> (k == "isc"@ || k == "c4"@),
        forall|k: Seq<char>| (#[trigger] bjt_param_spec(k) == Some(BjtParam::Nc)) <==> (k == "nc"@),
        forall|k: Seq<char>| (#[trigger] bjt_param_spec(k) == Some(BjtParam::Tf)) <==> (k == "tf"@),
        forall|k: Seq<char>| (#[trigger] bjt_param_spec(k) == Some(BjtParam::Xtf)) <==> (k == "xtf"@),
        forall|k: Seq<char>| (#[trigger] bjt_param_spec(k) == Some(BjtParam::Vtf)) <==> (k == "vtf"@),
        forall|k: Seq<char>| (#[trigger] bjt_param_spec(k) == Some(BjtParam::Itf)) <==> (k == "itf"@ || k == "jtf"@),
        forall|k: Seq<char>| (#[trigger] bjt_param_spec(k) == Some(BjtParam::Tr)) <==> (k == "tr"@),
        forall|k: Seq<char>| (#[trigger] bjt_param_spec(k) == Some(BjtParam::Rb)) <==> (k == "rb"@),
        forall|k: Seq<char>| (#[trigger] bjt_param_spec(k) == Some(BjtParam::Rbm)) <==> (k == "rbm"@),
        forall|k: Seq<char>| (#[trigger] bjt_param_spec(k) == Some(BjtParam::Irb)) <==> (k == "irb"@ || k == "jrb"@ || k == "irb0"@),
        forall|k: Seq<char>| (#[trigger] bjt_param_spec(k) == Some(BjtParam::Rc)) <==> (k == "rc"@),
        forall|k: Seq<char>| (#[trigger] bjt_param_spec(k) == Some(BjtParam::Re)) <==> (k == "re"@),
        forall|k: Seq<char>| (#[trigger] bjt_param_spec(k) == Some(BjtParam::Cje)) <==> (k == "cje"@),
        forall|k: Seq<char>| (#[trigger] bjt_param_spec(k) == Some(BjtParam::Vje)) <==> (k == "vje"@),
        forall|k: Seq<char>| (#[trigger] bjt_param_spec(k) == Some(BjtParam::Mje)) <==> (k == "mje"@),
        forall|k: Seq<char>| (#[trigger] bjt_param_spec(k) == Some(BjtParam::Cjc)) <==> (k == "cjc"@),
        forall|k: Seq<char>| (#[trigger] bjt_param_spec(k) == Some(BjtParam::Vjc)) <==> (k == "vjc"@),
        forall|k: Seq<char>| (#[trigger] bjt_param_spec(k) == Some(BjtParam::Mjc)) <==> (k == "mjc"@),
        forall|k: Seq<char>| (#[trigger] bjt_param_spec(k) == Some(BjtParam::Fc)) <==> (k == "fc"@),
        forall|k: Seq<char>| (#[trigger] bjt_param_spec(k) == Some(BjtParam::Xcjc)) <==> (k == "xcjc"@ || k == "cdis"@),
        forall|k: Seq<char>| (#[trigger] bjt_param_spec(k) == Some(BjtParam::Iss)) <==> (k == "iss"@),
        forall|k: Seq<char>| (#[trigger] bjt_param_spec(k) == Some(BjtParam::Cjs)) <==> (k == "cjs"@ || k == "ccs"@),
        forall|k: Seq<char>| (#[trigger] bjt_param_spec(k) == Some(BjtParam::Vjs)) <==> (k == "vjs"@ || k == "pjs"@),
        forall|k: Seq<char>| (#[trigger] bjt_param_spec(k) == Some(BjtParam::Mjs)) <==> (k == "mjs"@ || k == "ms"@),
{
    reveal_strlit("is");
    assert("is"@.len() == 2 && "is"@[0] == 'i' && "is"@[1] == 's');
    reveal_strlit("kf");
    assert("kf"@.len() == 2 && "kf"@[0] == 'k' && "kf"@[1] == 'f');
    reveal_strlit("af");
    assert("af"@.len() == 2 && "af"@[0] == 'a' && "af"@[1] == 'f');
    reveal_strlit("tnom");
    assert("tnom"@.len() == 4 && "tnom"@[0] == 't' && "tnom"@[1] == 'n' && "tnom"@[2] == 'o' && "tnom"@[3] == 'm');
    reveal_strlit("eg");
    assert("eg"@.len() == 2 && "eg"@[0] == 'e' && "eg"@[1] == 'g');
    reveal_strlit("xti");
    assert("xti"@.len() == 3 && "xti"@[0] == 'x' && "xti"@[1] == 't' && "xti"@[2] == 'i');
    reveal_strlit("xtb");
    assert("xtb"@.len() == 3 && "xtb"@[0] == 'x' && "xtb"@[1] == 't' && "xtb"@[2] == 'b');
    reveal_strlit("bf");
    assert("bf"@.len() == 2 && "bf"@[0] == 'b' && "bf"@[1] == 'f');
    reveal_strlit("hfe");
    assert("hfe"@.len() == 3 && "hfe"@[0] == 'h' && "hfe"@[1] == 'f' && "hfe"@[2] == 'e');
    reveal_strlit("br");
    assert("br"@.len() == 2 && "br"@[0] == 'b' && "br"@[1] == 'r');
    reveal_strlit("hrc");
    assert("hrc"@.len() == 3 && "hrc"@[0] == 'h' && "hrc"@[1] == 'r' && "hrc"@[2] == 'c');
    reveal_strlit("nf");
    assert("nf"@.len() == 2 && "nf"@[0] == 'n' && "nf"@[1] == 'f');
    reveal_strlit("nr");
    assert("nr"@.len() == 2 && "nr"@[0] == 'n' && "nr"@[1] == 'r');
    reveal_strlit("vaf");
    assert("vaf"@.len() == 3 && "vaf"@[0] == 'v' && "vaf"@[1] == 'a' && "vaf"@[2] == 'f');
    reveal_strlit("va");
    assert("va"@.len() == 2 && "va"@[0] == 'v' && "va"@[1] == 'a');
    reveal_strlit("var");
    assert("var"@.len() == 3 && "var"@[0] == 'v' && "var"@[1] == 'a' && "var"@[2] == 'r');
    reveal_strlit("vb");
    assert("vb"@.len() == 2 && "vb"@[0] == 'v' && "vb"@[1] == 'b');
    reveal_strlit("ikf");
    assert("ikf"@.len() == 3 && "ikf"@[0] == 'i' && "ikf"@[1] == 'k' && "ikf"@[2] == 'f');
    reveal_strlit("jbf");
    assert("jbf"@.len() == 3 && "jbf"@[0] == 'j' && "jbf"@[1] == 'b' && "jbf"@[2] == 'f');
    reveal_strlit("ikr");
    assert("ikr"@.len() == 3 && "ikr"@[0] == 'i' && "ikr"@[1] == 'k' && "ikr"@[2] == 'r');
    reveal_strlit("jbr");
    assert("jbr"@.len() == 3 && "jbr"@[0] == 'j' && "jbr"@[1] == 'b' && "jbr"@[2] == 'r');
    reveal_strlit("ise");
    assert("ise"@.len() == 3 && "ise"@[0] == 'i' && "ise"@[1] == 's' && "ise"@[2] == 'e');
    reveal_strlit("c2");
    assert("c2"@.len() == 2 && "c2"@[0] == 'c' && "c2"@[1] == '2');
    reveal_strlit("ne");
    assert("ne"@.len() == 2 && "ne"@[0] == 'n' && "ne"@[1] == 'e');
    reveal_strlit("isc");
    assert("isc"@.len() == 3 && "isc"@[0] == 'i' && "isc"@[1] == 's' && "isc"@[2] == 'c');
    reveal_strlit("c4");
    assert("c4"@.len() == 2 && "c4"@[0] == 'c' && "c4"@[1] == '4');
    reveal_strlit("nc");
    assert("nc"@.len() == 2 && "nc"@[0] == 'n' && "nc"@[1] == 'c');
    reveal_strlit("tf");
    assert("tf"@.len() == 2 && "tf"@[0] == 't' && "tf"@[1] == 'f');
    reveal_strlit("xtf");
    assert("xtf"@.len() == 3 && "xtf"@[0] == 'x' && "xtf"@[1] == 't' && "xtf"@[2] == 'f');
    reveal_strlit("vtf");
    assert("vtf"@.len() == 3 && "vtf"@[0] == 'v' && "vtf"@[1] == 't' && "vtf"@[2] == 'f');
    reveal_strlit("itf");
    assert("itf"@.len() == 3 && "itf"@[0] == 'i' && "itf"@[1] == 't' && "itf"@[2] == 'f');
    reveal_strlit("jtf");
    assert("jtf"@.len() == 3 && "jtf"@[0] == 'j' && "jtf"@[1] == 't' && "jtf"@[2] == 'f');
    reveal_strlit("tr");
    assert("tr"@.len() == 2 && "tr"@[0] == 't' && "tr"@[1] == 'r');
    reveal_strlit("rb");
    assert("rb"@.len() == 2 && "rb"@[0] == 'r' && "rb"@[1] == 'b');
    reveal_strlit("rbm");
    assert("rbm"@.len() == 3 && "rbm"@[0] == 'r' && "rbm"@[1] == 'b' && "rbm"@[2] == 'm');
    reveal_strlit("irb");
    assert("irb"@.len() == 3 && "irb"@[0] == 'i' && "irb"@[1] == 'r' && "irb"@[2] == 'b');
    reveal_strlit("jrb");
    assert("jrb"@.len() == 3 && "jrb"@[0] == 'j' && "jrb"@[1] == 'r' && "jrb"@[2] == 'b');
    reveal_strlit("irb0");
    assert("irb0"@.len() == 4 && "irb0"@[0] == 'i' && "irb0"@[1] == 'r' && "irb0"@[2] == 'b' && "irb0"@[3] == '0');
    reveal_strlit("rc");
    assert("rc"@.len() == 2 && "rc"@[0] == 'r' && "rc"@[1] == 'c');
    reveal_strlit("re");
    assert("re"@.len() == 2 && "re"@[0] == 'r' && "re"@[1] == 'e');
    reveal_strlit("cje");
    assert("cje"@.len() == 3 && "cje"@[0] == 'c' && "cje"@[1] == 'j' && "cje"@[2] == 'e');
    reveal_strlit("vje");
    assert("vje"@.len() == 3 && "vje"@[0] == 'v' && "vje"@[1] == 'j' && "vje"@[2] == 'e');
    reveal_strlit("mje");
    assert("mje"@.len() == 3 && "mje"@[0] == 'm' && "mje"@[1] == 'j' && "mje"@[2] == 'e');
    reveal_strlit("cjc");
    assert("cjc"@.len() == 3 && "cjc"@[0] == 'c' && "cjc"@[1] == 'j' && "cjc"@[2] == 'c');
    reveal_strlit("vjc");
    assert("vjc"@.len() == 3 && "vjc"@[0] == 'v' && "vjc"@[1] == 'j' && "vjc"@[2] == 'c');
    reveal_strlit("mjc");
    assert("mjc"@.len() == 3 && "mjc"@[0] == 'm' && "mjc"@[1] == 'j' && "mjc"@[2] == 'c');
    reveal_strlit("fc");
    assert("fc"@.len() == 2 && "fc"@[0] == 'f' && "fc"@[1] == 'c');
    reveal_strlit("xcjc");
    assert("xcjc"@.len() == 4 && "xcjc"@[0] == 'x' && "xcjc"@[1] == 'c' && "xcjc"@[2] == 'j' && "xcjc"@[3] == 'c');
    reveal_strlit("cdis");
    assert("cdis"@.len() == 4 && "cdis"@[0] == 'c' && "cdis"@[1] == 'd' && "cdis"@[2] == 'i' && "cdis"@[3] == 's');
    reveal_strlit("iss");
    assert("iss"@.len() == 3 && "iss"@[0] == 'i' && "iss"@[1] == 's' && "iss"@[2] == 's');
    reveal_strlit("cjs");
    assert("cjs"@.len() == 3 && "cjs"@[0] == 'c' && "cjs"@[1] == 'j' && "cjs"@[2] == 's');
    reveal_strlit("ccs");
    assert("ccs"@.len() == 3 && "ccs"@[0] == 'c' && "ccs"@[1] == 'c' && "ccs"@[2] == 's');
    reveal_strlit("vjs");
    assert("vjs"@.len() == 3 && "vjs"@[0] == 'v' && "vjs"@[1] == 'j' && "vjs"@[2] == 's');
    reveal_strlit("pjs");
    assert("pjs"@.len() == 3 && "pjs"@[0] == 'p' && "pjs"@[1] == 'j' && "pjs"@[2] == 's');
    reveal_strlit("mjs");
    assert("mjs"@.len() == 3 && "mjs"@[0] == 'm' && "mjs"@[1] == 'j' && "mjs"@[2] == 's');
    reveal_strlit("ms");
    assert("ms"@.len() == 2 && "ms"@[0] == 'm' && "ms"@[1] == 's');
}

/// Classification of a model card's entries `0 .. count`, in card order:
/// recognised `(parameter, value)` pairs, and the keys (as written) that are
/// neither recognised nor on the `unmodelled` list. Keys are compared
/// lower-cased.
pub open spec fn bjt_route<T>(params: Seq<(String, T)>, unmodelled: Seq<String>, count: nat) -> (Seq<(BjtParam, T)>, Seq<Seq<char>>)
    decreases count,
{
    if count == 0 {
        (Seq::empty(), Seq::empty())
    } else {
        let prev = bjt_route(params, unmodelled, (count - 1) as nat);
        let e = params[count - 1];
        let lk = lowercased(e.0@);
        match bjt_param_spec(lk) {
            Some(p) => (prev.0.push((p, e.1)), prev.1),
            None => if listed(unmodelled, lk) {
                prev
            } else {
                (prev.0, prev.1.push(e.0@))
            },
        }
    }
}

/// Sort a model card: the recognised parameters in card order, and the
/// unrecognised keys (as written, in card order). Keys on `unmodelled`
/// (lower-case names accepted but not modelled) are dropped silently.
pub fn route_bjt_params<T: Copy>(params: &[(String, T)], unmodelled: &[String]) -> (r: (Vec<(BjtParam, T)>, Vec<String>))
    ensures
        r.0@ == bjt_route(params@, unmodelled@, params@.len()).0,
        r.1@.len() == bjt_route(params@, unmodelled@, params@.len()).1.len(),
        forall|i: int| 0 <= i < r.1@.len() ==> (#[trigger] r.1@[i])@ == bjt_route(params@, unmodelled@, params@.len()).1[i],
{
    let mut known: Vec<(BjtParam, T)> = Vec::new();
    let mut unknown: Vec<String> = Vec::new();
    let mut q: usize = 0;
    while q < params.len()
        invariant
            q <= params@.len(),
            known@ == bjt_route(params@, unmodelled@, q as nat).0,
            unknown@.len() == bjt_route(params@, unmodelled@, q as nat).1.len(),
            forall|i: int| 0 <= i < unknown@.len() ==> (#[trigger] unknown@[i])@ == bjt_route(params@, unmodelled@, q as nat).1[i],
        decreases params@.len() - q,
    {
        let ghost prev_unknown = unknown@;
        let lk = lowercase_key(params[q].0.as_str());
        match bjt_key(&lk) {
            Some(p) => {
                known.push((p, params[q].1));
            },
            None => {
                if !is_listed(unmodelled, &lk) {
                    let k = params[q].0.clone();
                    unknown.push(k);
                    assert forall|i: int| 0 <= i < unknown@.len() implies (#[trigger] unknown@[i])@ == bjt_route(params@, unmodelled@, (q + 1) as nat).1[i] by {
                        if i < prev_unknown.len() {
                            assert(unknown@[i] == prev_unknown[i]);
                        }
                    }
                }
            },
        }
        q = q + 1;
    }
    (known, unknown)
}

/// The value a card gives parameter `p`: its last entry for `p` wins.
pub open spec fn bjt_last<T>(routed: Seq<(BjtParam, T)>, p: BjtParam) -> Option<T>
    decreases routed.len(),
{
    if routed.len() == 0 {
        None
    } else if routed.last().0 == p {
        Some(routed.last().1)
    } else {
        bjt_last(routed.drop_last(), p)
    }
}

/// The value the routed card gives `p`, if any: the last one.
pub fn bjt_card_value<T: Copy>(routed: &[(BjtParam, T)], p: BjtParam) -> (r: Option<T>)
    ensures
        r == bjt_last(routed@, p),
{
    let mut i: usize = routed.len();
    assert(routed@.take(i as int) =~= routed@);
    while i > 0
        invariant
            i <= routed@.len(),
            bjt_last(routed@, p) == bjt_last(routed@.take(i as int), p),
        decreases i,
    {
        assert(routed@.take(i as int).drop_last() =~= routed@.take(i - 1));
        if routed[i - 1].0 == p {
            return Some(routed[i - 1].1);
        }
        i = i - 1;
    }
    assert(routed@.take(0) =~= Seq::<(BjtParam, T)>::empty());
    None
}

/// The parameter entry `i` of a card sets, its key compared lower-cased.
pub open spec fn bjt_entry<T>(params: Seq<(String, T)>, i: int) -> Option<BjtParam> {
    bjt_param_spec(lowercased(params[i].0@))
}

/// Last one wins: after routing the first `count` entries of a card, a
/// parameter has no value exactly when no entry names it, and otherwise the
/// value of the last entry that names it (whatever the unmodelled list).
pub proof fn lemma_bjt_last_wins<T>(params: Seq<(String, T)>, unmodelled: Seq<String>, p: BjtParam, count: nat)
    requires
        count <= params.len(),
    ensures
        (bjt_last(bjt_route(params, unmodelled, count).0, p) is None)
            <==> (forall|i: int| 0 <= i < count ==> bjt_entry(params, i) != Some(p)),
        forall|i: int|
            0 <= i < count && bjt_entry(params, i) == Some(p)
                && (forall|j: int| i < j < count ==> bjt_entry(params, j) != Some(p))
                ==> bjt_last(bjt_route(params, unmodelled, count).0, p) == Some(params[i].1),
    decreases count,
{
    if count > 0 {
        let c1 = (count - 1) as nat;
        lemma_bjt_last_wins(params, unmodelled, p, c1);
        let prev = bjt_route(params, unmodelled, c1);
        let cur = bjt_route(params, unmodelled, count);
        let e = params[count - 1];
        if bjt_entry(params, count - 1) == Some(p) {
            assert(cur.0 == prev.0.push((p, e.1)));
            assert(bjt_last(cur.0, p) == Some(e.1));
            assert forall|i: int|
                0 <= i < count && bjt_entry(params, i) == Some(p)
                    && (forall|j: int| i < j < count ==> bjt_entry(params, j) != Some(p))
                implies bjt_last(cur.0, p) == Some(params[i].1) by {
                if i < count - 1 {
                    assert(bjt_entry(params, count - 1) != Some(p));
                }
            }
        } else {
            match bjt_param_spec(lowercased(e.0@)) {
                Some(q) => {
                    assert(cur.0 == prev.0.push((q, e.1)));
                    assert(cur.0.drop_last() =~= prev.0);
                },
                None => {
                    assert(cur.0 == prev.0);
                },
            }
            assert(bjt_last(cur.0, p) == bjt_last(prev.0, p));
        }
    }
}

/// The unrecognised list holds exactly the keys (as written) of the entries
/// that set no parameter and are not on the unmodelled list: an unmodelled
/// name never reaches it, and no unrecognised key is lost.
pub proof fn lemma_bjt_unknown_names<T>(params: Seq<(String, T)>, unmodelled: Seq<String>, count: nat)
    requires
        count <= params.len(),
    ensures
        forall|i: int| #![trigger bjt_route(params, unmodelled, count).1[i]]
            0 <= i < bjt_route(params, unmodelled, count).1.len() ==> exists|j: int|
            #![trigger params[j]]
            0 <= j < count && bjt_route(params, unmodelled, count).1[i] == params[j].0@
                && bjt_entry(params, j) is None && !listed(unmodelled, lowercased(params[j].0@)),
        forall|j: int|
            0 <= j < count && #[trigger] bjt_entry(params, j) is None && !listed(unmodelled, lowercased(params[j].0@))
                ==> bjt_route(params, unmodelled, count).1.contains(params[j].0@),
    decreases count,
{
    if count > 0 {
        let c1 = (count - 1) as nat;
        lemma_bjt_unknown_names(params, unmodelled, c1);
        let prev = bjt_route(params, unmodelled, c1);
        let cur = bjt_route(params, unmodelled, count);
        let e = params[count - 1];
        if bjt_entry(params, count - 1) is None && !listed(unmodelled, lowercased(e.0@)) {
            assert(cur.1 == prev.1.push(e.0@));
            assert forall|i: int| #![trigger cur.1[i]] 0 <= i < cur.1.len() implies exists|j: int|
                #![trigger params[j]]
                0 <= j < count && cur.1[i] == params[j].0@
                    && bjt_entry(params, j) is None && !listed(unmodelled, lowercased(params[j].0@)) by {
                if i < prev.1.len() {
                    assert(cur.1[i] == prev.1[i]);
                } else {
                    assert(cur.1[i] == params[count - 1].0@);
                    let _ = params[count - 1];
                }
            }
            assert forall|j: int|
                0 <= j < count && #[trigger] bjt_entry(params, j) is None && !listed(unmodelled, lowercased(params[j].0@))
                implies cur.1.contains(params[j].0@) by {
                if j < count - 1 {
                    let w = choose|w: int| 0 <= w < prev.1.len() && prev.1[w] == params[j].0@;
                    assert(cur.1[w] == params[j].0@);
                } else {
                    assert(cur.1[prev.1.len() as int] == params[j].0@);
                }
            }
        } else {
            assert(cur.1 == prev.1);
        }
    }
}

/// A level-1 MOSFET model-card parameter.
#[derive(Clone, Copy, PartialEq, Eq, Structural, Debug)]
pub enum Mos1Param {
    Vto,
    Kp,
    Uo,
    Is,
    Js,
    Lambda,
    Gamma,
    Phi,
    Rd,
    Rs,
    Kf,
    Af,
    Tnom,
    Cgso,
    Cgdo,
    Cgbo,
    Cox,
    Tox,
    Cj,
    Cjsw,
    Pb,
    Mj,
    Mjsw,
    Fc,
}

/// The MOSFET parameter a lower-cased card key sets, aliases included.
pub open spec fn mos1_param_spec(k: Seq<char>) -> Option<Mos1Param> {
    if k == "vto"@ || k == "vth0"@ || k == "vtho"@ {
        Some(Mos1Param::Vto)
    } else if k == "kp"@ {
        Some(Mos1Param::Kp)
    } else if k == "uo"@ || k == "u0"@ {
        Some(Mos1Param::Uo)
    } else if k == "is"@ {
        Some(Mos1Param::Is)
    } else if k == "js"@ {
        Some(Mos1Param::Js)
    } else if k == "lambda"@ {
        Some(Mos1Param::Lambda)
    } else if k == "gamma"@ {
        Some(Mos1Param::Gamma)
    } else if k == "phi"@ {
        Some(Mos1Param::Phi)
    } else if k == "rd"@ {
        Some(Mos1Param::Rd)
    } else if k == "rs"@ {
        Some(Mos1Param::Rs)
    } else if k == "kf"@ {
        Some(Mos1Param::Kf)
    } else if k == "af"@ {
        Some(Mos1Param::Af)
    } else if k == "tnom"@ {
        Some(Mos1Param::Tnom)
    } else if k == "cgso"@ {
        Some(Mos1Param::Cgso)
    } else if k == "cgdo"@ {
        Some(Mos1Param::Cgdo)
    } else if k == "cgbo"@ {
        Some(Mos1Param::Cgbo)
    } else if k == "cox"@ {
        Some(Mos1Param::Cox)
    } else if k == "tox"@ {
        Some(Mos1Param::Tox)
    } else if k == "cj"@ {
        Some(Mos1Param::Cj)
    } else if k == "cjsw"@ {
        Some(Mos1Param::Cjsw)
    } else if k == "pb"@ {
        Some(Mos1Param::Pb)
    } else if k == "mj"@ {
        Some(Mos1Param::Mj)
    } else if k == "mjsw"@ {
        Some(Mos1Param::Mjsw)
    } else if k == "fc"@ {
        Some(Mos1Param::Fc)
    } else {
        None
    }
}

/// The MOSFET parameter the lower-cased key `k` sets.
pub fn mos1_key(k: &String) -> (r: Option<Mos1Param>)
    ensures
        r == mos1_param_spec(k@),
{
    if is_key(k, "vto") || is_key(k, "vth0") || is_key(k, "vtho") {
        Some(Mos1Param::Vto)
    } else if is_key(k, "kp") {
        Some(Mos1Param::Kp)
    } else if is_key(k, "uo") || is_key(k, "u0") {
        Some(Mos1Param::Uo)
    } else if is_key(k, "is") {
        Some(Mos1Param::Is)
    } else if is_key(k, "js") {
        Some(Mos1Param::Js)
    } else if is_key(k, "lambda") {
        Some(Mos1Param::Lambda)
    } else if is_key(k, "gamma") {
        Some(Mos1Param::Gamma)
    } else if is_key(k, "phi") {
        Some(Mos1Param::Phi)
    } else if is_key(k, "rd") {
        Some(Mos1Param::Rd)
    } else if is_key(k, "rs") {
        Some(Mos1Param::Rs)
    } else if is_key(k, "kf") {
        Some(Mos1Param::Kf)
    } else if is_key(k, "af") {
        Some(Mos1Param::Af)
    } else if is_key(k, "tnom") {
        Some(Mos1Param::Tnom)
    } else if is_key(k, "cgso") {
        Some(Mos1Param::Cgso)
    } else if is_key(k, "cgdo") {
        Some(Mos1Param::Cgdo)
    } else if is_key(k, "cgbo") {
        Some(Mos1Param::Cgbo)
    } else if is_key(k, "cox") {
        Some(Mos1Param::Cox)
    } else if is_key(k, "tox") {
        Some(Mos1Param::Tox)
    } else if is_key(k, "cj") {
        Some(Mos1Param::Cj)
    } else if is_key(k, "cjsw") {
        Some(Mos1Param::Cjsw)
    } else if is_key(k, "pb") {
        Some(Mos1Param::Pb)
    } else if is_key(k, "mj") {
        Some(Mos1Param::Mj)
    } else if is_key(k, "mjsw") {
        Some(Mos1Param::Mjsw)
    } else if is_key(k, "fc") {
        Some(Mos1Param::Fc)
    } else {
        None
    }
}

/// The MOSFET parameter a card key sets, compared lower-cased.
pub fn mos1_param(key: &str) -> (r: Option<Mos1Param>)
    ensures
        r == mos1_param_spec(lowercased(key@)),
{
    let lk = lowercase_key(key);
    mos1_key(&lk)
}

/// Each level-1 MOSFET card key names the parameter it spells: the
/// threshold as `vto`, `vth0` or `vtho`, the mobility as `uo` or `u0`; no
/// other key names any of them.
#[verifier::rlimit(100)]
pub proof fn lemma_mos1_keys_name_their_parameters()
    ensures
        forall|k: Seq<char>| (#[trigger] mos1_param_spec(k) == Some(Mos1Param::Vto)) <==> (k == "vto"@ || k == "vth0"@ || k == "vtho"@),
        forall|k: Seq<char>| (#[trigger] mos1_param_spec(k) == Some(Mos1Param::Kp)) <==> (k == "kp"@),
        forall|k: Seq<char>| (#[trigger] mos1_param_spec(k) == Some(Mos1Param::Uo)) <==> (k == "uo"@ || k == "u0"@),
        forall|k: Seq<char>| (#[trigger] mos1_param_spec(k) == Some(Mos1Param::Is)) <==> (k == "is"@),
        forall|k: Seq<char>| (#[trigger] mos1_param_spec(k) == Some(Mos1Param::Js)) <==> (k == "js"@),
        forall|k: Seq<char>| (#[trigger] mos1_param_spec(k) == Some(Mos1Param::Lambda)) <==> (k == "lambda"@),
        forall|k: Seq<char>| (#[trigger] mos1_param_spec(k) == Some(Mos1Param::Gamma)) <==> (k == "gamma"@),
        forall|k: Seq<char>| (#[trigger] mos1_param_spec(k) == Some(Mos1Param::Phi)) <==> (k == "phi"@),
        forall|k: Seq<char>| (#[trigger] mos1_param_spec(k) == Some(Mos1Param::Rd)) <==> (k == "rd"@),
        forall|k: Seq<char>| (#[trigger] mos1_param_spec(k) == Some(Mos1Param::Rs)) <==> (k == "rs"@),
        forall|k: Seq<char>| (#[trigger] mos1_param_spec(k) == Some(Mos1Param::Kf)) <==> (k == "kf"@),
        forall|k: Seq<char>| (#[trigger] mos1_param_spec(k) == Some(Mos1Param::Af)) <==> (k == "af"@),
        forall|k: Seq<char>| (#[trigger] mos1_param_spec(k) == Some(Mos1Param::Tnom)) <==> (k == "tnom"@),
        forall|k: Seq<char>| (#[trigger] mos1_param_spec(k) == Some(Mos1Param::Cgso)) <==> (k == "cgso"@),
        forall|k: Seq<char>| (#[trigger] mos1_param_spec(k) == Some(Mos1Param::Cgdo)) <==> (k == "cgdo"@),
        forall|k: Seq<char>| (#[trigger] mos1_param_spec(k) == Some(Mos1Param::Cgbo)) <==> (k == "cgbo"@),
        forall|k: Seq<char>| (#[trigger] mos1_param_spec(k) == Some(Mos1Param::Cox)) <==> (k == "cox"@),
        forall|k: Seq<char>| (#[trigger] mos1_param_spec(k) == Some(Mos1Param::Tox)) <==> (k == "tox"@),
        forall|k: Seq<char>| (#[trigger] mos1_param_spec(k) == Some(Mos1Param::Cj)) <==> (k == "cj"@),
        forall|k: Seq<char>| (#[trigger] mos1_param_spec(k) == Some(Mos1Param::Cjsw)) <==> (k == "cjsw"@),
        forall|k: Seq<char>| (#[trigger] mos1_param_spec(k) == Some(Mos1Param::Pb)) <==> (k == "pb"@),
        forall|k: Seq<char>| (#[trigger] mos1_param_spec(k) == Some(Mos1Param::Mj)) <==> (k == "mj"@),
        forall|k: Seq<char>| (#[trigger] mos1_param_spec(k) == Some(Mos1Param::Mjsw)) <==> (k == "mjsw"@),
        forall|k: Seq<char>| (#[trigger] mos1_param_spec(k) == Some(Mos1Param::Fc)) <==> (k == "fc"@),
{
    reveal_strlit("vto");
    assert("vto"@.len() == 3 && "vto"@[0] == 'v' && "vto"@[1] == 't' && "vto"@[2] == 'o');
    reveal_strlit("vth0");
    assert("vth0"@.len() == 4 && "vth0"@[0] == 'v' && "vth0"@[1] == 't' && "vth0"@[2] == 'h' && "vth0"@[3] == '0');
    reveal_strlit("vtho");
    assert("vtho"@.len() == 4 && "vtho"@[0] == 'v' && "vtho"@[1] == 't' && "vtho"@[2] == 'h' && "vtho"@[3] == 'o');
    reveal_strlit("kp");
    assert("kp"@.len() == 2 && "kp"@[0] == 'k' && "kp"@[1] == 'p');
    reveal_strlit("uo");
    assert("uo"@.len() == 2 && "uo"@[0] == 'u' && "uo"@[1] == 'o');
    reveal_strlit("u0");
    assert("u0"@.len() == 2 && "u0"@[0] == 'u' && "u0"@[1] == '0');
    reveal_strlit("is");
    assert("is"@.len() == 2 && "is"@[0] == 'i' && "is"@[1] == 's');
    reveal_strlit("js");
    assert("js"@.len() == 2 && "js"@[0] == 'j' && "js"@[1] == 's');
    reveal_strlit("lambda");
    assert("lambda"@.len() == 6 && "lambda"@[0] == 'l' && "lambda"@[1] == 'a' && "lambda"@[2] == 'm' && "lambda"@[3] == 'b' && "lambda"@[4] == 'd' && "lambda"@[5] == 'a');
    reveal_strlit("gamma");
    assert("gamma"@.len() == 5 && "gamma"@[0] == 'g' && "gamma"@[1] == 'a' && "gamma"@[2] == 'm' && "gamma"@[3] == 'm' && "gamma"@[4] == 'a');
    reveal_strlit("phi");
    assert("phi"@.len() == 3 && "phi"@[0] == 'p' && "phi"@[1] == 'h' && "phi"@[2] == 'i');
    reveal_strlit("rd");
    assert("rd"@.len() == 2 && "rd"@[0] == 'r' && "rd"@[1] == 'd');
    reveal_strlit("rs");
    assert("rs"@.len() == 2 && "rs"@[0] == 'r' && "rs"@[1] == 's');
    reveal_strlit("kf");
    assert("kf"@.len() == 2 && "kf"@[0] == 'k' && "kf"@[1] == 'f');
    reveal_strlit("af");
    assert("af"@.len() == 2 && "af"@[0] == 'a' && "af"@[1] == 'f');
    reveal_strlit("tnom");
    assert("tnom"@.len() == 4 && "tnom"@[0] == 't' && "tnom"@[1] == 'n' && "tnom"@[2] == 'o' && "tnom"@[3] == 'm');
    reveal_strlit("cgso");
    assert("cgso"@.len() == 4 && "cgso"@[0] == 'c' && "cgso"@[1] == 'g' && "cgso"@[2] == 's' && "cgso"@[3] == 'o');
    reveal_strlit("cgdo");
    assert("cgdo"@.len() == 4 && "cgdo"@[0] == 'c' && "cgdo"@[1] == 'g' && "cgdo"@[2] == 'd' && "cgdo"@[3] == 'o');
    reveal_strlit("cgbo");
    assert("cgbo"@.len() == 4 && "cgbo"@[0] == 'c' && "cgbo"@[1] == 'g' && "cgbo"@[2] == 'b' && "cgbo"@[3] == 'o');
    reveal_strlit("cox");
    assert("cox"@.len() == 3 && "cox"@[0] == 'c' && "cox"@[1] == 'o' && "cox"@[2] == 'x');
    reveal_strlit("tox");
    assert("tox"@.len() == 3 && "tox"@[0] == 't' && "tox"@[1] == 'o' && "tox"@[2] == 'x');
    reveal_strlit("cj");
    assert("cj"@.len() == 2 && "cj"@[0] == 'c' && "cj"@[1] == 'j');
    reveal_strlit("cjsw");
    assert("cjsw"@.len() == 4 && "cjsw"@[0] == 'c' && "cjsw"@[1] == 'j' && "cjsw"@[2] == 's' && "cjsw"@[3] == 'w');
    reveal_strlit("pb");
    assert("pb"@.len() == 2 && "pb"@[0] == 'p' && "pb"@[1] == 'b');
    reveal_strlit("mj");
    assert("mj"@.len() == 2 && "mj"@[0] == 'm' && "mj"@[1] == 'j');
    reveal_strlit("mjsw");
    assert("mjsw"@.len() == 4 && "mjsw"@[0] == 'm' && "mjsw"@[1] == 'j' && "mjsw"@[2] == 's' && "mjsw"@[3] == 'w');
    reveal_strlit("fc");
    assert("fc"@.len() == 2 && "fc"@[0] == 'f' && "fc"@[1] == 'c');
}

/// Classification of a model card's entries `0 .. count`, in card order:
/// recognised `(parameter, value)` pairs, and the keys (as written) that are
/// neither recognised nor on the `unmodelled` list. Keys are compared
/// lower-cased.
pub open spec fn mos1_route<T>(params: Seq<(String, T)>, unmodelled: Seq<String>, count: nat) -> (Seq<(Mos1Param, T)>, Seq<Seq<char>>)
    decreases count,
{
    if count == 0 {
        (Seq::empty(), Seq::empty())
    } else {
        let prev = mos1_route(params, unmodelled, (count - 1) as nat);
        let e = params[count - 1];
        let lk = lowercased(e.0@);
        match mos1_param_spec(lk) {
            Some(p) => (prev.0.push((p, e.1)), prev.1),
            None => if listed(unmodelled, lk) {
                prev
            } else {
                (prev.0, prev.1.push(e.0@))
            },
        }
    }
}

/// Sort a model card: the recognised parameters in card order, and the
/// unrecognised keys (as written, in card order). Keys on `unmodelled`
/// (lower-case names accepted but not modelled) are dropped silently.
pub fn route_mos1_params<T: Copy>(params: &[(String, T)], unmodelled: &[String]) -> (r: (Vec<(Mos1Param, T)>, Vec<String>))
    ensures
        r.0@ == mos1_route(params@, unmodelled@, params@.len()).0,
        r.1@.len() == mos1_route(params@, unmodelled@, params@.len()).1.len(),
        forall|i: int| 0 <= i < r.1@.len() ==> (#[trigger] r.1@[i])@ == mos1_route(params@, unmodelled@, params@.len()).1[i],
{
    let mut known: Vec<(Mos1Param, T)> = Vec::new();
    let mut unknown: Vec<String> = Vec::new();
    let mut q: usize = 0;
    while q < params.len()
        invariant
            q <= params@.len(),
            known@ == mos1_route(params@, unmodelled@, q as nat).0,
            unknown@.len() == mos1_route(params@, unmodelled@, q as nat).1.len(),
            forall|i: int| 0 <= i < unknown@.len() ==> (#[trigger] unknown@[i])@ == mos1_route(params@, unmodelled@, q as nat).1[i],
        decreases params@.len() - q,
    {
        let ghost prev_unknown = unknown@;
        let lk = lowercase_key(params[q].0.as_str());
        match mos1_key(&lk) {
            Some(p) => {
                known.push((p, params[q].1));
            },
            None => {
                if !is_listed(unmodelled, &lk) {
                    let k = params[q].0.clone();
                    unknown.push(k);
                    assert forall|i: int| 0 <= i < unknown@.len() implies (#[trigger] unknown@[i])@ == mos1_route(params@, unmodelled@, (q + 1) as nat).1[i] by {
                        if i < prev_unknown.len() {
                            assert(unknown@[i] == prev_unknown[i]);
                        }
                    }
                }
            },
        }
        q = q + 1;
    }
    (known, unknown)
}

/// The value a card gives parameter `p`: its last entry for `p` wins.
pub open spec fn mos1_last<T>(routed: Seq<(Mos1Param, T)>, p: Mos1Param) -> Option<T>
    decreases routed.len(),
{
    if routed.len() == 0 {
        None
    } else if routed.last().0 == p {
        Some(routed.last().1)
    } else {
        mos1_last(routed.drop_last(), p)
    }
}

/// The value the routed card gives `p`, if any: the last one.
pub fn mos1_card_value<T: Copy>(routed: &[(Mos1Param, T)], p: Mos1Param) -> (r: Option<T>)
    ensures
        r == mos1_last(routed@, p),
{
    let mut i: usize = routed.len();
    assert(routed@.take(i as int) =~= routed@);
    while i > 0
        invariant
            i <= routed@.len(),
            mos1_last(routed@, p) == mos1_last(routed@.take(i as int), p),
        decreases i,
    {
        assert(routed@.take(i as int).drop_last() =~= routed@.take(i - 1));
        if routed[i - 1].0 == p {
            return Some(routed[i - 1].1);
        }
        i = i - 1;
    }
    assert(routed@.take(0) =~= Seq::<(Mos1Param, T)>::empty());
    None
}

/// The parameter entry `i` of a card sets, its key compared lower-cased.
pub open spec fn mos1_entry<T>(params: Seq<(String, T)>, i: int) -> Option<Mos1Param> {
    mos1_param_spec(lowercased(params[i].0@))
}

/// Last one wins: after routing the first `count` entries of a card, a
/// parameter has no value exactly when no entry names it, and otherwise the
/// value of the last entry that names it (whatever the unmodelled list).
pub proof fn lemma_mos1_last_wins<T>(params: Seq<(String, T)>, unmodelled: Seq<String>, p: Mos1Param, count: nat)
    requires
        count <= params.len(),
    ensures
        (mos1_last(mos1_route(params, unmodelled, count).0, p) is None)
            <==> (forall|i: int| 0 <= i < count ==> mos1_entry(params, i) != Some(p)),
        forall|i: int|
            0 <= i < count && mos1_entry(params, i) == Some(p)
                && (forall|j: int| i < j < count ==> mos1_entry(params, j) != Some(p))
                ==> mos1_last(mos1_route(params, unmodelled, count).0, p) == Some(params[i].1),
    decreases count,
{
    if count > 0 {
        let c1 = (count - 1) as nat;
        lemma_mos1_last_wins(params, unmodelled, p, c1);
        let prev = mos1_route(params, unmodelled, c1);
        let cur = mos1_route(params, unmodelled, count);
        let e = params[count - 1];
        if mos1_entry(params, count - 1) == Some(p) {
            assert(cur.0 == prev.0.push((p, e.1)));
            assert(mos1_last(cur.0, p) == Some(e.1));
            assert forall|i: int|
                0 <= i < count && mos1_entry(params, i) == Some(p)
                    && (forall|j: int| i < j < count ==> mos1_entry(params, j) != Some(p))
                implies mos1_last(cur.0, p) == Some(params[i].1) by {
                if i < count - 1 {
                    assert(mos1_entry(params, count - 1) != Some(p));
                }
            }
        } else {
            match mos1_param_spec(lowercased(e.0@)) {
                Some(q) => {
                    assert(cur.0 == prev.0.push((q, e.1)));
                    assert(cur.0.drop_last() =~= prev.0);
                },
                None => {
                    assert(cur.0 == prev.0);
                },
            }
            assert(mos1_last(cur.0, p) == mos1_last(prev.0, p));
        }
    }
}

/// The unrecognised list holds exactly the keys (as written) of the entries
/// that set no parameter and are not on the unmodelled list: an unmodelled
/// name never reaches it, and no unrecognised key is lost.
pub proof fn lemma_mos1_unknown_names<T>(params: Seq<(String, T)>, unmodelled: Seq<String>, count: nat)
    requires
        count <= params.len(),
    ensures
        forall|i: int| #![trigger mos1_route(params, unmodelled, count).1[i]]
            0 <= i < mos1_route(params, unmodelled, count).1.len() ==> exists|j: int|
            #![trigger params[j]]
            0 <= j < count && mos1_route(params, unmodelled, count).1[i] == params[j].0@
                && mos1_entry(params, j) is None && !listed(unmodelled, lowercased(params[j].0@)),
        forall|j: int|
            0 <= j < count && #[trigger] mos1_entry(params, j) is None && !listed(unmodelled, lowercased(params[j].0@))
                ==> mos1_route(params, unmodelled, count).1.contains(params[j].0@),
    decreases count,
{
    if count > 0 {
        let c1 = (count - 1) as nat;
        lemma_mos1_unknown_names(params, unmodelled, c1);
        let prev = mos1_route(params, unmodelled, c1);
        let cur = mos1_route(params, unmodelled, count);
        let e = params[count - 1];
        if mos1_entry(params, count - 1) is None && !listed(unmodelled, lowercased(e.0@)) {
            assert(cur.1 == prev.1.push(e.0@));
            assert forall|i: int| #![trigger cur.1[i]] 0 <= i < cur.1.len() implies exists|j: int|
                #![trigger params[j]]
                0 <= j < count && cur.1[i] == params[j].0@
                    && mos1_entry(params, j) is None && !listed(unmodelled, lowercased(params[j].0@)) by {
                if i < prev.1.len() {
                    assert(cur.1[i] == prev.1[i]);
                } else {
                    assert(cur.1[i] == params[count - 1].0@);
                    let _ = params[count - 1];
                }
            }
            assert forall|j: int|
                0 <= j < count && #[trigger] mos1_entry(params, j) is None && !listed(unmodelled, lowercased(params[j].0@))
                implies cur.1.contains(params[j].0@) by {
                if j < count - 1 {
                    let w = choose|w: int| 0 <= w < prev.1.len() && prev.1[w] == params[j].0@;
                    assert(cur.1[w] == params[j].0@);
                } else {
                    assert(cur.1[prev.1.len() as int] == params[j].0@);
                }
            }
        } else {
            assert(cur.1 == prev.1);
        }
    }
}

/// The oxide entry that decides `COX`: the last `COX` or `TOX` on the card
/// (a `TOX` sets `COX` from the oxide thickness).
pub open spec fn mos1_last_oxide<T>(routed: Seq<(Mos1Param, T)>) -> Option<(Mos1Param, T)>
    decreases routed.len(),
{
    if routed.len() == 0 {
        None
    } else if routed.last().0 == Mos1Param::Cox || routed.last().0 == Mos1Param::Tox {
        Some(routed.last())
    } else {
        mos1_last_oxide(routed.drop_last())
    }
}

pub fn mos1_oxide<T: Copy>(routed: &[(Mos1Param, T)]) -> (r: Option<(Mos1Param, T)>)
    ensures
        r == mos1_last_oxide(routed@),
{
    let mut i: usize = routed.len();
    assert(routed@.take(i as int) =~= routed@);
    while i > 0
        invariant
            i <= routed@.len(),
            mos1_last_oxide(routed@) == mos1_last_oxide(routed@.take(i as int)),
        decreases i,
    {
        assert(routed@.take(i as int).drop_last() =~= routed@.take(i - 1));
        let e = routed[i - 1];
        if e.0 == Mos1Param::Cox || e.0 == Mos1Param::Tox {
            return Some(e);
        }
        i = i - 1;
    }
    assert(routed@.take(0) =~= Seq::<(Mos1Param, T)>::empty());
    None
}

/// Whether the card gives `KP` (otherwise it is derived from `UO` and `COX`).
pub fn mos1_kp_given<T: Copy>(routed: &[(Mos1Param, T)]) -> (b: bool)
    ensures
        b == (mos1_last(routed@, Mos1Param::Kp) is Some),
{
    mos1_card_value(routed, Mos1Param::Kp).is_some()
}

/// A level-1 MOSFET instance parameter: channel geometry and drain/source diffusion areas and perimeters.
#[derive(Clone, Copy, PartialEq, Eq, Structural, Debug)]
pub enum Mos1Inst {
    W,
    L,
    As,
    Ad,
    Ps,
    Pd,
}

/// The MOSFET instance parameter a lower-cased name sets.
pub open spec fn mos1_instance_param_spec(k: Seq<char>) -> Option<Mos1Inst> {
    if k == "w"@ {
        Some(Mos1Inst::W)
    } else if k == "l"@ {
        Some(Mos1Inst::L)
    } else if k == "as"@ {
        Some(Mos1Inst::As)
    } else if k == "ad"@ {
        Some(Mos1Inst::Ad)
    } else if k == "ps"@ {
        Some(Mos1Inst::Ps)
    } else if k == "pd"@ {
        Some(Mos1Inst::Pd)
    } else {
        None
    }
}

/// The MOSFET instance parameter of the lower-cased name `k`.
pub fn mos1_instance_key(k: &String) -> (r: Option<Mos1Inst>)
    ensures
        r == mos1_instance_param_spec(k@),
{
    if is_key(k, "w") {
        Some(Mos1Inst::W)
    } else if is_key(k, "l") {
        Some(Mos1Inst::L)
    } else if is_key(k, "as") {
        Some(Mos1Inst::As)
    } else if is_key(k, "ad") {
        Some(Mos1Inst::Ad)
    } else if is_key(k, "ps") {
        Some(Mos1Inst::Ps)
    } else if is_key(k, "pd") {
        Some(Mos1Inst::Pd)
    } else {
        None
    }
}


/// The MOSFET instance parameter `name` sets, compared lower-cased.
pub fn mos1_instance_param(name: &str) -> (r: Option<Mos1Inst>)
    ensures
        r == mos1_instance_param_spec(lowercased(name@)),
{
    let lk = lowercase_key(name);
    mos1_instance_key(&lk)
}

/// Classification of a MOSFET instance's parameters `0 .. count`, in card order:
/// recognised `(parameter, value)` pairs, and the keys (as written) that are
/// not recognised. Keys are compared
/// lower-cased.
pub open spec fn mos1_instance_route<T>(params: Seq<(String, T)>, count: nat) -> (Seq<(Mos1Inst, T)>, Seq<Seq<char>>)
    decreases count,
{
    if count == 0 {
        (Seq::empty(), Seq::empty())
    } else {
        let prev = mos1_instance_route(params, (count - 1) as nat);
        let e = params[count - 1];
        let lk = lowercased(e.0@);
        match mos1_instance_param_spec(lk) {
            Some(p) => (prev.0.push((p, e.1)), prev.1),
            None => (prev.0, prev.1.push(e.0@)),
        }
    }
}

/// Sort a MOSFET instance's parameters: the recognised geometry in order
/// given, and the unrecognised names (as written, in order given).
pub fn route_mos1_instance_params<T: Copy>(params: &[(String, T)]) -> (r: (Vec<(Mos1Inst, T)>, Vec<String>))
    ensures
        r.0@ == mos1_instance_route(params@, params@.len()).0,
        r.1@.len() == mos1_instance_route(params@, params@.len()).1.len(),
        forall|i: int| 0 <= i < r.1@.len() ==> (#[trigger] r.1@[i])@ == mos1_instance_route(params@, params@.len()).1[i],
{
    let mut known: Vec<(Mos1Inst, T)> = Vec::new();
    let mut unknown: Vec<String> = Vec::new();
    let mut q: usize = 0;
    while q < params.len()
        invariant
            q <= params@.len(),
            known@ == mos1_instance_route(params@, q as nat).0,
            unknown@.len() == mos1_instance_route(params@, q as nat).1.len(),
            forall|i: int| 0 <= i < unknown@.len() ==> (#[trigger] unknown@[i])@ == mos1_instance_route(params@, q as nat).1[i],
        decreases params@.len() - q,
    {
        let ghost prev_unknown = unknown@;
        let lk = lowercase_key(params[q].0.as_str());
        match mos1_instance_key(&lk) {
            Some(p) => {
                known.push((p, params[q].1));
            },
            None => {
                let k = params[q].0.clone();
                unknown.push(k);
                assert forall|i: int| 0 <= i < unknown@.len() implies (#[trigger] unknown@[i])@ == mos1_instance_route(params@, (q + 1) as nat).1[i] by {
                    if i < prev_unknown.len() {
                        assert(unknown@[i] == prev_unknown[i]);
                    }
                }
            },
        }
        q = q + 1;
    }
    (known, unknown)
}

/// The value an instance gives parameter `p`: its last entry for `p` wins.
pub open spec fn mos1_instance_last<T>(routed: Seq<(Mos1Inst, T)>, p: Mos1Inst) -> Option<T>
    decreases routed.len(),
{
    if routed.len() == 0 {
        None
    } else if routed.last().0 == p {
        Some(routed.last().1)
    } else {
        mos1_instance_last(routed.drop_last(), p)
    }
}

/// The value the routed instance parameters give `p`, if any: the last one.
pub fn mos1_instance_value<T: Copy>(routed: &[(Mos1Inst, T)], p: Mos1Inst) -> (r: Option<T>)
    ensures
        r == mos1_instance_last(routed@, p),
{
    let mut i: usize = routed.len();
    assert(routed@.take(i as int) =~= routed@);
    while i > 0
        invariant
            i <= routed@.len(),
            mos1_instance_last(routed@, p) == mos1_instance_last(routed@.take(i as int), p),
        decreases i,
    {
        assert(routed@.take(i as int).drop_last() =~= routed@.take(i - 1));
        if routed[i - 1].0 == p {
            return Some(routed[i - 1].1);
        }
        i = i - 1;
    }
    assert(routed@.take(0) =~= Seq::<(Mos1Inst, T)>::empty());
    None
}

/// A junction-diode model-card parameter.
#[derive(Clone, Copy, PartialEq, Eq, Structural, Debug)]
pub enum DiodeParam {
    Is,
    N,
    Rs,
    Cjo,
    Vj,
    Mj,
    Fc,
    Tt,
    Kf,
    Af,
    Tnom,
    Eg,
    Xti,
    Bv,
    Ibv,
}

/// The diode parameter a card key sets, aliases included; keys are matched as written.
pub open spec fn diode_param_spec(k: Seq<char>) -> Option<DiodeParam> {
    if k == "is"@ {
        Some(DiodeParam::Is)
    } else if k == "n"@ {
        Some(DiodeParam::N)
    } else if k == "rs"@ {
        Some(DiodeParam::Rs)
    } else if k == "cjo"@ || k == "cj0"@ {
        Some(DiodeParam::Cjo)
    } else if k == "vj"@ {
        Some(DiodeParam::Vj)
    } else if k == "m"@ || k == "mj"@ {
        Some(DiodeParam::Mj)
    } else if k == "fc"@ {
        Some(DiodeParam::Fc)
    } else if k == "tt"@ {
        Some(DiodeParam::Tt)
    } else if k == "kf"@ {
        Some(DiodeParam::Kf)
    } else if k == "af"@ {
        Some(DiodeParam::Af)
    } else if k == "tnom"@ {
        Some(DiodeParam::Tnom)
    } else if k == "eg"@ {
        Some(DiodeParam::Eg)
    } else if k == "xti"@ {
        Some(DiodeParam::Xti)
    } else if k == "bv"@ {
        Some(DiodeParam::Bv)
    } else if k == "ibv"@ {
        Some(DiodeParam::Ibv)
    } else {
        None
    }
}

/// The diode parameter of the card key `k`.
pub fn diode_key(k: &String) -> (r: Option<DiodeParam>)
    ensures
        r == diode_param_spec(k@),
{
    if is_key(k, "is") {
        Some(DiodeParam::Is)
    } else if is_key(k, "n") {
        Some(DiodeParam::N)
    } else if is_key(k, "rs") {
        Some(DiodeParam::Rs)
    } else if is_key(k, "cjo") || is_key(k, "cj0") {
        Some(DiodeParam::Cjo)
    } else if is_key(k, "vj") {
        Some(DiodeParam::Vj)
    } else if is_key(k, "m") || is_key(k, "mj") {
        Some(DiodeParam::Mj)
    } else if is_key(k, "fc") {
        Some(DiodeParam::Fc)
    } else if is_key(k, "tt") {
        Some(DiodeParam::Tt)
    } else if is_key(k, "kf") {
        Some(DiodeParam::Kf)
    } else if is_key(k, "af") {
        Some(DiodeParam::Af)
    } else if is_key(k, "tnom") {
        Some(DiodeParam::Tnom)
    } else if is_key(k, "eg") {
        Some(DiodeParam::Eg)
    } else if is_key(k, "xti") {
        Some(DiodeParam::Xti)
    } else if is_key(k, "bv") {
        Some(DiodeParam::Bv)
    } else if is_key(k, "ibv") {
        Some(DiodeParam::Ibv)
    } else {
        None
    }
}


/// The diode parameter a card key sets; keys are matched as written.
pub fn diode_param(key: &str) -> (r: Option<DiodeParam>)
    ensures
        r == diode_param_spec(key@),
{
    let k = String::from_str(key);
    diode_key(&k)
}

/// Each diode card key names the parameter it spells: the zero-bias
/// junction capacitance as `cjo` or `cj0`, the grading coefficient as `m` or
/// `mj`; no other key names any of them.
#[verifier::rlimit(100)]
pub proof fn lemma_diode_keys_name_their_parameters()
    ensures
        forall|k: Seq<char>| (#[trigger] diode_param_spec(k) == Some(DiodeParam::Is)) <==> (k == "is"@),
        forall|k: Seq<char>| (#[trigger] diode_param_spec(k) == Some(DiodeParam::N)) <==> (k == "n"@),
        forall|k: Seq<char>| (#[trigger] diode_param_spec(k) == Some(DiodeParam::Rs)) <==> (k == "rs"@),
        forall|k: Seq<char>| (#[trigger] diode_param_spec(k) == Some(DiodeParam::Cjo)) <==> (k == "cjo"@ || k == "cj0"@),
        forall|k: Seq<char>| (#[trigger] diode_param_spec(k) == Some(DiodeParam::Vj)) <==> (k == "vj"@),
        forall|k: Seq<char>| (#[trigger] diode_param_spec(k) == Some(DiodeParam::Mj)) <==> (k == "m"@ || k == "mj"@),
        forall|k: Seq<char>| (#[trigger] diode_param_spec(k) == Some(DiodeParam::Fc)) <==> (k == "fc"@),
        forall|k: Seq<char>| (#[trigger] diode_param_spec(k) == Some(DiodeParam::Tt)) <==> (k == "tt"@),
        forall|k: Seq<char>| (#[trigger] diode_param_spec(k) == Some(DiodeParam::Kf)) <==> (k == "kf"@),
        forall|k: Seq<char>| (#[trigger] diode_param_spec(k) == Some(DiodeParam::Af)) <==> (k == "af"@),
        forall|k: Seq<char>| (#[trigger] diode_param_spec(k) == Some(DiodeParam::Tnom)) <==> (k == "tnom"@),
        forall|k: Seq<char>| (#[trigger] diode_param_spec(k) == Some(DiodeParam::Eg)) <==> (k == "eg"@),
        forall|k: Seq<char>| (#[trigger] diode_param_spec(k) == Some(DiodeParam::Xti)) <==> (k == "xti"@),
        forall|k: Seq<char>| (#[trigger] diode_param_spec(k) == Some(DiodeParam::Bv)) <==> (k == "bv"@),
        forall|k: Seq<char>| (#[trigger] diode_param_spec(k) == Some(DiodeParam::Ibv)) <==> (k == "ibv"@),
{
    reveal_strlit("is");
    assert("is"@.len() == 2 && "is"@[0] == 'i' && "is"@[1] == 's');
    reveal_strlit("n");
    assert("n"@.len() == 1 && "n"@[0] == 'n');
    reveal_strlit("rs");
    assert("rs"@.len() == 2 && "rs"@[0] == 'r' && "rs"@[1] == 's');
    reveal_strlit("cjo");
    assert("cjo"@.len() == 3 && "cjo"@[0] == 'c' && "cjo"@[1] == 'j' && "cjo"@[2] == 'o');
    reveal_strlit("cj0");
    assert("cj0"@.len() == 3 && "cj0"@[0] == 'c' && "cj0"@[1] == 'j' && "cj0"@[2] == '0');
    reveal_strlit("vj");
    assert("vj"@.len() == 2 && "vj"@[0] == 'v' && "vj"@[1] == 'j');
    reveal_strlit("m");
    assert("m"@.len() == 1 && "m"@[0] == 'm');
    reveal_strlit("mj");
    assert("mj"@.len() == 2 && "mj"@[0] == 'm' && "mj"@[1] == 'j');
    reveal_strlit("fc");
    assert("fc"@.len() == 2 && "fc"@[0] == 'f' && "fc"@[1] == 'c');
    reveal_strlit("tt");
    assert("tt"@.len() == 2 && "tt"@[0] == 't' && "tt"@[1] == 't');
    reveal_strlit("kf");
    assert("kf"@.len() == 2 && "kf"@[0] == 'k' && "kf"@[1] == 'f');
    reveal_strlit("af");
    assert("af"@.len() == 2 && "af"@[0] == 'a' && "af"@[1] == 'f');
    reveal_strlit("tnom");
    assert("tnom"@.len() == 4 && "tnom"@[0] == 't' && "tnom"@[1] == 'n' && "tnom"@[2] == 'o' && "tnom"@[3] == 'm');
    reveal_strlit("eg");
    assert("eg"@.len() == 2 && "eg"@[0] == 'e' && "eg"@[1] == 'g');
    reveal_strlit("xti");
    assert("xti"@.len() == 3 && "xti"@[0] == 'x' && "xti"@[1] == 't' && "xti"@[2] == 'i');
    reveal_strlit("bv");
    assert("bv"@.len() == 2 && "bv"@[0] == 'b' && "bv"@[1] == 'v');
    reveal_strlit("ibv");
    assert("ibv"@.len() == 3 && "ibv"@[0] == 'i' && "ibv"@[1] == 'b' && "ibv"@[2] == 'v');
}

/// Classification of a diode model card's entries `0 .. count`, in card order:
/// recognised `(parameter, value)` pairs, and the keys (as written) that are
/// neither recognised nor on the `unmodelled` list. Keys are compared
/// as written.
pub open spec fn diode_route<T>(params: Seq<(String, T)>, unmodelled: Seq<String>, count: nat) -> (Seq<(DiodeParam, T)>, Seq<Seq<char>>)
    decreases count,
{
    if count == 0 {
        (Seq::empty(), Seq::empty())
    } else {
        let prev = diode_route(params, unmodelled, (count - 1) as nat);
        let e = params[count - 1];
        let lk = e.0@;
        match diode_param_spec(lk) {
            Some(p) => (prev.0.push((p, e.1)), prev.1),
            None => if listed(unmodelled, lk) {
                prev
            } else {
                (prev.0, prev.1.push(e.0@))
            },
        }
    }
}

/// Sort a diode model card: the recognised parameters in card order, and the
/// unrecognised keys (as written, in card order). Keys on `unmodelled`
/// (names accepted but not modelled) are dropped silently.
pub fn route_diode_params<T: Copy>(params: &[(String, T)], unmodelled: &[String]) -> (r: (Vec<(DiodeParam, T)>, Vec<String>))
    ensures
        r.0@ == diode_route(params@, unmodelled@, params@.len()).0,
        r.1@.len() == diode_route(params@, unmodelled@, params@.len()).1.len(),
        forall|i: int| 0 <= i < r.1@.len() ==> (#[trigger] r.1@[i])@ == diode_route(params@, unmodelled@, params@.len()).1[i],
{
    let mut known: Vec<(DiodeParam, T)> = Vec::new();
    let mut unknown: Vec<String> = Vec::new();
    let mut q: usize = 0;
    while q < params.len()
        invariant
            q <= params@.len(),
            known@ == diode_route(params@, unmodelled@, q as nat).0,
            unknown@.len() == diode_route(params@, unmodelled@, q as nat).1.len(),
            forall|i: int| 0 <= i < unknown@.len() ==> (#[trigger] unknown@[i])@ == diode_route(params@, unmodelled@, q as nat).1[i],
        decreases params@.len() - q,
    {
        let ghost prev_unknown = unknown@;
        let lk = params[q].0.clone();
        match diode_key(&lk) {
            Some(p) => {
                known.push((p, params[q].1));
            },
            None => {
                if !is_listed(unmodelled, &lk) {
                    let k = params[q].0.clone();
                    unknown.push(k);
                    assert forall|i: int| 0 <= i < unknown@.len() implies (#[trigger] unknown@[i])@ == diode_route(params@, unmodelled@, (q + 1) as nat).1[i] by {
                        if i < prev_unknown.len() {
                            assert(unknown@[i] == prev_unknown[i]);
                        }
                    }
                }
            },
        }
        q = q + 1;
    }
    (known, unknown)
}

/// The value a card gives parameter `p`: its last entry for `p` wins.
pub open spec fn diode_last<T>(routed: Seq<(DiodeParam, T)>, p: DiodeParam) -> Option<T>
    decreases routed.len(),
{
    if routed.len() == 0 {
        None
    } else if routed.last().0 == p {
        Some(routed.last().1)
    } else {
        diode_last(routed.drop_last(), p)
    }
}

/// The value the routed card gives `p`, if any: the last one.
pub fn diode_card_value<T: Copy>(routed: &[(DiodeParam, T)], p: DiodeParam) -> (r: Option<T>)
    ensures
        r == diode_last(routed@, p),
{
    let mut i: usize = routed.len();
    assert(routed@.take(i as int) =~= routed@);
    while i > 0
        invariant
            i <= routed@.len(),
            diode_last(routed@, p) == diode_last(routed@.take(i as int), p),
        decreases i,
    {
        assert(routed@.take(i as int).drop_last() =~= routed@.take(i - 1));
        if routed[i - 1].0 == p {
            return Some(routed[i - 1].1);
        }
        i = i - 1;
    }
    assert(routed@.take(0) =~= Seq::<(DiodeParam, T)>::empty());
    None
}

/// The parameter entry `i` of a card sets, its key as written.
pub open spec fn diode_entry<T>(params: Seq<(String, T)>, i: int) -> Option<DiodeParam> {
    diode_param_spec(params[i].0@)
}

/// Last one wins: after routing the first `count` entries of a card, a
/// parameter has no value exactly when no entry names it, and otherwise the
/// value of the last entry that names it (whatever the unmodelled list).
pub proof fn lemma_diode_last_wins<T>(params: Seq<(String, T)>, unmodelled: Seq<String>, p: DiodeParam, count: nat)
    requires
        count <= params.len(),
    ensures
        (diode_last(diode_route(params, unmodelled, count).0, p) is None)
            <==> (forall|i: int| 0 <= i < count ==> diode_entry(params, i) != Some(p)),
        forall|i: int|
            0 <= i < count && diode_entry(params, i) == Some(p)
                && (forall|j: int| i < j < count ==> diode_entry(params, j) != Some(p))
                ==> diode_last(diode_route(params, unmodelled, count).0, p) == Some(params[i].1),
    decreases count,
{
    if count > 0 {
        let c1 = (count - 1) as nat;
        lemma_diode_last_wins(params, unmodelled, p, c1);
        let prev = diode_route(params, unmodelled, c1);
        let cur = diode_route(params, unmodelled, count);
        let e = params[count - 1];
        if diode_entry(params, count - 1) == Some(p) {
            assert(cur.0 == prev.0.push((p, e.1)));
            assert(diode_last(cur.0, p) == Some(e.1));
            assert forall|i: int|
                0 <= i < count && diode_entry(params, i) == Some(p)
                    && (forall|j: int| i < j < count ==> diode_entry(params, j) != Some(p))
                implies diode_last(cur.0, p) == Some(params[i].1) by {
                if i < count - 1 {
                    assert(diode_entry(params, count - 1) != Some(p));
                }
            }
        } else {
            match diode_param_spec(e.0@) {
                Some(q) => {
                    assert(cur.0 == prev.0.push((q, e.1)));
                    assert(cur.0.drop_last() =~= prev.0);
                },
                None => {
                    assert(cur.0 == prev.0);
                },
            }
            assert(diode_last(cur.0, p) == diode_last(prev.0, p));
        }
    }
}

/// The unrecognised list holds exactly the keys (as written) of the entries
/// that set no parameter and are not on the unmodelled list: an unmodelled
/// name never reaches it, and no unrecognised key is lost.
pub proof fn lemma_diode_unknown_names<T>(params: Seq<(String, T)>, unmodelled: Seq<String>, count: nat)
    requires
        count <= params.len(),
    ensures
        forall|i: int| #![trigger diode_route(params, unmodelled, count).1[i]]
            0 <= i < diode_route(params, unmodelled, count).1.len() ==> exists|j: int|
            #![trigger params[j]]
            0 <= j < count && diode_route(params, unmodelled, count).1[i] == params[j].0@
                && diode_entry(params, j) is None && !listed(unmodelled, params[j].0@),
        forall|j: int|
            0 <= j < count && #[trigger] diode_entry(params, j) is None && !listed(unmodelled, params[j].0@)
                ==> diode_route(params, unmodelled, count).1.contains(params[j].0@),
    decreases count,
{
    if count > 0 {
        let c1 = (count - 1) as nat;
        lemma_diode_unknown_names(params, unmodelled, c1);
        let prev = diode_route(params, unmodelled, c1);
        let cur = diode_route(params, unmodelled, count);
        let e = params[count - 1];
        if diode_entry(params, count - 1) is None && !listed(unmodelled, e.0@) {
            assert(cur.1 == prev.1.push(e.0@));
            assert forall|i: int| #![trigger cur.1[i]] 0 <= i < cur.1.len() implies exists|j: int|
                #![trigger params[j]]
                0 <= j < count && cur.1[i] == params[j].0@
                    && diode_entry(params, j) is None && !listed(unmodelled, params[j].0@) by {
                if i < prev.1.len() {
                    assert(cur.1[i] == prev.1[i]);
                } else {
                    assert(cur.1[i] == params[count - 1].0@);
                    let _ = params[count - 1];
                }
            }
            assert forall|j: int|
                0 <= j < count && #[trigger] diode_entry(params, j) is None && !listed(unmodelled, params[j].0@)
                implies cur.1.contains(params[j].0@) by {
                if j < count - 1 {
                    let w = choose|w: int| 0 <= w < prev.1.len() && prev.1[w] == params[j].0@;
                    assert(cur.1[w] == params[j].0@);
                } else {
                    assert(cur.1[prev.1.len() as int] == params[j].0@);
                }
            }
        } else {
            assert(cur.1 == prev.1);
        }
    }
}

/// Whether an instance parameter name is `AREA`, compared lower-cased: the
/// one instance parameter the BJT and the diode take.
pub fn is_area_key(name: &str) -> (b: bool)
    ensures
        b == (lowercased(name@) == "area"@),
{
    let lk = lowercase_key(name);
    is_key(&lk, "area")
}

/// Each MOSFET instance name names the geometry it spells: `w`, `l` the
/// channel, `as`, `ad` the diffusion areas, `ps`, `pd` their perimeters.
#[verifier::rlimit(100)]
pub proof fn lemma_mos1_instance_names_their_parameters()
    ensures
        forall|k: Seq<char>| (#[trigger] mos1_instance_param_spec(k) == Some(Mos1Inst::W)) <==> (k == "w"@),
        forall|k: Seq<char>| (#[trigger] mos1_instance_param_spec(k) == Some(Mos1Inst::L)) <==> (k == "l"@),
        forall|k: Seq<char>| (#[trigger] mos1_instance_param_spec(k) == Some(Mos1Inst::As)) <==> (k == "as"@),
        forall|k: Seq<char>| (#[trigger] mos1_instance_param_spec(k) == Some(Mos1Inst::Ad)) <==> (k == "ad"@),
        forall|k: Seq<char>| (#[trigger] mos1_instance_param_spec(k) == Some(Mos1Inst::Ps)) <==> (k == "ps"@),
        forall|k: Seq<char>| (#[trigger] mos1_instance_param_spec(k) == Some(Mos1Inst::Pd)) <==> (k == "pd"@),
{
    reveal_strlit("w");
    assert("w"@.len() == 1 && "w"@[0] == 'w');
    reveal_strlit("l");
    assert("l"@.len() == 1 && "l"@[0] == 'l');
    reveal_strlit("as");
    assert("as"@.len() == 2 && "as"@[0] == 'a' && "as"@[1] == 's');
    reveal_strlit("ad");
    assert("ad"@.len() == 2 && "ad"@[0] == 'a' && "ad"@[1] == 'd');
    reveal_strlit("ps");
    assert("ps"@.len() == 2 && "ps"@[0] == 'p' && "ps"@[1] == 's');
    reveal_strlit("pd");
    assert("pd"@.len() == 2 && "pd"@[0] == 'p' && "pd"@[1] == 'd');
}
} // verus!
