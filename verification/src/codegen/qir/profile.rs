//! QIR profiles (base, adaptive, full) and target capabilities.

use vstd::prelude::*;
use crate::text::{
    contains_seq, lowercase, names_contains, names_insert, names_remove, names_set, str_contains,
    str_eq, to_lowercase,
};

verus! {

/// QIR profile kind.
#[derive(Debug, Clone, Copy, PartialEq, Eq, Structural, Hash)]
pub enum QirProfileKind {
    /// Static quantum circuits.
    Base,
    /// Dynamic circuits with measurement-based control flow.
    Adaptive,
    /// All features.
    Full,
}

/// The name of a profile kind.
pub open spec fn kind_name(k: QirProfileKind) -> Seq<char> {
    match k {
        QirProfileKind::Base => "base"@,
        QirProfileKind::Adaptive => "adaptive"@,
        QirProfileKind::Full => "full"@,
    }
}

/// The kind named by an already lowercased name.
pub open spec fn kind_of_name(s: Seq<char>) -> Option<QirProfileKind> {
    if s == "base"@ {
        Some(QirProfileKind::Base)
    } else if s == "adaptive"@ {
        Some(QirProfileKind::Adaptive)
    } else if s == "full"@ {
        Some(QirProfileKind::Full)
    } else {
        None
    }
}

impl QirProfileKind {
    /// The profile's name.
    pub fn as_str(&self) -> (r: &'static str)
        ensures
            r@ == kind_name(*self),
    {
        match self {
            QirProfileKind::Base => "base",
            QirProfileKind::Adaptive => "adaptive",
            QirProfileKind::Full => "full",
        }
    }

    /// Parses a profile name, ignoring case.
    pub fn from_str(s: &str) -> (r: Option<Self>)
        ensures
            r == kind_of_name(lowercase(s@)),
    {
        let lower = to_lowercase(s);
        Self::from_lowercase(lower.as_str())
    }

    /// Parses a lowercase profile name.
    pub fn from_lowercase(s: &str) -> (r: Option<Self>)
        ensures
            r == kind_of_name(s@),
    {
        if str_eq(s, "base") {
            Some(QirProfileKind::Base)
        } else if str_eq(s, "adaptive") {
            Some(QirProfileKind::Adaptive)
        } else if str_eq(s, "full") {
            Some(QirProfileKind::Full)
        } else {
            None
        }
    }
}

/// QIR profile configuration.
#[derive(Debug)]
pub struct QirProfile {
    kind: QirProfileKind,
    /// Enabled intrinsics.
    enabled_intrinsics: Vec<String>,
    allows_dynamic_control_flow: bool,
    allows_classical_computation: bool,
    allows_qubit_reuse: bool,
    /// Maximum qubit count (`None`: unlimited).
    max_qubits: Option<u32>,
}

/// A profile as values.
pub struct ProfileModel {
    pub kind: QirProfileKind,
    pub enabled: Set<Seq<char>>,
    pub dynamic_control_flow: bool,
    pub classical_computation: bool,
    pub qubit_reuse: bool,
    pub max_qubits: Option<u32>,
}

impl View for QirProfile {
    type V = ProfileModel;

    closed spec fn view(&self) -> ProfileModel {
        ProfileModel {
            kind: self.kind,
            enabled: names_set(self.enabled_intrinsics@),
            dynamic_control_flow: self.allows_dynamic_control_flow,
            classical_computation: self.allows_classical_computation,
            qubit_reuse: self.allows_qubit_reuse,
            max_qubits: self.max_qubits,
        }
    }
}

/// Intrinsics of the base profile.
pub open spec fn base_intrinsics() -> Set<Seq<char>> {
    set![
        "qir.qubit_alloc"@, "qir.qubit_release"@, "qir.qubit_alloc_array"@, "qir.qubit_release_array"@,
        "qir.h"@, "qir.x"@, "qir.y"@, "qir.z"@, "qir.s"@, "qir.t"@,
        "qir.rx"@, "qir.ry"@, "qir.rz"@, "qir.r1"@, "qir.rt1"@,
        "qir.cx"@, "qir.cy"@, "qir.cz"@, "qir.swap"@, "qir.iswap"@,
        "qir.ccx"@,
        "qir.mz"@, "qir.mx"@, "qir.my"@, "qir.measure"@,
        "qir.result_record"@, "qir.result_update"@, "qir.result_get"@, "qir.result_equal"@,
        "qir.array_record"@, "qir.array_update"@,
        "qir.adjoint"@, "qir.controlled"@
    ]
}

/// Intrinsics the adaptive profile adds.
pub open spec fn adaptive_intrinsics() -> Set<Seq<char>> {
    set!["qir.if"@, "qir.while"@, "qir.qubit_reset"@]
}

/// Intrinsics the full profile adds.
pub open spec fn full_intrinsics() -> Set<Seq<char>> {
    set!["qir.profiler_record"@, "qir.qubit_reset"@, "qir.dump_machine"@]
}

/// The default configuration of each profile kind.
pub open spec fn default_profile(kind: QirProfileKind) -> ProfileModel {
    match kind {
        QirProfileKind::Base => ProfileModel {
            kind,
            enabled: base_intrinsics(),
            dynamic_control_flow: false,
            classical_computation: true,
            qubit_reuse: false,
            max_qubits: None,
        },
        QirProfileKind::Adaptive => ProfileModel {
            kind,
            enabled: base_intrinsics() + adaptive_intrinsics(),
            dynamic_control_flow: true,
            classical_computation: true,
            qubit_reuse: true,
            max_qubits: None,
        },
        QirProfileKind::Full => ProfileModel {
            kind,
            enabled: base_intrinsics() + adaptive_intrinsics() + full_intrinsics(),
            dynamic_control_flow: true,
            classical_computation: true,
            qubit_reuse: true,
            max_qubits: None,
        },
    }
}

/// The messages of `validate_module` for a module text.
pub open spec fn profile_errors(p: ProfileModel, ir: Seq<char>) -> Seq<Seq<char>> {
    let flow: Seq<Seq<char>> = if !p.dynamic_control_flow && (contains_seq(ir, "qir.if"@) || contains_seq(ir, "qir.while"@)) {
        seq!["Dynamic control flow (qir.if/qir.while) not allowed in base profile"@]
    } else {
        Seq::empty()
    };
    let reuse: Seq<Seq<char>> = if !p.qubit_reuse && contains_seq(ir, "qir.qubit_reset"@) {
        seq!["Qubit reuse (qir.qubit_reset) not allowed in base profile"@]
    } else {
        Seq::empty()
    };
    flow + reuse
}

/// A module is rejected exactly when it uses dynamic control flow that the
/// profile does not allow, or resets qubits that the profile does not let
/// be reused.
pub proof fn lemma_profile_rejects(p: ProfileModel, ir: Seq<char>)
    ensures
        profile_errors(p, ir).len() > 0 <==> (!p.dynamic_control_flow && (contains_seq(ir, "qir.if"@) || contains_seq(
            ir,
            "qir.while"@,
        ))) || (!p.qubit_reuse && contains_seq(ir, "qir.qubit_reset"@)),
{
}

/// A list of strings as values.
pub open spec fn texts(v: Seq<String>) -> Seq<Seq<char>> {
    v.map_values(|s: String| s@)
}

fn insert_all(v: &mut Vec<String>, names: &[&str])
    ensures
        names_set(final(v)@) == names_set(old(v)@) + Set::new(|x: Seq<char>| exists|i: int| 0 <= i < names@.len() && (#[trigger] names@[i])@ == x),
{
    let ghost start = names_set(v@);
    let mut i: usize = 0;
    while i < names.len()
        invariant
            i <= names@.len(),
            names_set(v@) == start + Set::new(|x: Seq<char>| exists|j: int| 0 <= j < i && (#[trigger] names@[j])@ == x),
        decreases names@.len() - i,
    {
        let ghost before = names_set(v@);
        names_insert(v, names[i]);
        proof {
            assert forall|x: Seq<char>| names_set(v@).contains(x) <==> (start + Set::new(|x: Seq<char>| exists|j: int| 0 <= j < i + 1 && (#[trigger] names@[j])@ == x)).contains(x) by {
                if x == names@[i as int]@ {
                } else if exists|j: int| 0 <= j < i + 1 && (#[trigger] names@[j])@ == x {
                    let j = choose|j: int| 0 <= j < i + 1 && (#[trigger] names@[j])@ == x;
                    assert(j < i);
                }
            }
            assert(names_set(v@) =~= start + Set::new(|x: Seq<char>| exists|j: int| 0 <= j < i + 1 && (#[trigger] names@[j])@ == x));
        }
        i = i + 1;
    }
}

impl QirProfile {
    /// A profile with the defaults of its kind.
    pub fn new(kind: QirProfileKind) -> (r: Self)
        ensures
            r@ == default_profile(kind),
    {
        let mut profile = QirProfile {
            kind,
            enabled_intrinsics: Vec::new(),
            allows_dynamic_control_flow: false,
            allows_classical_computation: false,
            allows_qubit_reuse: false,
            max_qubits: None,
        };
        assert(names_set(profile.enabled_intrinsics@) =~= Set::<Seq<char>>::empty());
        profile.configure_defaults();
        profile
    }

    fn configure_defaults(&mut self)
        requires
            names_set(old(self).enabled_intrinsics@) == Set::<Seq<char>>::empty(),
        ensures
            final(self)@ == default_profile(old(self).kind),
    {
        match self.kind {
            QirProfileKind::Base => {
                self.allows_dynamic_control_flow = false;
                self.allows_classical_computation = true;
                self.allows_qubit_reuse = false;
                self.max_qubits = None;
                self.enable_base_intrinsics();
                assert(names_set(self.enabled_intrinsics@) =~= base_intrinsics());
            },
            QirProfileKind::Adaptive => {
                self.allows_dynamic_control_flow = true;
                self.allows_classical_computation = true;
                self.allows_qubit_reuse = true;
                self.max_qubits = None;
                self.enable_base_intrinsics();
                self.enable_adaptive_intrinsics();
                assert(names_set(self.enabled_intrinsics@) =~= base_intrinsics() + adaptive_intrinsics());
            },
            QirProfileKind::Full => {
                self.allows_dynamic_control_flow = true;
                self.allows_classical_computation = true;
                self.allows_qubit_reuse = true;
                self.max_qubits = None;
                self.enable_base_intrinsics();
                self.enable_adaptive_intrinsics();
                self.enable_full_intrinsics();
                assert(names_set(self.enabled_intrinsics@) =~= base_intrinsics() + adaptive_intrinsics() + full_intrinsics());
            },
        }
    }

    fn enable_base_intrinsics(&mut self)
        ensures
            names_set(final(self).enabled_intrinsics@) == names_set(old(self).enabled_intrinsics@) + base_intrinsics(),
            final(self).kind == old(self).kind,
            final(self).allows_dynamic_control_flow == old(self).allows_dynamic_control_flow,
            final(self).allows_classical_computation == old(self).allows_classical_computation,
            final(self).allows_qubit_reuse == old(self).allows_qubit_reuse,
            final(self).max_qubits == old(self).max_qubits,
    {
        let names: [&str; 33] = [
            "qir.qubit_alloc", "qir.qubit_release", "qir.qubit_alloc_array", "qir.qubit_release_array",
            "qir.h", "qir.x", "qir.y", "qir.z", "qir.s", "qir.t",
            "qir.rx", "qir.ry", "qir.rz", "qir.r1", "qir.rt1",
            "qir.cx", "qir.cy", "qir.cz", "qir.swap", "qir.iswap",
            "qir.ccx",
            "qir.mz", "qir.mx", "qir.my", "qir.measure",
            "qir.result_record", "qir.result_update", "qir.result_get", "qir.result_equal",
            "qir.array_record", "qir.array_update",
            "qir.adjoint", "qir.controlled",
        ];
        insert_all(&mut self.enabled_intrinsics, &names);
        proof {
            let listed = Set::new(|x: Seq<char>| exists|i: int| 0 <= i < names@.len() && (#[trigger] names@[i])@ == x);
            assert forall|x: Seq<char>| listed.contains(x) <==> base_intrinsics().contains(x) by {
                if listed.contains(x) {
                    let i = choose|i: int| 0 <= i < names@.len() && (#[trigger] names@[i])@ == x;
                }
                if x == "qir.qubit_alloc"@ { assert(names@[0]@ == x); }
                if x == "qir.qubit_release"@ { assert(names@[1]@ == x); }
                if x == "qir.qubit_alloc_array"@ { assert(names@[2]@ == x); }
                if x == "qir.qubit_release_array"@ { assert(names@[3]@ == x); }
                if x == "qir.h"@ { assert(names@[4]@ == x); }
                if x == "qir.x"@ { assert(names@[5]@ == x); }
                if x == "qir.y"@ { assert(names@[6]@ == x); }
                if x == "qir.z"@ { assert(names@[7]@ == x); }
                if x == "qir.s"@ { assert(names@[8]@ == x); }
                if x == "qir.t"@ { assert(names@[9]@ == x); }
                if x == "qir.rx"@ { assert(names@[10]@ == x); }
                if x == "qir.ry"@ { assert(names@[11]@ == x); }
                if x == "qir.rz"@ { assert(names@[12]@ == x); }
                if x == "qir.r1"@ { assert(names@[13]@ == x); }
                if x == "qir.rt1"@ { assert(names@[14]@ == x); }
                if x == "qir.cx"@ { assert(names@[15]@ == x); }
                if x == "qir.cy"@ { assert(names@[16]@ == x); }
                if x == "qir.cz"@ { assert(names@[17]@ == x); }
                if x == "qir.swap"@ { assert(names@[18]@ == x); }
                if x == "qir.iswap"@ { assert(names@[19]@ == x); }
                if x == "qir.ccx"@ { assert(names@[20]@ == x); }
                if x == "qir.mz"@ { assert(names@[21]@ == x); }
                if x == "qir.mx"@ { assert(names@[22]@ == x); }
                if x == "qir.my"@ { assert(names@[23]@ == x); }
                if x == "qir.measure"@ { assert(names@[24]@ == x); }
                if x == "qir.result_record"@ { assert(names@[25]@ == x); }
                if x == "qir.result_update"@ { assert(names@[26]@ == x); }
                if x == "qir.result_get"@ { assert(names@[27]@ == x); }
                if x == "qir.result_equal"@ { assert(names@[28]@ == x); }
                if x == "qir.array_record"@ { assert(names@[29]@ == x); }
                if x == "qir.array_update"@ { assert(names@[30]@ == x); }
                if x == "qir.adjoint"@ { assert(names@[31]@ == x); }
                if x == "qir.controlled"@ { assert(names@[32]@ == x); }
            }
            assert(listed =~= base_intrinsics());
        }
    }

    fn enable_adaptive_intrinsics(&mut self)
        ensures
            names_set(final(self).enabled_intrinsics@) == names_set(old(self).enabled_intrinsics@) + adaptive_intrinsics(),
            final(self).kind == old(self).kind,
            final(self).allows_dynamic_control_flow == old(self).allows_dynamic_control_flow,
            final(self).allows_classical_computation == old(self).allows_classical_computation,
            final(self).allows_qubit_reuse == old(self).allows_qubit_reuse,
            final(self).max_qubits == old(self).max_qubits,
    {
        let ghost start = names_set(self.enabled_intrinsics@);
        names_insert(&mut self.enabled_intrinsics, "qir.if");
        names_insert(&mut self.enabled_intrinsics, "qir.while");
        names_insert(&mut self.enabled_intrinsics, "qir.qubit_reset");
        assert(names_set(self.enabled_intrinsics@) =~= start + adaptive_intrinsics());
    }

    fn enable_full_intrinsics(&mut self)
        ensures
            names_set(final(self).enabled_intrinsics@) == names_set(old(self).enabled_intrinsics@) + full_intrinsics(),
            final(self).kind == old(self).kind,
            final(self).allows_dynamic_control_flow == old(self).allows_dynamic_control_flow,
            final(self).allows_classical_computation == old(self).allows_classical_computation,
            final(self).allows_qubit_reuse == old(self).allows_qubit_reuse,
            final(self).max_qubits == old(self).max_qubits,
    {
        let ghost start = names_set(self.enabled_intrinsics@);
        names_insert(&mut self.enabled_intrinsics, "qir.profiler_record");
        names_insert(&mut self.enabled_intrinsics, "qir.qubit_reset");
        names_insert(&mut self.enabled_intrinsics, "qir.dump_machine");
        assert(names_set(self.enabled_intrinsics@) =~= start + full_intrinsics());
    }

    pub fn kind(&self) -> (r: QirProfileKind)
        ensures
            r == self@.kind,
    {
        self.kind
    }

    pub fn is_intrinsic_enabled(&self, name: &str) -> (r: bool)
        ensures
            r == self@.enabled.contains(name@),
    {
        names_contains(&self.enabled_intrinsics, name)
    }

    pub fn allows_dynamic_control_flow(&self) -> (r: bool)
        ensures
            r == self@.dynamic_control_flow,
    {
        self.allows_dynamic_control_flow
    }

    pub fn allows_classical_computation(&self) -> (r: bool)
        ensures
            r == self@.classical_computation,
    {
        self.allows_classical_computation
    }

    pub fn allows_qubit_reuse(&self) -> (r: bool)
        ensures
            r == self@.qubit_reuse,
    {
        self.allows_qubit_reuse
    }

    pub fn max_qubits(&self) -> (r: Option<u32>)
        ensures
            r == self@.max_qubits,
    {
        self.max_qubits
    }

    pub fn set_max_qubits(&mut self, max: u32)
        ensures
            final(self)@ == (ProfileModel { max_qubits: Some(max), ..old(self)@ }),
    {
        self.max_qubits = Some(max);
    }

    pub fn enable_intrinsic(&mut self, name: &str)
        ensures
            final(self)@ == (ProfileModel { enabled: old(self)@.enabled.insert(name@), ..old(self)@ }),
    {
        names_insert(&mut self.enabled_intrinsics, name);
    }

    pub fn disable_intrinsic(&mut self, name: &str)
        ensures
            final(self)@ == (ProfileModel { enabled: old(self)@.enabled.remove(name@), ..old(self)@ }),
    {
        names_remove(&mut self.enabled_intrinsics, name);
    }

    /// The enabled intrinsics, each once.
    pub fn enabled_intrinsics(&self) -> (r: &Vec<String>)
        ensures
            names_set(r@) == self@.enabled,
    {
        &self.enabled_intrinsics
    }

    /// Checks a module's text against the profile: dynamic control flow and
    /// qubit reuse only where the profile allows them.
    pub fn validate_module(&self, module_ir: &str) -> (r: Result<(), Vec<String>>)
        ensures
            r is Ok <==> profile_errors(self@, module_ir@).len() == 0,
            r matches Err(es) ==> texts(es@) == profile_errors(self@, module_ir@),
    {
        let mut errors: Vec<String> = Vec::new();
        if !self.allows_dynamic_control_flow {
            if str_contains(module_ir, "qir.if") || str_contains(module_ir, "qir.while") {
                errors.push("Dynamic control flow (qir.if/qir.while) not allowed in base profile".to_string());
            }
        }
        let ghost flow = texts(errors@);
        if !self.allows_qubit_reuse {
            if str_contains(module_ir, "qir.qubit_reset") {
                errors.push("Qubit reuse (qir.qubit_reset) not allowed in base profile".to_string());
            }
        }
        assert(texts(errors@) =~= profile_errors(self@, module_ir@));
        if errors.len() == 0 {
            Ok(())
        } else {
            Err(errors)
        }
    }
}

impl Default for QirProfile {
    fn default() -> (r: Self)
        ensures
            r@ == default_profile(QirProfileKind::Base),
    {
        Self::new(QirProfileKind::Base)
    }
}

/// Capabilities of a QIR target.
#[derive(Debug)]
pub struct QirTargetCapabilities {
    pub profile: QirProfileKind,
    pub max_qubits: Option<u32>,
    pub supports_qubit_reuse: bool,
    pub supports_mid_circuit_measurement: bool,
    pub supports_adaptive_control_flow: bool,
    pub supports_classical_computation: bool,
    /// Supported gates.
    pub supported_gate_set: Vec<String>,
    /// Supported measurement bases.
    pub supported_measurement_bases: Vec<String>,
}

/// Gates of every profile.
pub open spec fn common_gates() -> Set<Seq<char>> {
    set![
        "h"@, "x"@, "y"@, "z"@, "s"@, "t"@, "rx"@, "ry"@, "rz"@, "r1"@, "rt1"@,
        "cx"@, "cy"@, "cz"@, "swap"@, "iswap"@, "ccx"@
    ]
}

/// Gates of a profile kind.
pub open spec fn gates_of(k: QirProfileKind) -> Set<Seq<char>> {
    match k {
        QirProfileKind::Full => common_gates() + set!["u"@, "p"@, "cp"@],
        _ => common_gates(),
    }
}

/// Measurement bases of a profile kind.
pub open spec fn bases_of(k: QirProfileKind) -> Set<Seq<char>> {
    match k {
        QirProfileKind::Full => set!["z"@, "x"@, "y"@, "bell"@],
        _ => set!["z"@, "x"@, "y"@],
    }
}

fn common_gate_list() -> (r: Vec<String>)
    ensures
        names_set(r@) == common_gates(),
{
    let mut v: Vec<String> = Vec::new();
    assert(names_set(v@) =~= Set::<Seq<char>>::empty());
    names_insert(&mut v, "h");
    names_insert(&mut v, "x");
    names_insert(&mut v, "y");
    names_insert(&mut v, "z");
    names_insert(&mut v, "s");
    names_insert(&mut v, "t");
    names_insert(&mut v, "rx");
    names_insert(&mut v, "ry");
    names_insert(&mut v, "rz");
    names_insert(&mut v, "r1");
    names_insert(&mut v, "rt1");
    names_insert(&mut v, "cx");
    names_insert(&mut v, "cy");
    names_insert(&mut v, "cz");
    names_insert(&mut v, "swap");
    names_insert(&mut v, "iswap");
    names_insert(&mut v, "ccx");
    v
}

fn basis_list() -> (r: Vec<String>)
    ensures
        names_set(r@) == set!["z"@, "x"@, "y"@],
{
    let mut v: Vec<String> = Vec::new();
    assert(names_set(v@) =~= Set::<Seq<char>>::empty());
    names_insert(&mut v, "z");
    names_insert(&mut v, "x");
    names_insert(&mut v, "y");
    v
}

impl QirTargetCapabilities {
    /// The capabilities that come with a profile kind.
    pub fn for_profile(profile: QirProfileKind) -> (r: Self)
        ensures
            r.profile == profile,
            r.max_qubits is None,
            r.supports_qubit_reuse == (profile != QirProfileKind::Base),
            r.supports_mid_circuit_measurement,
            r.supports_adaptive_control_flow == (profile != QirProfileKind::Base),
            r.supports_classical_computation,
            names_set(r.supported_gate_set@) == gates_of(profile),
            names_set(r.supported_measurement_bases@) == bases_of(profile),
    {
        match profile {
            QirProfileKind::Base => QirTargetCapabilities {
                profile,
                max_qubits: None,
                supports_qubit_reuse: false,
                supports_mid_circuit_measurement: true,
                supports_adaptive_control_flow: false,
                supports_classical_computation: true,
                supported_gate_set: common_gate_list(),
                supported_measurement_bases: basis_list(),
            },
            QirProfileKind::Adaptive => QirTargetCapabilities {
                profile,
                max_qubits: None,
                supports_qubit_reuse: true,
                supports_mid_circuit_measurement: true,
                supports_adaptive_control_flow: true,
                supports_classical_computation: true,
                supported_gate_set: common_gate_list(),
                supported_measurement_bases: basis_list(),
            },
            QirProfileKind::Full => {
                let mut gates = common_gate_list();
                names_insert(&mut gates, "u");
                names_insert(&mut gates, "p");
                names_insert(&mut gates, "cp");
                let mut bases = basis_list();
                names_insert(&mut bases, "bell");
                assert(names_set(gates@) =~= gates_of(profile));
                assert(names_set(bases@) =~= bases_of(profile));
                QirTargetCapabilities {
                    profile,
                    max_qubits: None,
                    supports_qubit_reuse: true,
                    supports_mid_circuit_measurement: true,
                    supports_adaptive_control_flow: true,
                    supports_classical_computation: true,
                    supported_gate_set: gates,
                    supported_measurement_bases: bases,
                }
            },
        }
    }

    pub fn supports_gate(&self, gate: &str) -> (r: bool)
        ensures
            r == names_set(self.supported_gate_set@).contains(gate@),
    {
        names_contains(&self.supported_gate_set, gate)
    }

    pub fn supports_measurement_basis(&self, basis: &str) -> (r: bool)
        ensures
            r == names_set(self.supported_measurement_bases@).contains(basis@),
    {
        names_contains(&self.supported_measurement_bases, basis)
    }
}

} // verus!
