//! Code generation targets and optimization levels.

use vstd::prelude::*;
use crate::text::{lowercase, str_eq, to_lowercase};

verus! {

/// Target platforms.
#[derive(Debug, Clone, PartialEq, Eq)]
pub enum CodegenTarget {
    /// The host platform.
    Host,
    /// NVIDIA PTX (GPU).
    Nvptx64,
    /// WebAssembly, 32-bit.
    Wasm32,
    /// ARM64 Linux.
    Aarch64,
    /// Any other target triple.
    Custom(String),
}

/// The target triple of a target.
pub open spec fn triple_of(t: CodegenTarget) -> Seq<char> {
    match t {
        CodegenTarget::Host => "x86_64-pc-windows-msvc"@,
        CodegenTarget::Nvptx64 => "nvptx64-nvidia-cuda"@,
        CodegenTarget::Wasm32 => "wasm32-unknown-unknown"@,
        CodegenTarget::Aarch64 => "aarch64-unknown-linux-gnu"@,
        CodegenTarget::Custom(t) => t@,
    }
}

/// The target a lowercased name selects: the known aliases, or the name
/// itself as a custom triple.
pub open spec fn target_named(l: Seq<char>, t: CodegenTarget) -> bool {
    if l == "host"@ || l == "native"@ {
        t is Host
    } else if l == "nvptx64"@ || l == "cuda"@ || l == "gpu"@ {
        t is Nvptx64
    } else if l == "wasm32"@ || l == "wasm"@ {
        t is Wasm32
    } else if l == "aarch64"@ || l == "arm64"@ {
        t is Aarch64
    } else {
        t matches CodegenTarget::Custom(c) && c@ == l
    }
}

impl CodegenTarget {
    /// The target triple.
    pub fn triple(&self) -> (r: &str)
        ensures
            r@ == triple_of(*self),
    {
        match self {
            CodegenTarget::Host => "x86_64-pc-windows-msvc",
            CodegenTarget::Nvptx64 => "nvptx64-nvidia-cuda",
            CodegenTarget::Wasm32 => "wasm32-unknown-unknown",
            CodegenTarget::Aarch64 => "aarch64-unknown-linux-gnu",
            CodegenTarget::Custom(t) => t.as_str(),
        }
    }

    /// Parses a target name, ignoring case; an unknown name is taken as a
    /// custom triple (in lowercase). Never fails.
    pub fn from_str(s: &str) -> (r: Result<Self, String>)
        ensures
            r matches Ok(t) && target_named(lowercase(s@), t),
    {
        let l = to_lowercase(s);
        let ls = l.as_str();
        if str_eq(ls, "host") || str_eq(ls, "native") {
            Ok(CodegenTarget::Host)
        } else if str_eq(ls, "nvptx64") || str_eq(ls, "cuda") || str_eq(ls, "gpu") {
            Ok(CodegenTarget::Nvptx64)
        } else if str_eq(ls, "wasm32") || str_eq(ls, "wasm") {
            Ok(CodegenTarget::Wasm32)
        } else if str_eq(ls, "aarch64") || str_eq(ls, "arm64") {
            Ok(CodegenTarget::Aarch64)
        } else {
            Ok(CodegenTarget::Custom(ls.to_string()))
        }
    }
}

/// Optimization levels.
#[derive(Debug, Clone, Copy, PartialEq, Eq, Structural)]
pub enum OptLevel {
    /// No optimization.
    NoOpt,
    Less,
    Default,
    Aggressive,
}

/// The numeric optimization level.
pub open spec fn opt_level_number(o: OptLevel) -> u32 {
    match o {
        OptLevel::NoOpt => 0,
        OptLevel::Less => 1,
        OptLevel::Default => 2,
        OptLevel::Aggressive => 3,
    }
}

impl From<OptLevel> for u32 {
    fn from(opt: OptLevel) -> (r: u32) {
        match opt {
            OptLevel::NoOpt => 0,
            OptLevel::Less => 1,
            OptLevel::Default => 2,
            OptLevel::Aggressive => 3,
        }
    }
}

impl vstd::std_specs::convert::FromSpecImpl<OptLevel> for u32 {
    open spec fn obeys_from_spec() -> bool {
        true
    }

    open spec fn from_spec(v: OptLevel) -> u32 {
        opt_level_number(v)
    }
}

} // verus!
