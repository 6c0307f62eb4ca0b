//! Findings of the offline bytecode analysis pass.
//!
//! The pass itself walks compiled modules through outside tooling; this
//! module owns the finding records it produces and the signature walk that
//! marks which struct handles a function signature mentions.

use vstd::prelude::*;

verus! {

/// The kinds of finding the offline pass reports.
#[derive(Clone, Copy, Debug, PartialEq, Eq, Structural)]
pub enum FindingKind {
    BoolJudgement,
    InfiniteLoop,
    PrecisionLoss,
    TypeConversion,
    UncheckedReturn,
    UnusedConst,
    UnusedPrivateFunction,
    UnusedFriendFunction,
    UnusedStruct,
}

impl FindingKind {
    /// The stable display name of the finding kind.
    pub fn as_str(&self) -> (r: &'static str)
        ensures
            r@ == (match *self {
                FindingKind::BoolJudgement => "UnnecessaryBoolComparison"@,
                FindingKind::InfiniteLoop => "PotentialInfiniteLoop"@,
                FindingKind::PrecisionLoss => "PrecisionLoss"@,
                FindingKind::TypeConversion => "RedundantTypeConversion"@,
                FindingKind::UncheckedReturn => "UncheckedReturnValue"@,
                FindingKind::UnusedConst => "UnusedConstant"@,
                FindingKind::UnusedPrivateFunction => "UnusedPrivateFunction"@,
                FindingKind::UnusedFriendFunction => "UnusedFriendFunction"@,
                FindingKind::UnusedStruct => "UnusedStruct"@,
            }),
    {
        match self {
            FindingKind::BoolJudgement => "UnnecessaryBoolComparison",
            FindingKind::InfiniteLoop => "PotentialInfiniteLoop",
            FindingKind::PrecisionLoss => "PrecisionLoss",
            FindingKind::TypeConversion => "RedundantTypeConversion",
            FindingKind::UncheckedReturn => "UncheckedReturnValue",
            FindingKind::UnusedConst => "UnusedConstant",
            FindingKind::UnusedPrivateFunction => "UnusedPrivateFunction",
            FindingKind::UnusedFriendFunction => "UnusedFriendFunction",
            FindingKind::UnusedStruct => "UnusedStruct",
        }
    }
}

/// One finding of the offline pass.
#[derive(Clone, Debug)]
pub struct StaticAnalysisFinding {
    pub kind: FindingKind,
    pub module: String,
    pub function: Option<String>,
    pub detail: String,
}

impl StaticAnalysisFinding {
    /// Record a finding.
    pub fn new(kind: FindingKind, module: String, function: Option<String>, detail: String) -> (r:
        StaticAnalysisFinding)
        ensures
            r.kind == kind,
            r.module@ == module@,
            r.function == function,
            r.detail@ == detail@,
    {
        StaticAnalysisFinding { kind, module, function, detail }
    }
}

/// A type as it stands in a compiled function signature.
#[derive(Debug)]
pub enum SignatureToken {
    Bool,
    U8,
    U16,
    U32,
    U64,
    U128,
    U256,
    Address,
    Signer,
    Vector(Box<SignatureToken>),
    Reference(Box<SignatureToken>),
    MutableReference(Box<SignatureToken>),
    Struct(u16),
    StructInstantiation(u16),
    TypeParameter(u16),
    Function,
}

/// The marking a signature token makes on a struct-usage table: the
/// mentioned struct handle's entry turns true; handles past the end of the
/// table are ignored.
pub open spec fn mark_spec(token: SignatureToken, used: Seq<bool>) -> Seq<bool>
    decreases token,
{
    match token {
        SignatureToken::Struct(idx) | SignatureToken::StructInstantiation(idx) => {
            if (idx as int) < used.len() {
                used.update(idx as int, true)
            } else {
                used
            }
        },
        SignatureToken::Vector(inner) | SignatureToken::Reference(inner)
            | SignatureToken::MutableReference(inner) => mark_spec(*inner, used),
        _ => used,
    }
}

/// Mark the struct handles a signature token mentions.  Out-of-range
/// handles are ignored rather than faulted.
pub fn mark_struct_in_signature(token: &SignatureToken, used: &mut Vec<bool>)
    ensures
        final(used)@ == mark_spec(*token, old(used)@),
    decreases *token,
{
    match token {
        SignatureToken::Struct(idx) | SignatureToken::StructInstantiation(idx) => {
            let pos = *idx as usize;
            if pos < used.len() {
                used.set(pos, true);
            }
        },
        SignatureToken::Vector(inner) | SignatureToken::Reference(inner)
            | SignatureToken::MutableReference(inner) => {
            mark_struct_in_signature(&**inner, used);
        },
        _ => {},
    }
}

} // verus!
