//! Errors of the reconstruction layer.
use vstd::prelude::*;

verus! {

#[derive(Debug, Clone, Copy, PartialEq, Eq, Structural)]
pub enum TransformError {
    /// The quantisation parameter lies outside the range for the bit depth.
    QpOutOfRange(i64),
}

#[derive(Debug)]
pub enum ReconstructError {
    UnsupportedMbType(String),
    UnsupportedChromaArrayType(u32),
    /// An SP or SI slice with a configuration outside 4:2:0, 8-bit, lossy coding.
    SpSiUnsupported(String),
    FieldOrMbaffNotSupported,
    Transform(TransformError),
    IntraPredOutOfBounds,
    /// No picture at this place of a reference list.
    MissingRefPic { list: u8, idx: u32 },
    UnsupportedInterMbType(String),
    /// Motion compensation from a picture without samples.
    InvalidRefDims { width: u32, height: u32 },
    /// Motion compensation from a placeholder of a frame that was never decoded.
    NonExistingRef,
    /// An intra mode whose neighbouring samples are not available.
    IntraModeNeighboursUnavailable { mode: &'static str, clause: &'static str },
}

/// The content of a [`ReconstructError`].
pub enum ErrV {
    UnsupportedMbType(Seq<char>),
    UnsupportedChromaArrayType(u32),
    SpSiUnsupported(Seq<char>),
    FieldOrMbaffNotSupported,
    Transform(TransformError),
    IntraPredOutOfBounds,
    MissingRefPic { list: u8, idx: u32 },
    UnsupportedInterMbType(Seq<char>),
    InvalidRefDims { width: u32, height: u32 },
    NonExistingRef,
    IntraModeNeighboursUnavailable { mode: Seq<char>, clause: Seq<char> },
}

impl View for ReconstructError {
    type V = ErrV;

    open spec fn view(&self) -> ErrV {
        match self {
            ReconstructError::UnsupportedMbType(s) => ErrV::UnsupportedMbType(s@),
            ReconstructError::UnsupportedChromaArrayType(n) => ErrV::UnsupportedChromaArrayType(*n),
            ReconstructError::SpSiUnsupported(s) => ErrV::SpSiUnsupported(s@),
            ReconstructError::FieldOrMbaffNotSupported => ErrV::FieldOrMbaffNotSupported,
            ReconstructError::Transform(e) => ErrV::Transform(*e),
            ReconstructError::IntraPredOutOfBounds => ErrV::IntraPredOutOfBounds,
            ReconstructError::MissingRefPic { list, idx } => ErrV::MissingRefPic {
                list: *list,
                idx: *idx,
            },
            ReconstructError::UnsupportedInterMbType(s) => ErrV::UnsupportedInterMbType(s@),
            ReconstructError::InvalidRefDims { width, height } => ErrV::InvalidRefDims {
                width: *width,
                height: *height,
            },
            ReconstructError::NonExistingRef => ErrV::NonExistingRef,
            ReconstructError::IntraModeNeighboursUnavailable { mode, clause } =>
                ErrV::IntraModeNeighboursUnavailable { mode: mode@, clause: clause@ },
        }
    }
}

/// The outcome of an operation that can fail, as a value.
pub open spec fn outcome(r: Result<(), ReconstructError>) -> Option<ErrV> {
    match r {
        Ok(_) => None,
        Err(e) => Some(e@),
    }
}

pub open spec fn digit(n: int) -> char {
    (('0' as u32) + n) as char
}

/// Decimal notation of an integer.
pub open spec fn decimal(n: int) -> Seq<char>
    decreases
            (if n < 0 {
                1 - n
            } else {
                n
            }),
{
    if n < 0 {
        seq!['-'] + decimal(-n)
    } else if n < 10 {
        seq![digit(n)]
    } else {
        decimal(n / 10).push(digit(n % 10))
    }
}

/// `format!` with two texts and an integer between them: the integer appears in decimal notation,
/// with a minus sign when it is negative, and the texts appear unchanged.
#[verifier::external_body]
pub(crate) fn text_with_number(before: &str, n: i64, after: &str) -> (r: String)
    ensures
        r@ == before@ + decimal(n as int) + after@,
{
    format!("{}{}{}", before, n, after)
}

} // verus!
