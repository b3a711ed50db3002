//! The typing rules of evaluation: which kind of value each operation gives for the kinds
//! of its operands, and which error where it has none.
//!
//! A value is a number or a 2x2 or 3x3 matrix. The element arithmetic is carried out by
//! the caller; these rules decide what is computed and when evaluation fails.

use vstd::prelude::*;
use crate::map::MatrixMapError;

verus! {

/// The kind of an evaluated value.
#[derive(Clone, Copy, Debug, PartialEq, Eq, Structural)]
pub enum Kind {
    /// A number.
    Number,
    /// A 2x2 matrix.
    Matrix2,
    /// A 3x3 matrix.
    Matrix3,
}

impl Kind {
    /// Whether this is a matrix kind.
    pub open spec fn is_matrix(self) -> bool {
        self != Kind::Number
    }
}

/// An error of evaluation.
#[derive(Clone, Debug, PartialEq)]
pub enum EvaluationError {
    CannotMultiplyDifferentDimensions,
    CannotAddDifferentDimensions,
    CannotAddNumberAndMatrix,
    CannotRaiseMatrixToNonInteger,
    CannotRaiseToMatrix,
    CannotDivideByMatrix,
    CannotInvertSingularMatrix,
    CannotTransposeNumber,
    /// Looking a name up in the environment failed.
    MatrixMapError(MatrixMapError),
}

/// How a power is computed, once the kinds of base and power allow it.
#[derive(Clone, Copy, Debug, PartialEq, Eq, Structural)]
pub enum PowerPlan {
    /// A number to a number power.
    NumberPower,
    /// A matrix to the power `steps`, by square-and-multiply, then inverted if `invert`.
    MatrixPower { steps: u16, invert: bool },
}

/// The kind of a sum: numbers add to a number and matrices of one dimension to a matrix of
/// it; matrices of different dimensions, and a number with a matrix, do not add.
pub fn add_kind(l: Kind, r: Kind) -> (res: Result<Kind, EvaluationError>)
    ensures
        l == r ==> res == Ok::<Kind, EvaluationError>(l),
        l.is_matrix() && r.is_matrix() && l != r ==> res == Err::<Kind, EvaluationError>(
            EvaluationError::CannotAddDifferentDimensions,
        ),
        l.is_matrix() != r.is_matrix() ==> res == Err::<Kind, EvaluationError>(
            EvaluationError::CannotAddNumberAndMatrix,
        ),
{
    match (l, r) {
        (Kind::Number, Kind::Number) => Ok(Kind::Number),
        (Kind::Matrix2, Kind::Matrix2) => Ok(Kind::Matrix2),
        (Kind::Matrix3, Kind::Matrix3) => Ok(Kind::Matrix3),
        (Kind::Number, _) | (_, Kind::Number) => Err(EvaluationError::CannotAddNumberAndMatrix),
        _ => Err(EvaluationError::CannotAddDifferentDimensions),
    }
}

/// The kind of a product: a number times anything scales it, and matrices of one
/// dimension multiply to a matrix of it; matrices of different dimensions do not.
pub fn multiply_kind(l: Kind, r: Kind) -> (res: Result<Kind, EvaluationError>)
    ensures
        l == Kind::Number ==> res == Ok::<Kind, EvaluationError>(r),
        r == Kind::Number ==> res == Ok::<Kind, EvaluationError>(l),
        l == r ==> res == Ok::<Kind, EvaluationError>(l),
        l.is_matrix() && r.is_matrix() && l != r ==> res == Err::<Kind, EvaluationError>(
            EvaluationError::CannotMultiplyDifferentDimensions,
        ),
{
    match (l, r) {
        (Kind::Number, _) => Ok(r),
        (_, Kind::Number) => Ok(l),
        (Kind::Matrix2, Kind::Matrix2) => Ok(Kind::Matrix2),
        (Kind::Matrix3, Kind::Matrix3) => Ok(Kind::Matrix3),
        _ => Err(EvaluationError::CannotMultiplyDifferentDimensions),
    }
}

/// The kind of a quotient: anything divided by a number keeps its kind; nothing can be
/// divided by a matrix.
pub fn divide_kind(l: Kind, r: Kind) -> (res: Result<Kind, EvaluationError>)
    ensures
        r == Kind::Number ==> res == Ok::<Kind, EvaluationError>(l),
        r.is_matrix() ==> res == Err::<Kind, EvaluationError>(EvaluationError::CannotDivideByMatrix),
{
    match r {
        Kind::Number => Ok(l),
        _ => Err(EvaluationError::CannotDivideByMatrix),
    }
}

/// The kind of a transpose: a matrix keeps its kind; a number cannot be transposed.
pub fn transpose_kind(k: Kind) -> (res: Result<Kind, EvaluationError>)
    ensures
        k.is_matrix() ==> res == Ok::<Kind, EvaluationError>(k),
        k == Kind::Number ==> res == Err::<Kind, EvaluationError>(EvaluationError::CannotTransposeNumber),
{
    match k {
        Kind::Number => Err(EvaluationError::CannotTransposeNumber),
        _ => Ok(k),
    }
}

/// How `base ^ power` is computed. `integral` is `Some((m, negative))` where the power is
/// an integer within tolerance, `m` its magnitude and `negative` its sign, and `None` where
/// it is not. Nothing is raised to a matrix; a number is raised to any number; a matrix
/// only to an integer, by `m` steps of square-and-multiply, inverted for a negative power.
pub fn power_plan(base: Kind, power: Kind, integral: Option<(u16, bool)>) -> (res: Result<
    PowerPlan,
    EvaluationError,
>)
    ensures
        power.is_matrix() ==> res == Err::<PowerPlan, EvaluationError>(EvaluationError::CannotRaiseToMatrix),
        power == Kind::Number && base == Kind::Number ==> res == Ok::<PowerPlan, EvaluationError>(
            PowerPlan::NumberPower,
        ),
        power == Kind::Number && base.is_matrix() ==> match integral {
            None => res == Err::<PowerPlan, EvaluationError>(
                EvaluationError::CannotRaiseMatrixToNonInteger,
            ),
            Some((m, negative)) => res == Ok::<PowerPlan, EvaluationError>(
                PowerPlan::MatrixPower { steps: m, invert: negative },
            ),
        },
{
    match (base, power) {
        (_, Kind::Matrix2) | (_, Kind::Matrix3) => Err(EvaluationError::CannotRaiseToMatrix),
        (Kind::Number, Kind::Number) => Ok(PowerPlan::NumberPower),
        _ => match integral {
            None => Err(EvaluationError::CannotRaiseMatrixToNonInteger),
            Some((m, negative)) => Ok(PowerPlan::MatrixPower { steps: m, invert: negative }),
        },
    }
}

} // verus!
