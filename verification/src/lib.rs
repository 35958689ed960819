//! Adapter around the `ark-bls12-381` scalar field and G1 group that exposes
//! constant-time-flavored operations: equality as an explicit choice flag,
//! branchless conditional selection, fixed-size canonical byte encodings, and
//! the table of named field constants that such an interface requires.

mod backend;
mod choice;
mod constants;
mod encoding;
mod group;
mod scalar;

pub use backend::{FrElement, G1Element};
pub use choice::Choice;
pub use constants::{
    derive_curve_table, derive_field_table, CurveConstantTable, FieldConstantTable,
};
pub use group::{ArkGroupWrapper, PointRepr};
pub use scalar::{ArkScalarWrapper, ScalarRepr};
