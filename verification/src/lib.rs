//! Borrowed views of JSON instances, JSON Schema equality between them, and the
//! `oneOf` keyword over them.

pub mod array;
pub mod big_rounding;
pub mod compile_laws;
pub mod compiler;
pub mod conversion_laws;
pub mod discriminator;
pub mod discriminator_laws;
pub mod equality;
pub mod equality_laws;
pub mod error;
pub mod evaluation;
pub mod float64;
pub mod float_laws;
pub mod instance;
pub mod integer;
pub mod integer_laws;
pub mod jiter_values;
pub mod materialize;
pub mod number;
pub mod object;
pub mod one_of;
pub mod one_of_laws;
pub mod owned;
pub mod owned_laws;
pub mod paths;
pub mod python;
pub mod python_capture;
pub mod python_laws;
pub mod python_snapshot;
pub mod reading_laws;
pub mod report_laws;
pub mod rounding;
pub mod serde_values;
pub mod single_one_of;
pub mod snapshot_laws;
pub mod text;
pub mod text_laws;
pub mod validator;
pub mod value;
pub mod verdict_laws;
pub mod view_laws;
pub mod well_formed;
