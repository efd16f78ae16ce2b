//! Geometry of NACA four-digit airfoils.
//!
//! The verified library decodes designations, fixes how many samples each
//! surface gets, lays out the sampling parameters in exact arithmetic and
//! orders surface points into a boundary trace. Evaluating the camber and
//! thickness formulas on those parameters is floating-point work that stands
//! outside the verified code.
pub mod error;
pub mod designation;
pub mod fraction;
pub mod sampling;
pub mod airfoil;

pub use airfoil::{boundary_trace, plan_airfoil, AirfoilPlan};
pub use designation::{parse_designation, Designation};
pub use error::NacaError;
pub use fraction::Fraction;
pub use sampling::{cosine_spaced_angles, half_count, linspace, surface_angles};
