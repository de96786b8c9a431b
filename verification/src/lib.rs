//! A 2D sketch model held together by an iterative geometric
//! constraint solver.
//!
//! Anchor points connected by declarative relations (fixed length,
//! parallelism, fixed angle) are nudged toward satisfaction by a fixed
//! number of small relaxation substeps per call, with per-anchor axis
//! pinning enforced after every substep. All geometry is fixed-point
//! integer arithmetic, so the solver's behaviour is exactly specified
//! and free of non-finite values by construction.

pub mod fixed;
pub mod trig;
pub mod vec2;
pub mod system;
pub mod floorplan;
pub mod laws;

pub use fixed::SCALE;
pub use fixed::MAX_COORD;
pub use fixed::PI_FIXED;
pub use fixed::HALF_PI_FIXED;
pub use fixed::TWO_PI_FIXED;
pub use vec2::Vec2;
pub use vec2::MAX_DIST;
pub use system::PinMode;
pub use system::AnchorPoint;
pub use system::ConstraintSystem;
pub use system::Constraint;
pub use system::FixedLengthConstraint;
pub use system::ParallelConstraint;
pub use system::AngleConstraint;
pub use system::ANGLE_CAP;
pub use system::MAX_TARGET;
pub use system::SOLVER_SUBSTEPS;
pub use system::BASE_STRENGTH;
pub use system::SUBSTEP_STRENGTH;
pub use floorplan::Floorplan;
pub use floorplan::Wall;
pub use floorplan::WallStyle;
pub use floorplan::UndoCheckpoint;
pub use floorplan::FloorplanUndoStack;
pub use floorplan::align_cursor;
pub use floorplan::toggle_selection;
