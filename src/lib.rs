//! Reachability of ballistic jumps in a 2D polygonal platformer level.
//!
//! All geometry is exact integer arithmetic: positions are whole level units,
//! gravity and launch speed are whole units per time step, and every derived
//! quantity is either exact or a documented floor.
pub mod geometry;
pub mod trajectory;
pub mod sweep;
pub mod jump;

pub use geometry::{isqrt, segment_intersection, Point2, RatPoint};
pub use jump::{check_jump, jumpability_check, JumpCheckPlugin, ReachabilityResult};
pub use sweep::{capsule_outline, first_hit, unit_normal_of, GraphNode, Level, NodeError, Polygon, Segment, SweepHit};
pub use trajectory::{existence_discriminant, flight_time_sq, jump_speed_feasible, Trajectory};
