//! Multi-affine-body dynamics for ball-joint nets: the grid of hubs and rods, the
//! co-rotated shape projection, the direct joint solve and the contact projections,
//! over any arithmetic that implements [`scalar::Scalar`].

pub mod attachment;
pub mod axis_laws;
pub mod balls;
pub mod balance_laws;
pub mod ball_laws;
pub mod body;
pub mod box_laws;
pub mod camera;
pub mod camera_laws;
pub mod clearance_laws;
pub mod constants;
pub mod contact_laws;
pub mod cylinder;
pub mod dual;
pub mod dual_laws;
pub mod dual_step;
pub mod exact;
pub mod field;
pub mod fixed;
pub mod gather;
pub mod grid;
pub mod joints;
pub mod laws;
pub mod least_laws;
pub mod motion_laws;
pub mod net;
pub mod order;
pub mod overlay;
pub mod pair;
pub mod polar;
pub mod polar_laws;
pub mod pruning_laws;
pub mod reference;
pub mod rotation_laws;
pub mod run_laws;
pub mod scalar;
pub mod scene;
pub mod shape_laws;
pub mod shapes;
pub mod simulation;
pub mod span_laws;
pub mod start_laws;
pub mod tasks;
pub mod topology;
pub mod unturned_laws;
pub mod vector;
pub mod weight_laws;
pub mod world;
