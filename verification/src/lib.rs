//! Head tracking for stereo-camera glasses: the decisions of the tracker, apart
//! from its devices, its sockets and its floating-point filters.

pub mod axis;
pub mod calib;
pub mod cli;
pub mod double;
pub mod features;
pub mod frame;
pub mod gui;
pub mod imu;
pub mod imu_cli;
pub mod inertial;
pub mod jsonl;
pub mod klt;
pub mod log;
pub mod motion;
pub mod output;
pub mod pipeline;
pub mod rectify;
pub mod settings;
pub mod stereo;
pub mod sums;
pub mod text;
pub mod tracker;
pub mod visual;
