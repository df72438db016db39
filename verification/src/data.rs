pub mod commons;
pub mod human_pose;
