pub mod intelligence;
pub mod planner;
