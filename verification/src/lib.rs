pub mod challenge;
pub mod challenge_data;
pub mod challenge_performance_data;
pub mod clock;
pub mod date;
pub mod period;
pub mod response;
pub mod score_error;
pub mod task_data;
pub mod task_handling;
pub mod task_performance_data;
pub mod time_frame;
pub mod user;
pub mod user_performance_data;
