pub mod schedule;
pub mod scheduler;
pub mod settings;
pub mod time_of_day;
