pub mod activity;
pub mod agent;
pub mod calendar;
pub mod commands;
pub mod config;
pub mod conversation;
pub mod digest;
pub mod display;
pub mod events;
pub mod fields;
pub mod github;
pub mod hashing;
pub mod job_store;
pub mod jobs;
pub mod json;
pub mod memory;
pub mod metrics;
pub mod numbers;
pub mod order;
pub mod pipeline;
pub mod pool;
pub mod providers;
pub mod registry;
pub mod report;
pub mod scheduler;
pub mod services;
pub mod sessions;
pub mod single_server;
pub mod task_store;
pub mod task_update;
pub mod tasks;
pub mod telemetry;
pub mod text;
pub mod time;
pub mod todo_format;
pub mod tools;
pub mod turn;
pub mod verdict;
pub mod workspace;
pub mod xml;
