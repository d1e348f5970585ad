//! forkd: the decision core of a microVM fork runtime.
#![allow(unused_imports)]

pub mod api;
pub mod audit;
pub mod auth;
pub mod boot;
pub mod branch;
pub mod cgroup;
pub mod chain;
pub mod cli;
pub mod client;
pub mod config;
pub mod daemon;
pub mod doctor;
pub mod document;
pub mod firecracker;
pub mod fork;
pub mod hub;
pub mod image;
pub mod journeys;
pub mod json;
pub mod machine;
pub mod memfd;
pub mod merge;
pub mod messages;
pub mod metrics;
pub mod netns;
pub mod paths;
pub mod sandboxes;
pub mod slots;
pub mod snapshots;
pub mod state;
pub mod table;
pub mod tags;
pub mod text;
pub mod trials;
pub mod uffd;
pub mod workdirs;
pub mod workspaces;
pub mod wp;
