//! Real-time monitoring of a fleet of SSH hosts: the hosts of an SSH client
//! configuration laid out as tiles in named rows, each with a session whose
//! CPU, memory and network use, disks, processes and system facts are read
//! from the remote `/proc` and command outputs.
//!
//! This crate holds the logic, with its contracts and laws: parsing the
//! configuration and the remote outputs, the dashboard and its operations,
//! the course of a session, keyboard input, and what the screens show.
use vstd::prelude::*;

pub mod text;
pub mod ssh_config;
pub mod grid_layout;
pub mod disk_info;
pub mod process_info;
pub mod system_info;
pub mod metrics;
pub mod dashboard;
pub mod arrange;
pub mod dashboard_laws;
pub mod session;
pub mod input;
pub mod view;
pub mod panels;

verus! {
}
