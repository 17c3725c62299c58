//! Host-side WirelessHART model: admission, network graph, routes, and schedule.

pub mod laws;
pub mod manager;
pub mod route;
pub mod schedule;
pub mod security;
pub mod topology;

pub use manager::{
    JoinDecision, JoinRequest, ManagerView, MeshManager, MeshManagerError, MeshSnapshot, NetworkId,
};
pub use schedule::{Cell, CellDirection, Schedule, ScheduleError, ScheduleView};
pub use security::{KeyMaterial, ReplayWindow, SecurityError, WindowView};
pub use topology::{DeviceId, GraphView, LinkHealth, MeshGraph, NodeState, Route};
