//! Results of the workspace services and the decisions they take.
pub mod anchor_service;
pub mod entity_service;
pub mod health_service;
pub mod workspace_service;
pub mod entity_link_context;
pub mod entity_context;
pub mod workspace_parse_service;
pub mod link_walk;
