//! Plain-text renderings of the DTOs.
pub mod anchor_format;
pub mod anchor_output;
pub mod entity_output;
pub mod render;
pub mod styles;
pub mod workspace_output;
