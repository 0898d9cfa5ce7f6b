//! Folder icon customization: the profile model and its stable JSON form,
//! resolution of user-supplied vector sources, and the batch orchestration
//! with its progress protocol.

pub mod batch;
pub mod json;
pub mod profile;
pub mod source;
