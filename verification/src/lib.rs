//! Verified core of the pivagen chat bot: the backend's wire format, the
//! request model, and the decisions the backend and its frontends take.

pub mod request;
pub mod codec;
pub mod legacy;
pub mod text;
pub mod chance;
pub mod backend;
pub mod vk;
pub mod vk_legacy;
pub mod telegram;
