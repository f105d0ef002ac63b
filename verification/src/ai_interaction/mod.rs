pub mod agents;
pub mod backend_api;
pub mod create_prompt;
pub mod dialogue;
pub mod dispatch;
pub mod endpoint_api;
pub mod markup;
pub mod sessions;
pub mod tools;
