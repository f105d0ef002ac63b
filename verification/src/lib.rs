pub mod ai_interaction;
pub mod database;
pub mod initialization;
pub mod mailbox;
pub mod python;
pub mod text;
pub mod web_payloads;
