pub mod hardware;
pub mod ollama;
pub mod reasoning;
