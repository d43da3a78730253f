pub mod text;
pub mod unicode;
pub mod exif;
pub mod types;
pub mod a1111;
pub mod json;
pub mod comfyui;
pub mod png;
pub mod jpeg;
pub mod webp;
pub mod matcher;
pub mod discovery;
pub mod extract;
pub mod export;
pub mod session;
pub mod order;
pub mod laws;
pub mod extraction_laws;
