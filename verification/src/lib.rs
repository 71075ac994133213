pub mod clock;
pub mod history;
pub mod lang;
pub mod text;
pub mod translate;
pub mod unicode;
pub mod patterns;
pub mod glossary;
pub mod session;
pub mod config;
pub mod audio;
pub mod json;
