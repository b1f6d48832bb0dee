//! The verified core of a desktop pet that keeps a person's stock phrases.
pub mod anim;
pub mod clock;
pub mod effects;
pub mod files;
pub mod icons;
pub mod import;
pub mod laws;
pub mod notices;
pub mod page;
pub mod panel;
pub mod pet;
pub mod session;
pub mod storage;
pub mod text;
pub mod update;
