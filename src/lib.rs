//! Lifecycle and coordination engine for desktop overlay widgets: drag and
//! smart-hide state machines, the registry of live overlays, the pool of
//! reusable window surfaces, the preset store and the command bridge that
//! the tray thread feeds into the UI loop.

pub mod pool;
pub mod preset;
pub mod instance;
pub mod registry;
pub mod engine;
pub mod bridge;
