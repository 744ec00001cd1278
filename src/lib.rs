//! A leader-key / chord hotkey engine.
//!
//! Sequences of key presses ("chords") are compiled into a shared prefix
//! structure, matched incrementally against a stream of key-down events, and
//! turned into application events: immediately, after a quiet period, or as a
//! batch accumulated over a repeatable choice step.
pub mod guarantees;
pub mod key_handler;
pub mod keypress_buffer;
pub mod mapping_manager;
pub mod mapping_trie;
pub mod types;
