//! Animation and sprite-resource layer of a small 2D game client.
//!
//! The library keeps a registry of sprite sheets and a catalog of animation
//! definitions, both loaded once at startup from configuration records, and
//! advances per-entity animation playback state frame by frame.  The host
//! engine (entity storage, asset decoding, audio output, windowing) is an
//! external collaborator: entities, asset handles and the clock appear here
//! as plain values, so every decision the layer makes is stated in contracts
//! and proved.

pub mod anim;
pub mod loading;
pub mod names;
pub mod sheets;
pub mod sound;
pub mod table;
pub mod world;
