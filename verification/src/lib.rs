//! A small Wayland compositor: the verified core.

pub mod announcements;
pub mod asked;
pub mod buffers;
pub mod client;
pub mod compositor;
pub mod config;
pub mod cursor;
pub mod departure;
pub mod dmabuf;
pub mod drags;
pub mod events;
pub mod extents;
pub mod focus;
pub mod frames;
pub mod framing;
pub mod grabs;
pub mod heard;
pub mod hits;
pub mod keys;
pub mod moves;
pub mod objects;
pub mod outcomes;
pub mod pacer;
pub mod places;
pub mod pointer;
pub mod popups;
pub mod positioner;
pub mod protocol;
pub mod queues;
pub mod scene;
pub mod scrolls;
pub mod seqs;
pub mod shared;
pub mod sharing;
pub mod shell;
pub mod sightings;
pub mod state;
pub mod table;
pub mod text;
pub mod textures;
pub mod touch;
pub mod transfer;
pub mod tree;
pub mod windows;
pub mod wire;
pub mod workspace;
