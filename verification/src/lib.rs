//! Frame-stepped timeline interpreter and scheduler for a vector-animation
//! movie format: a depth-indexed scene graph held in an arena, a library of
//! character templates, a queue of deferred script actions, and the pacing
//! and input rules of the player that drives them.
//!
//! The player does no input or output of its own, runs no script and knows
//! no outline of a shape. It is handed the decoded tags of a movie, the time
//! that has passed, the events of the host and the node under the mouse; it
//! changes its own state by its own rules and says, in order, what the host
//! is to do for it. Audio and rendering go through the backends that the
//! host supplies.
//!
//! - [`display_object`] and [`timeline`] say what the scene is and what a
//!   step of a timeline means; [`batch`] says what holds of the tags of a
//!   frame whatever they are; [`movie_clip`] holds the scene as it is
//!   stored and takes the steps.
//! - [`player`] holds the clock, the hover, the drag and the handling of
//!   events.
//! - [`context`] holds the queue of deferred actions.
//! - [`collector`] says which nodes of the arena are garbage and what
//!   collecting them leaves.
//! - [`backend`] holds the capabilities of the host, each with an
//!   implementation that does nothing.

pub mod backend;
pub mod batch;
pub mod character;
pub mod collector;
pub mod context;
pub mod depth_map;
pub mod display_object;
pub mod events;
pub mod library;
pub mod movie_clip;
pub mod player;
pub mod prelude;
pub mod tag_stream;
pub mod timeline;
