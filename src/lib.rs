//! Rendering of a scrolling, colour-coded market ticker line.
//!
//! The instruments' readouts are joined into one marked-up text
//! ([`composite`]), which is scanned once into its visible characters and
//! their colours ([`markup`], [`tags`], [`indexer`]). A window of a fixed
//! number of visible characters, wrapping round at the end, is then written
//! back as balanced markup ([`window`]). The scroll position is kept between
//! runs together with a fingerprint of the content ([`scroll`], [`record`]).
//! [`snapshot`] holds the decisions of the single-instrument display.

pub mod composite;
pub mod escape;
pub mod indexer;
pub mod markup;
pub mod record;
pub mod reparse;
pub mod scroll;
pub mod snapshot;
pub mod tags;
pub mod text;
pub mod window;
