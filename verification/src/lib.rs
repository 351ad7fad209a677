//! Rich-text paragraph segmentation and rendering for card descriptions.
//!
//! A card's description is a *rich string*: an ordered sequence of typed
//! fragments (plain runs, card references, card-search links, nested
//! enumerated blocks, explicit line breaks). This crate turns such a
//! sequence into a tree of paragraphs and renders each paragraph to a
//! presentational block, recursing into nested blocks.

pub mod laws;
pub mod model;
pub mod nesting;
pub mod render;
pub mod segment;
pub mod text;
pub mod views;

pub use model::Paragraph;
pub use model::RichElement;
pub use model::RichString;
pub use render::render;
pub use render::render_rich_string;
pub use render::RenderBlock;
pub use render::RenderNode;
pub use render::RenderedItem;
pub use segment::segment;
