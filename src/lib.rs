//! Rendering of markdown event streams into styled, escaped HTML fragments:
//! a frame-stack builder with collision-free heading anchors, grouping of
//! adjacent code blocks, numbered paths for local images, and syntax
//! highlighting of code.

pub mod front_matter;
pub mod highlight;
pub mod image;
pub mod markup;
pub mod meta;
pub mod posts;
pub mod render;
pub mod slug;
pub mod text;
