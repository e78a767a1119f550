//! Renders hierarchically nested Eure articles into HTML: the section tree,
//! its table of contents, and token highlighting of Eure text with fenced
//! code regions spliced in.
pub mod article;
pub mod code_highlight;
pub mod css;
pub mod highlight;
pub mod markup;
pub mod page;
pub mod regions;
pub mod text;
pub mod toc;
