//! Core logic of a PDF viewer: the document registry and tile cache of the
//! renderer, the bookmark outline builder, search accumulation, the tile URL
//! parser, recent-documents bookkeeping, print planning, and the content and PDF
//! objects of the synthetic test corpus.

pub mod text;
pub mod error;
pub mod model;
pub mod tile_cache;
pub mod png;
pub mod outline;
pub mod search;
pub mod selection;
pub mod renderer;
pub mod tile_path;
pub mod platform;
pub mod corpus;
pub mod pdf_doc;
pub mod corpus_pdf;
