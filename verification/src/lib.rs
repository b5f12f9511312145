//! The decisions a font compiler makes around static instances, PostScript
//! outlines and Glyphs sources, each stated as a contract and proved.

pub mod args;
pub mod cff;
pub mod cff2;
pub mod cff2_build;
pub mod cff_build;
pub mod color_glyphs;
pub mod coords;
pub mod error;
pub mod font_info;
pub mod glyph;
pub mod glyphs_source;
pub mod instance;
pub mod kerning;
pub mod lookup;
pub mod messages;
pub mod metric_variations;
pub mod numeric;
pub mod paint;
pub mod pin;
pub mod pin_metadata;
pub mod post;
pub mod postscript;
pub mod predicate;
pub mod results_cache;
pub mod source_axes;
pub mod static_metadata;
pub mod text;
pub mod toir;
pub mod vertical_metrics;
pub mod work;
