pub mod element;
pub mod segment;

pub use element::{Element, ElementConfig, ElementItem};
pub use segment::{Segment, SegmentConfig};
