//! Packs decoded raster images into an Apple icon family (ICNS), choosing for
//! each image the icon slot it fills, shrinking oversized images to the next
//! power of two, and keeping the first image offered for each slot. Also reads
//! the asset catalog compiler's version report and asset listing.
pub mod catalog;
pub mod family;
pub mod pixels;
pub mod slot;
pub mod version;
