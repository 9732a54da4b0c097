//! A small publishing pipeline for a flat catalog of publication issues:
//! the catalog is sorted by volume, grouped into consecutive same-year runs,
//! and rendered as a single HTML index in which every referenced file is
//! listed with two content digests.

pub mod digest;
pub mod group;
pub mod model;
pub mod render;

pub use digest::hash_file;
pub use digest::HashedFile;
pub use model::Config;
pub use render::render;
pub use model::Error;
pub use model::File;
pub use model::Files;
pub use model::Issue;
pub use model::Mirror;
pub use model::Month;
pub use model::Year;
