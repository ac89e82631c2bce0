use vstd::prelude::*;

pub mod text;
pub mod clock;
pub mod reading_mode;
pub mod ndi;
pub mod books;
pub mod references;
pub mod detection;
pub mod errors;
pub mod bible;
pub mod sessions;
