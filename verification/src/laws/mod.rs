//! What holds of the library as a whole, stated over what goes in and what comes out.

pub mod amounts;
pub mod collecting;
pub mod doubles;
pub mod exporting;
pub mod exposition;
pub mod lists;
pub mod observing;
pub mod orderings;
pub mod otlp;
pub mod printing;
pub mod resources;
pub mod texts;
pub mod values;
