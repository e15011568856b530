//! What holds of the library as a whole: laws that relate several of its functions, each proved
//! of the specifications that the functions meet.
pub mod advice;
pub mod blocks;
pub mod causes;
pub mod detections;
pub mod discovery;
pub mod edits;
pub mod failures;
pub mod files;
pub mod lines;
pub mod loaders;
pub mod locations;
pub mod operations;
pub mod outcomes;
pub mod places;
pub mod profiles;
pub mod reading;
pub mod reports;
pub mod scripts;
pub mod shells;
pub mod sourcing;
pub mod spelling;
pub mod syntax;
