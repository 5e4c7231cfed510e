//! Finding the pieces of a large, tile-based world on disk.
//!
//! A world is made of cells within cells: blocks in sections, sections in chunks,
//! chunks in regions, regions in the world. Each region with anything in it lies in
//! a container file of its own.
//!
//! - [`coords`] holds the coordinates, marked with the level they count in and the
//!   level they are counted from, and the two ways between levels, `split` and `join`.
//! - [`container`] reads and writes the names of container files, and [`decimal`]
//!   the numbers in them.
//! - [`regionset`] says which container holds a chunk and whether it has to be
//!   opened, and keeps the handles of the open containers in a bounded cache,
//!   [`cache`].
//! - [`world`] puts a world together from what was found in its directory, and
//!   [`gzip`] unpacks its descriptor.
//! - [`chunk`] holds what is read of a chunk, and [`error`] the error of this library.
//!
//! The library reads no file and opens none: it is told what a directory holds and
//! says what to open.
pub mod cache;
pub mod chunk;
pub mod container;
pub mod coords;
pub mod decimal;
pub mod error;
pub mod gzip;
pub mod regionset;
pub mod world;
