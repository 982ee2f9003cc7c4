//! Conversion of HEIC images that are packed in zip archives into JPEG files.
//!
//! The library holds the three stages of the conversion and proves what each of them
//! computes:
//!
//! * [`walk`] enumerates the candidate files below a root path, and [`tree`] proves
//!   what a walk over a directory tree finds;
//! * [`archive`] finds the HEIC entries of one zip archive;
//! * [`transcode`] checks a decoded picture and encodes it as a JPEG.
//!
//! [`names`] holds the rules on file names: which entries are HEIC images, and what the
//! JPEG for a source file is called. Reading directories and files, decoding the HEIC
//! bitstream and writing the result are left to the caller, who hands the library plain
//! values and gets plain values back.
pub mod archive;
pub mod names;
pub mod transcode;
pub mod tree;
pub mod walk;
