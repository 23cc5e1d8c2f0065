//! Decoding of the binary container structure of JPEG image files and the
//! embedded TIFF/Exif metadata directory, plus emission of simple PDF
//! documents built around the decoded images.
//!
//! The marker tokenizer reads a byte stream one logical piece at a time; the
//! block decoder reads a whole file into structural blocks and derives a
//! fully populated image record, delegating embedded Exif payloads to the
//! TIFF directory reader; the remaining modules render pages assembled
//! around such images into PDF bytes.

pub mod config;
pub mod exif;
pub mod file_to_pdf;
pub mod image_path;
pub mod jpeg;
pub mod model;
pub mod pdf;
pub mod tokenizer;
pub mod upload;
