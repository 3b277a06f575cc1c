//! Uploads to Qiniu object storage: the direct upload of a file and the upload
//! in parts, with the tokens, addresses and headers of their requests.
//!
//! The library decides what is sent, in which order, and what an answer leads
//! to. Sending the requests and reading the file is up to its user.

pub mod course;
pub mod direct;
pub mod encoding;
pub mod error;
pub mod headers;
pub mod laws;
pub mod multipart;
pub mod plan;
pub mod policy;
pub mod region;
pub mod request;
pub mod run;
pub mod text;
pub mod uploader;

pub use region::QiniuRegionEnum;
pub use uploader::QiniuUploader;
