//! The four result categories a classification call produces.

use vstd::prelude::*;

verus! {

/// One stream reference to create.
#[derive(Debug, Clone)]
pub struct StrmResult {
    pub path_in_pan: String,
    pub pickcode: String,
    pub original_file_name: String,
}

/// One file whose extended media metadata is to be downloaded.
#[derive(Debug, Clone)]
pub struct DownloadResult {
    pub path_in_pan: String,
    pub pickcode: String,
    pub sha1: String,
}

/// One file that needs attention, with the reason it could not be handled.
#[derive(Debug, Clone)]
pub struct FailResult {
    pub path_in_pan: String,
    pub reason: String,
}

/// One file that was not applicable, with the reason it was passed over.
#[derive(Debug, Clone)]
pub struct SkipResult {
    pub path_in_pan: String,
    pub reason: String,
}

/// The four ordered result sequences of one classification call.
#[derive(Debug, Clone)]
pub struct PackedResult {
    pub strm_results: Vec<StrmResult>,
    pub download_results: Vec<DownloadResult>,
    pub fail_results: Vec<FailResult>,
    pub skip_results: Vec<SkipResult>,
}

} // verus!
