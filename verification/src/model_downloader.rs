//! The models that the embedding service loads: where they come from, when
//! a stored file counts as a model, and when a download reports progress.

use crate::thumbnail_utils::{sha256_hex_of, verify_sha256};
use vstd::prelude::*;
use vstd::string::*;

verus! {

/// The smallest size of a file that is taken for a model, in bytes. What is
/// smaller is a pointer file or a broken download.
pub const MIN_MODEL_SIZE: u64 = 1_000_000;

/// What is known of a model file.
#[derive(Debug, Clone, Copy)]
pub struct ModelInfo {
    pub filename: &'static str,
    pub url: &'static str,
    /// The digest the file must have, where one is known.
    pub sha256: Option<&'static str>,
    /// The size to expect, for progress reports.
    pub expected_size: u64,
}

/// How far a download is.
#[derive(Debug, Clone, Copy, PartialEq, Eq, Structural)]
pub enum DownloadStatus {
    Starting,
    Downloading,
    Verifying,
    Completed,
    Failed,
}

/// The vision model.
pub fn vision_model() -> (model: ModelInfo)
    ensures
        model.filename@ == "vision_model.onnx"@,
        model.url@
            == "https://github.com/march-works/simple-image-viewer/releases/download/models-v1/vision_model.onnx"@,
        model.sha256.is_none(),
        model.expected_size == 350_000_000,
{
    ModelInfo {
        filename: "vision_model.onnx",
        url: "https://github.com/march-works/simple-image-viewer/releases/download/models-v1/vision_model.onnx",
        sha256: None,
        expected_size: 350_000_000,
    }
}

/// The text model.
pub fn text_model() -> (model: ModelInfo)
    ensures
        model.filename@ == "text_model.onnx"@,
        model.url@
            == "https://github.com/march-works/simple-image-viewer/releases/download/models-v1/text_model.onnx"@,
        model.sha256.is_none(),
        model.expected_size == 254_000_000,
{
    ModelInfo {
        filename: "text_model.onnx",
        url: "https://github.com/march-works/simple-image-viewer/releases/download/models-v1/text_model.onnx",
        sha256: None,
        expected_size: 254_000_000,
    }
}

/// Whether a file of `size` bytes is large enough to be a model.
pub fn has_model_size(size: u64) -> (enough: bool)
    ensures
        enough == (size >= MIN_MODEL_SIZE),
{
    size >= MIN_MODEL_SIZE
}

/// Whether the bytes of a stored file are the model `model`: they are large
/// enough, and have the digest of the model where one is known.
pub fn is_valid_model(model: &ModelInfo, data: &[u8]) -> (valid: bool)
    ensures
        valid == (data@.len() >= MIN_MODEL_SIZE && match model.sha256 {
            Some(expected) => sha256_hex_of(data@) == expected@,
            None => true,
        }),
{
    if !has_model_size(data.len() as u64) {
        return false;
    }
    match model.sha256 {
        Some(expected) => verify_sha256(data, expected),
        None => true,
    }
}

/// Whether a download reports progress after a chunk: after the first chunk,
/// and whenever the bytes received pass another hundredth of the total.
pub open spec fn reports_progress(downloaded: u64, chunk: u64, total: u64) -> bool {
    downloaded == chunk || downloaded % ((total / 100 + 1) as u64) < chunk
}

/// Decides [`reports_progress`].
pub fn should_report_progress(downloaded: u64, chunk: u64, total: u64) -> (report: bool)
    ensures
        report == reports_progress(downloaded, chunk, total),
{
    let step: u64 = total / 100 + 1;
    downloaded == chunk || downloaded % step < chunk
}

/// The total that a download is measured against: the length the server
/// announced, or the size expected of the model.
pub fn download_total(content_length: Option<u64>, model: &ModelInfo) -> (total: u64)
    ensures
        total == match content_length {
            Some(length) => length,
            None => model.expected_size,
        },
{
    match content_length {
        Some(length) => length,
        None => model.expected_size,
    }
}

} // verus!
