//! The declarative configuration that drives one classification call.

use vstd::prelude::*;

verus! {

/// Configuration for one batch call.  It is immutable for the lifetime of
/// the call; the external boundary layer decodes it before the classifier
/// ever runs.
#[derive(Debug, Clone)]
pub struct ProcessConfig {
    /// Root path prefix; items outside it are rejected.  An empty string
    /// places no restriction.
    pub pan_media_dir: String,
    /// Extensions (with or without leading dot, any case) eligible for
    /// stream-reference creation.
    pub rmt_mediaext: Vec<String>,
    /// Extensions eligible for metadata download instead.
    pub download_mediaext: Vec<String>,
    /// Minimum byte size for stream-reference eligibility.
    pub min_file_size: u64,
    /// When true, items matching `download_mediaext` are diverted to
    /// metadata download instead of stream creation.
    pub auto_download_mediainfo: bool,
    /// When true, non-matching items are recorded as skip entries with a
    /// reason; when false they are dropped without record.
    pub detail_log: bool,
}

/// Default of `detail_log`: recording skip entries is on unless switched off.
pub fn default_true() -> (b: bool)
    ensures
        b == true,
{
    true
}

} // verus!
