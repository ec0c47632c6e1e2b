use vstd::prelude::*;
use vstd::string::StringExecFns;

pub mod filters;
pub mod grouping;
pub mod json;
pub mod model;
pub mod text;
pub mod validation;

pub use crate::filters::{
    filter_creator_friendly, is_bgml_p_license, is_commercial_cc_license, is_creator_friendly,
    is_creator_friendly_song,
};
pub use crate::grouping::group_by_album;
pub use crate::model::{Album, BatchResult, MusicData, ReleaseType, Song};
pub use crate::validation::{batch_validate_songs, validate_music_data, validate_song};

verus! {

/// Reports that the library is ready for use; it needs no setup, so this
/// always holds.
pub fn is_initialized() -> (r: bool)
    ensures
        r,
{
    true
}

/// The version of the library.
pub fn get_version() -> (r: String)
    ensures
        r@ == "0.1.0"@,
{
    String::from_str("0.1.0")
}

} // verus!
