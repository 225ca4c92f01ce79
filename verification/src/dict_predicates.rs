//! Small standalone predicates of the dictionary layer.

use vstd::prelude::*;
use crate::text::{seq_ends_with, str_ends_with};

verus! {

/// The four polite/plain passive-potential endings that mark a られる form.
pub open spec fn spec_is_rareru(text: Seq<char>) -> bool {
    ||| seq_ends_with(text, "られる"@)
    ||| seq_ends_with(text, "られます"@)
    ||| seq_ends_with(text, "られない"@)
    ||| seq_ends_with(text, "られません"@)
}

/// True when `text` ends with られる, られます, られない or られません.
pub fn is_rareru(text: &str) -> (r: bool)
    ensures
        r == spec_is_rareru(text@),
{
    str_ends_with(text, "られる") || str_ends_with(text, "られます")
        || str_ends_with(text, "られない") || str_ends_with(text, "られません")
}

} // verus!
