//! Typed failures of the engine. All are detected synchronously at the
//! start of the relevant operation; nothing is retried internally.

use vstd::prelude::*;

verus! {

/// Why an operation was refused.
#[derive(Clone, Copy, Debug, PartialEq, Eq, Structural)]
pub enum Error {
    /// The palette is empty, or larger than the number of distinct
    /// 8-bit RGB colors (such a palette cannot be duplicate-free).
    InvalidPalette,
    /// The requested cube resolution level is zero.
    InvalidResolution,
    /// An out-of-range blend, kernel, neighbor-count or iteration value
    /// was caught at configuration construction time.
    InvalidParameter,
    /// The image has zero width or zero height.
    EmptyImage,
}

impl Error {
    /// A short human-readable description.
    pub fn describe(&self) -> (r: String)
        ensures
            r@.len() > 0,
    {
        let s = match self {
            Error::InvalidPalette => "invalid palette",
            Error::InvalidResolution => "invalid resolution level",
            Error::InvalidParameter => "invalid parameter",
            Error::EmptyImage => "empty image",
        };
        let r = s.to_string();
        proof {
            reveal_strlit("invalid palette");
            reveal_strlit("invalid resolution level");
            reveal_strlit("invalid parameter");
            reveal_strlit("empty image");
        }
        r
    }
}

} // verus!
