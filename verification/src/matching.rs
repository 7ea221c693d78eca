//! Rules by which an adapter recognises the files it applies to.

use vstd::prelude::*;

verus! {

/// A rule that needs nothing but the file's name.
#[derive(Debug)]
pub enum FastMatcher {
    /// The file name ends in a dot followed by this extension.
    FileExtension(String),
}

/// A rule that may need the file's detected content type.
#[derive(Debug)]
pub enum SlowMatcher {
    /// A cheap rule, usable where no content type is at hand.
    Fast(FastMatcher),
    /// The detected content type equals this MIME type.
    MimeType(String),
}

impl Clone for FastMatcher {
    fn clone(&self) -> (r: Self)
        ensures
            r == *self,
    {
        match self {
            FastMatcher::FileExtension(ext) => FastMatcher::FileExtension(ext.clone()),
        }
    }
}

impl Clone for SlowMatcher {
    fn clone(&self) -> (r: Self)
        ensures
            r == *self,
    {
        match self {
            SlowMatcher::Fast(fast) => SlowMatcher::Fast(fast.clone()),
            SlowMatcher::MimeType(mime) => SlowMatcher::MimeType(mime.clone()),
        }
    }
}

} // verus!
