//! The invocation: which directory to list, and how.
use vstd::prelude::*;
use crate::listing::ListingOptions;

verus! {

/// The flags and the path a listing is asked for with.
#[derive(Clone, Debug)]
pub struct LsArgs {
    /// `-a`: show dotfiles, and `.` and `..` first.
    pub all: bool,
    /// `-A`: show dotfiles, without `.` and `..`.
    pub almost_all: bool,
    /// `-l`: the long format; accepted, and listed as the short one.
    pub long_listing: bool,
    /// The directory to list.
    pub value: String,
}

impl LsArgs {
    /// The options that this invocation lists with.
    pub fn options(&self) -> (r: ListingOptions)
        ensures
            r.show_all == self.all,
            r.show_almost_all == self.almost_all,
            r.target_path@ == self.value@,
    {
        ListingOptions {
            show_all: self.all,
            show_almost_all: self.almost_all,
            target_path: self.value.clone(),
        }
    }
}

} // verus!
