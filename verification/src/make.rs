//! The build-tool handle: the resolved path of the `make` executable. The
//! trace collection and the real build around it are process work and live
//! with the callers outside the library.

use vstd::prelude::*;
use crate::env::which_lookup;

verus! {

/// A handle on the build tool, holding the path it will be invoked by.
pub struct MakeWrapper {
    make_path: String,
}

impl View for MakeWrapper {
    type V = Seq<char>;

    closed spec fn view(&self) -> Seq<char> {
        self.make_path@
    }
}

impl MakeWrapper {
    /// Resolve `make` against the runtime's executable search path, falling
    /// back to the bare name when resolution fails; the outcome depends on
    /// the machine.
    pub fn new() -> (r: MakeWrapper) {
        let make_path = match which_lookup("make") {
            Some(p) => p,
            None => "make".to_owned(),
        };
        MakeWrapper { make_path }
    }

    /// The path the build tool will be invoked by.
    pub fn make_path(&self) -> (r: &String)
        ensures
            r@ == self@,
    {
        &self.make_path
    }
}

impl Default for MakeWrapper {
    fn default() -> (r: MakeWrapper) {
        MakeWrapper::new()
    }
}

} // verus!
