//! The HTML output format: writes pass through untouched.

use vstd::prelude::*;
use vstd::string::*;

verus! {

/// HTML5 rendering format. Callers escape their own text; the format
/// itself transforms nothing.
#[derive(Debug, Clone, Copy, PartialEq, Eq)]
pub struct Html;

impl Html {
    /// Appends `input` to `out` unchanged.
    pub fn write(&mut self, input: &str, out: &mut String)
        ensures
            *final(self) == *old(self),
            final(out)@ == old(out)@ + input@,
    {
        out.append(input);
    }
}

impl Default for Html {
    /// There is only one HTML format value.
    fn default() -> (r: Html)
        ensures
            r == Html,
    {
        Html
    }
}

} // verus!
