//! The plain-text output format, built on the shared text normalizer.

use vstd::prelude::*;

use super::common_text::{ct_enter, ct_exit, ct_initial, ct_write_out, ct_write_state, CommonText};

verus! {

/// The plain-text rendering format.
#[derive(Debug, Clone, Copy, PartialEq, Eq)]
pub struct Text {
    inner: CommonText,
}

impl View for Text {
    type V = CommonText;

    closed spec fn view(&self) -> CommonText {
        self.inner
    }
}

impl Text {
    /// A fresh plain-text format with the given indentation size in
    /// spaces.
    pub fn new(indent_size: u32) -> (r: Text)
        ensures
            r@ == ct_initial(indent_size),
    {
        Text { inner: CommonText::new(indent_size) }
    }

    /// Writes one chunk through the normalizer.
    pub fn write(&mut self, input: &str, out: &mut String)
        ensures
            final(self)@ == ct_write_state(old(self)@, input@),
            final(out)@ == old(out)@ + ct_write_out(old(self)@, input@),
    {
        self.inner.write_str(input, out);
    }

    /// Enters one nesting scope.
    pub fn enter(&mut self)
        ensures
            final(self)@ == ct_enter(old(self)@),
    {
        self.inner.enter();
    }

    /// Leaves one nesting scope.
    pub fn exit(&mut self)
        ensures
            final(self)@ == ct_exit(old(self)@),
    {
        self.inner.exit();
    }
}

impl Default for Text {
    /// The default plain-text format indents by four spaces per step.
    fn default() -> (r: Text)
        ensures
            r@ == ct_initial(4),
    {
        Text::new(4)
    }
}

/// The nesting scope of the plain-text format: one indentation step
/// deeper for the writes between entering and leaving.
#[derive(Debug, Clone, Copy)]
pub struct Nest;

impl Nest {
    /// Enters the nesting scope: writes between this and the matching
    /// leave are indented one step deeper.
    pub fn enter(r: &mut crate::render::Renderer<Text>)
        ensures
            final(r).fmt()@ == ct_enter(old(r).fmt()@),
            final(r).out() == old(r).out(),
    {
        r.nest_enter();
    }

    /// Leaves the nesting scope.
    pub fn exit(r: &mut crate::render::Renderer<Text>)
        ensures
            final(r).fmt()@ == ct_exit(old(r).fmt()@),
            final(r).out() == old(r).out(),
    {
        r.nest_exit();
    }
}

} // verus!
