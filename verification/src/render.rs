//! Rendering: output formats, the renderer that collects their output,
//! and the context threaded through every render call.

pub mod common_text;
pub mod html;
pub mod markdown;
pub mod text;

pub use common_text::CommonText;
pub use html::Html;
pub use markdown::Markdown;
pub use text::Text;

use vstd::prelude::*;

use crate::component::ComponentKind;
use crate::location::InternalPath;
use common_text::{ct_enter, ct_exit, ct_write_out, ct_write_state};

verus! {

/// A renderer: an output format together with the characters rendered so
/// far. Every write goes through the format, which may transform it.
pub struct Renderer<W> {
    format: W,
    output: String,
}

impl<W> Renderer<W> {
    /// The characters rendered so far.
    pub closed spec fn out(&self) -> Seq<char> {
        self.output@
    }

    /// The format's current state.
    pub closed spec fn fmt(&self) -> W {
        self.format
    }

    /// A renderer over the given format, with empty output.
    pub fn new(format: W) -> (r: Renderer<W>)
        ensures
            r.fmt() == format,
            r.out() == Seq::<char>::empty(),
    {
        Renderer { format, output: String::new() }
    }

    /// Hands the rendered characters out.
    pub fn into_output(self) -> (r: String)
        ensures
            r@ == self.out(),
    {
        self.output
    }

    /// The rendered characters.
    pub fn output_str(&self) -> (r: &str)
        ensures
            r@ == self.out(),
    {
        self.output.as_str()
    }
}

impl Renderer<Html> {
    /// Writes a chunk: HTML passes it through unchanged.
    pub fn write_str(&mut self, input: &str)
        ensures
            final(self).fmt() == old(self).fmt(),
            final(self).out() == old(self).out() + input@,
    {
        self.format.write(input, &mut self.output);
    }
}

impl Renderer<Markdown> {
    /// Writes a chunk through the normalizer.
    pub fn write_str(&mut self, input: &str)
        ensures
            final(self).fmt()@ == ct_write_state(old(self).fmt()@, input@),
            final(self).out() == old(self).out() + ct_write_out(old(self).fmt()@, input@),
    {
        self.format.write(input, &mut self.output);
    }

    /// Enters one nesting scope of the normalizer.
    pub fn nest_enter(&mut self)
        ensures
            final(self).fmt()@ == ct_enter(old(self).fmt()@),
            final(self).out() == old(self).out(),
    {
        self.format.enter();
    }

    /// Leaves one nesting scope of the normalizer.
    pub fn nest_exit(&mut self)
        ensures
            final(self).fmt()@ == ct_exit(old(self).fmt()@),
            final(self).out() == old(self).out(),
    {
        self.format.exit();
    }
}

impl Renderer<Text> {
    /// Writes a chunk through the normalizer.
    pub fn write_str(&mut self, input: &str)
        ensures
            final(self).fmt()@ == ct_write_state(old(self).fmt()@, input@),
            final(self).out() == old(self).out() + ct_write_out(old(self).fmt()@, input@),
    {
        self.format.write(input, &mut self.output);
    }

    /// Enters one nesting scope of the normalizer.
    pub fn nest_enter(&mut self)
        ensures
            final(self).fmt()@ == ct_enter(old(self).fmt()@),
            final(self).out() == old(self).out(),
    {
        self.format.enter();
    }

    /// Leaves one nesting scope of the normalizer.
    pub fn nest_exit(&mut self)
        ensures
            final(self).fmt()@ == ct_exit(old(self).fmt()@),
            final(self).out() == old(self).out(),
    {
        self.format.exit();
    }
}

/// The context of one render call: the page being rendered, the current
/// section nesting depth, and the kind of component expected here.
#[derive(Clone, Copy)]
pub struct Context<'a, K> {
    location: &'a InternalPath,
    level: u32,
    kind: K,
}

impl<'a, K: ComponentKind> Context<'a, K> {
    /// The fragments of the page's path.
    pub closed spec fn path(&self) -> Seq<Seq<char>> {
        self.location@
    }

    /// The page's path is made of valid fragments.
    pub closed spec fn wf(&self) -> bool {
        self.location.wf()
    }

    /// The current section nesting depth.
    pub closed spec fn lvl(&self) -> u32 {
        self.level
    }

    /// A context at the top of the given page, expecting the given kind.
    pub fn new(location: &'a InternalPath, kind: K) -> (r: Context<'a, K>)
        ensures
            r.path() == location@,
            r.lvl() == 0,
            r.wf() == location.wf(),
    {
        Context { location, level: 0, kind }
    }

    /// The same context, expecting another kind.
    pub fn with_kind<Q: ComponentKind>(self, kind: Q) -> (r: Context<'a, Q>)
        ensures
            r.path() == self.path(),
            r.lvl() == self.lvl(),
            r.wf() == self.wf(),
    {
        Context { location: self.location, level: self.level, kind }
    }

    /// The page being rendered.
    pub fn location(self) -> (r: &'a InternalPath)
        ensures
            r@ == self.path(),
            r.wf() == self.wf(),
    {
        self.location
    }

    /// The current section nesting depth, starting at zero.
    pub fn section_level(self) -> (r: u32)
        ensures
            r == self.lvl(),
    {
        self.level
    }

    /// The context one section deeper. The depth saturates at the
    /// counter's maximum; every depth beyond the clamp of the heading
    /// scale renders the same, so saturation does not change any output.
    pub fn enter_section(self) -> (r: Context<'a, K>)
        ensures
            r.path() == self.path(),
            r.wf() == self.wf(),
            r.lvl() == if self.lvl() < u32::MAX { self.lvl() + 1 } else { u32::MAX as int },
    {
        Context {
            location: self.location,
            level: if self.level < u32::MAX {
                self.level + 1
            } else {
                self.level
            },
            kind: self.kind,
        }
    }

    /// The kind of component this context expects.
    pub fn kind(&self) -> &K {
        &self.kind
    }
}

} // verus!
