//! Inline content nodes: text and text-level markup.

use vstd::prelude::*;

use crate::component::location::location_href;
use crate::escape::{escape_html, escape_md, html_escaped, md_escaped};
use crate::location::Location;
use crate::render::common_text::{renders, lemma_run_concat, lemma_run_one, ct_initial, run_out, run_state, TextEvent};
use crate::location::InternalPath;
use crate::render::{Context, Html, Markdown, Renderer, Text};

use super::ComponentKind;

verus! {

/// The kind of components inlined in running text.
#[derive(Debug, Clone, Copy, PartialEq, Eq, Default)]
pub struct InlineComponent;

impl ComponentKind for InlineComponent {

}

/// Inline text shown bold.
#[derive(Debug)]
pub struct Bold(pub Box<Inline>);

/// Inline text shown italic.
#[derive(Debug)]
pub struct Italic(pub Box<Inline>);

/// Inline text shown preformatted.
#[derive(Debug)]
pub struct Preformatted(pub Box<Inline>);

/// A link: inline text pointing at a location.
#[derive(Debug)]
pub struct Link {
    /// The text shown for the link.
    pub target: Box<Inline>,
    /// Where the link points.
    pub location: Location,
}

/// An audio clip inlined in text, with a textual stand-in.
#[derive(Debug)]
pub struct Audio {
    /// Where the clip lives.
    pub location: Location,
    /// The text standing in for the clip where it cannot play.
    pub alt: String,
}

/// An inline content node: plain text, text-level markup around further
/// inline content, a link, an audio clip, or a sequence of inline nodes.
#[derive(Debug)]
pub enum Inline {
    /// Plain text, escaped on the way out.
    Text(String),
    /// Bold markup.
    Bold(Bold),
    /// Italic markup.
    Italic(Italic),
    /// Preformatted markup.
    Preformatted(Preformatted),
    /// A link.
    Link(Link),
    /// An audio clip.
    Audio(Audio),
    /// Several inline nodes, rendered in order.
    Sequence(Vec<Inline>),
}

impl Inline {
    /// Every location inside the node passed validation.
    pub open spec fn wf(self) -> bool
        decreases self,
    {
        match self {
            Inline::Text(_) => true,
            Inline::Bold(b) => b.0.wf(),
            Inline::Italic(b) => b.0.wf(),
            Inline::Preformatted(b) => b.0.wf(),
            Inline::Link(l) => l.location.wf() && l.target.wf(),
            Inline::Audio(a) => a.location.wf(),
            Inline::Sequence(v) => forall|i: int| 0 <= i < v@.len() ==> (#[trigger] v@[i]).wf(),
        }
    }

    /// The HTML this node renders as, on the page at `page`.
    pub open spec fn html_out(self, page: Seq<Seq<char>>) -> Seq<char>
        decreases self,
    {
        match self {
            Inline::Text(s) => html_escaped(s@),
            Inline::Bold(b) => "<span class=\"pedia-bold\">"@ + b.0.html_out(page)
                + "</span>"@,
            Inline::Italic(b) => "<span class=\"pedia-italic\">"@ + b.0.html_out(page)
                + "</span>"@,
            Inline::Preformatted(b) => "<span class=\"pedia-preformatted\">"@ + b.0.html_out(
                page,
            ) + "</span>"@,
            Inline::Link(l) => "<a class=\"pedia-link\" href=\""@ + location_href(
                l.location,
                page,
            ) + "\">"@ + l.target.html_out(page) + "</a>"@,
            Inline::Audio(a) => "<audio class=\"pedia-audio\" controls src=\""@
                + location_href(a.location, page) + "\">"@ + html_escaped(a.alt@)
                + "</audio>"@,
            Inline::Sequence(v) => inlines_html_out(v@, page),
        }
    }

    /// The chunks this node writes when rendered as Markdown, on the page
    /// at `page`.
    pub open spec fn md_events(self, page: Seq<Seq<char>>) -> Seq<TextEvent>
        decreases self,
    {
        match self {
            Inline::Text(s) => seq![TextEvent::Write(md_escaped(s@))],
            Inline::Bold(b) => seq![TextEvent::Write("**"@)] + b.0.md_events(page)
                + seq![TextEvent::Write("**"@)],
            Inline::Italic(b) => seq![TextEvent::Write("_"@)] + b.0.md_events(page)
                + seq![TextEvent::Write("_"@)],
            Inline::Preformatted(b) => seq![TextEvent::Write("<pre>"@)] + b.0.md_events(page)
                + seq![TextEvent::Write("</pre>"@)],
            Inline::Link(l) => seq![TextEvent::Write("["@)] + l.target.md_events(page)
                + seq![TextEvent::Write("]("@)]
                + seq![TextEvent::Write(location_href(l.location, page))]
                + seq![TextEvent::Write(")"@)],
            Inline::Audio(a) => seq![
                TextEvent::Write("<audio class=\"pedia-audio\" controls src=\""@),
            ] + seq![TextEvent::Write(location_href(a.location, page))]
                + seq![TextEvent::Write("\">"@)]
                + seq![TextEvent::Write(md_escaped(a.alt@))]
                + seq![TextEvent::Write("</audio>"@)],
            Inline::Sequence(v) => inlines_md_events(v@, page),
        }
    }

    /// The chunks this node writes when rendered as plain text.
    pub open spec fn text_events(self, page: Seq<Seq<char>>) -> Seq<TextEvent>
        decreases self,
    {
        match self {
            Inline::Text(s) => seq![TextEvent::Write(s@)],
            Inline::Bold(b) => b.0.text_events(page),
            Inline::Italic(b) => b.0.text_events(page),
            Inline::Preformatted(b) => b.0.text_events(page),
            Inline::Link(l) => l.target.text_events(page),
            Inline::Audio(a) => seq![TextEvent::Write("["@)] + seq![TextEvent::Write(a.alt@)]
                + seq![TextEvent::Write("]"@)],
            Inline::Sequence(v) => inlines_text_events(v@, page),
        }
    }
}

/// The HTML of a sequence of inline nodes, in order.
pub open spec fn inlines_html_out(items: Seq<Inline>, page: Seq<Seq<char>>) -> Seq<char>
    decreases items,
{
    if items.len() == 0 {
        Seq::empty()
    } else {
        inlines_html_out(items.drop_last(), page) + items.last().html_out(page)
    }
}

/// The Markdown chunks of a sequence of inline nodes, in order.
pub open spec fn inlines_md_events(items: Seq<Inline>, page: Seq<Seq<char>>) -> Seq<TextEvent>
    decreases items,
{
    if items.len() == 0 {
        Seq::empty()
    } else {
        inlines_md_events(items.drop_last(), page) + items.last().md_events(page)
    }
}

/// The plain-text chunks of a sequence of inline nodes, in order.
pub open spec fn inlines_text_events(items: Seq<Inline>, page: Seq<Seq<char>>) -> Seq<TextEvent>
    decreases items,
{
    if items.len() == 0 {
        Seq::empty()
    } else {
        inlines_text_events(items.drop_last(), page) + items.last().text_events(page)
    }
}

impl Inline {
    /// Renders this node as HTML.
    pub fn render_html(&self, r: &mut Renderer<Html>, ctx: Context<'_, InlineComponent>)
        requires
            self.wf(),
        ensures
            final(r).fmt() == old(r).fmt(),
            final(r).out() == old(r).out() + self.html_out(ctx.path()),
        decreases *self,
    {
        match self {
            Inline::Text(s) => {
                let escaped = escape_html(s.as_str());
                r.write_str(escaped.as_str());
            },
            Inline::Bold(b) => {
                r.write_str("<span class=\"pedia-bold\">");
                b.0.render_html(r, ctx);
                r.write_str("</span>");
                proof {
                    assert(r.out() =~= old(r).out() + self.html_out(ctx.path()));
                }
            },
            Inline::Italic(b) => {
                r.write_str("<span class=\"pedia-italic\">");
                b.0.render_html(r, ctx);
                r.write_str("</span>");
                proof {
                    assert(r.out() =~= old(r).out() + self.html_out(ctx.path()));
                }
            },
            Inline::Preformatted(b) => {
                r.write_str("<span class=\"pedia-preformatted\">");
                b.0.render_html(r, ctx);
                r.write_str("</span>");
                proof {
                    assert(r.out() =~= old(r).out() + self.html_out(ctx.path()));
                }
            },
            Inline::Link(l) => {
                r.write_str("<a class=\"pedia-link\" href=\"");
                let href = crate::component::location::render_href(&l.location, ctx.location());
                r.write_str(href.as_str());
                r.write_str("\">");
                l.target.render_html(r, ctx);
                r.write_str("</a>");
                proof {
                    assert(r.out() =~= old(r).out() + self.html_out(ctx.path()));
                }
            },
            Inline::Audio(a) => {
                r.write_str("<audio class=\"pedia-audio\" controls src=\"");
                let href = crate::component::location::render_href(&a.location, ctx.location());
                r.write_str(href.as_str());
                r.write_str("\">");
                let escaped = escape_html(a.alt.as_str());
                r.write_str(escaped.as_str());
                r.write_str("</audio>");
                proof {
                    assert(r.out() =~= old(r).out() + self.html_out(ctx.path()));
                }
            },
            Inline::Sequence(v) => {
                let ghost out0 = r.out();
                proof {
                    assert(forall|j: int| 0 <= j < v@.len() ==> (#[trigger] v@[j]).wf());
                }
                let mut i: usize = 0;
                while i < v.len()
                    invariant
                        0 <= i <= v.len(),
                        *self == Inline::Sequence(*v),
                        forall|j: int| 0 <= j < v@.len() ==> (#[trigger] v@[j]).wf(),
                        r.fmt() == old(r).fmt(),
                        r.out() == out0 + inlines_html_out(v@.take(i as int), ctx.path()),
                        out0 == old(r).out(),
                    decreases v.len() - i,
                {
                    proof {
                        assert(*v == self->Sequence_0);
                        assert(decreases_to!(*self => self->Sequence_0));
                        assert(decreases_to!(*v => v@));
                        assert(decreases_to!(v@ => v@[i as int]));
                    }
                    let item = &v[i];
                    item.render_html(r, ctx);
                    proof {
                        assert(v@.take(i + 1).drop_last() =~= v@.take(i as int));
                        assert(v@.take(i + 1).last() == v@[i as int]);
                        assert(r.out() =~= out0 + inlines_html_out(v@.take(i + 1), ctx.path()));
                    }
                    i += 1;
                }
                proof {
                    assert(v@.take(v@.len() as int) =~= v@);
                }
            },
        }
    }
}

impl Inline {
    /// Renders this node as Markdown.
    pub fn render_markdown(&self, r: &mut Renderer<Markdown>, ctx: Context<'_, InlineComponent>)
        requires
            self.wf(),
        ensures
            renders(
                old(r).fmt()@,
                old(r).out(),
                final(r).fmt()@,
                final(r).out(),
                self.md_events(ctx.path()),
            ),
        decreases *self,
    {
        let ghost st0 = r.fmt()@;
        let ghost out0 = r.out();
        let ghost page = ctx.path();
        match self {
            Inline::Text(s) => {
                let escaped = escape_md(s.as_str());
                r.write_str(escaped.as_str());
                proof {
                    lemma_run_one(st0, TextEvent::Write(md_escaped(s@)));
                }
            },
            Inline::Bold(b) => {
                let ghost e1 = seq![TextEvent::Write("**"@)];
                r.write_str("**");
                proof {
                    lemma_run_one(st0, TextEvent::Write("**"@));
                }
                b.0.render_markdown(r, ctx);
                let ghost e2 = b.0.md_events(page);
                proof {
                    lemma_run_concat(st0, e1, e2);
                }
                r.write_str("**");
                proof {
                    lemma_run_one(run_state(st0, e1 + e2), TextEvent::Write("**"@));
                    lemma_run_concat(st0, e1 + e2, e1);
                    assert(r.out() =~= out0 + run_out(st0, (e1 + e2) + e1));
                }
            },
            Inline::Italic(b) => {
                let ghost e1 = seq![TextEvent::Write("_"@)];
                r.write_str("_");
                proof {
                    lemma_run_one(st0, TextEvent::Write("_"@));
                }
                b.0.render_markdown(r, ctx);
                let ghost e2 = b.0.md_events(page);
                proof {
                    lemma_run_concat(st0, e1, e2);
                }
                r.write_str("_");
                proof {
                    lemma_run_one(run_state(st0, e1 + e2), TextEvent::Write("_"@));
                    lemma_run_concat(st0, e1 + e2, e1);
                    assert(r.out() =~= out0 + run_out(st0, (e1 + e2) + e1));
                }
            },
            Inline::Preformatted(b) => {
                let ghost e1 = seq![TextEvent::Write("<pre>"@)];
                let ghost e3 = seq![TextEvent::Write("</pre>"@)];
                r.write_str("<pre>");
                proof {
                    lemma_run_one(st0, TextEvent::Write("<pre>"@));
                }
                b.0.render_markdown(r, ctx);
                let ghost e2 = b.0.md_events(page);
                proof {
                    lemma_run_concat(st0, e1, e2);
                }
                r.write_str("</pre>");
                proof {
                    lemma_run_one(run_state(st0, e1 + e2), TextEvent::Write("</pre>"@));
                    lemma_run_concat(st0, e1 + e2, e3);
                    assert(r.out() =~= out0 + run_out(st0, (e1 + e2) + e3));
                }
            },
            Inline::Link(l) => {
                let ghost e1 = seq![TextEvent::Write("["@)];
                r.write_str("[");
                proof {
                    lemma_run_one(st0, TextEvent::Write("["@));
                }
                l.target.render_markdown(r, ctx);
                let ghost e2 = l.target.md_events(page);
                proof {
                    lemma_run_concat(st0, e1, e2);
                }
                let ghost e3 = seq![TextEvent::Write("]("@)];
                r.write_str("](");
                proof {
                    lemma_run_one(run_state(st0, e1 + e2), TextEvent::Write("]("@));
                    lemma_run_concat(st0, e1 + e2, e3);
                }
                let href = crate::component::location::render_href(&l.location, ctx.location());
                let ghost e4 = seq![TextEvent::Write(location_href(l.location, page))];
                r.write_str(href.as_str());
                proof {
                    lemma_run_one(
                        run_state(st0, (e1 + e2) + e3),
                        TextEvent::Write(location_href(l.location, page)),
                    );
                    lemma_run_concat(st0, (e1 + e2) + e3, e4);
                }
                let ghost e5 = seq![TextEvent::Write(")"@)];
                r.write_str(")");
                proof {
                    lemma_run_one(run_state(st0, ((e1 + e2) + e3) + e4), TextEvent::Write(")"@));
                    lemma_run_concat(st0, ((e1 + e2) + e3) + e4, e5);
                    assert(r.out() =~= out0 + run_out(st0, (((e1 + e2) + e3) + e4) + e5));
                }
            },
            Inline::Audio(a) => {
                let ghost e1 = seq![
                    TextEvent::Write("<audio class=\"pedia-audio\" controls src=\""@),
                ];
                r.write_str("<audio class=\"pedia-audio\" controls src=\"");
                proof {
                    lemma_run_one(
                        st0,
                        TextEvent::Write("<audio class=\"pedia-audio\" controls src=\""@),
                    );
                }
                let href = crate::component::location::render_href(&a.location, ctx.location());
                let ghost e2 = seq![TextEvent::Write(location_href(a.location, page))];
                r.write_str(href.as_str());
                proof {
                    lemma_run_one(
                        run_state(st0, e1),
                        TextEvent::Write(location_href(a.location, page)),
                    );
                    lemma_run_concat(st0, e1, e2);
                }
                let ghost e3 = seq![TextEvent::Write("\">"@)];
                r.write_str("\">");
                proof {
                    lemma_run_one(run_state(st0, e1 + e2), TextEvent::Write("\">"@));
                    lemma_run_concat(st0, e1 + e2, e3);
                }
                let escaped = escape_md(a.alt.as_str());
                let ghost e4 = seq![TextEvent::Write(md_escaped(a.alt@))];
                r.write_str(escaped.as_str());
                proof {
                    lemma_run_one(
                        run_state(st0, (e1 + e2) + e3),
                        TextEvent::Write(md_escaped(a.alt@)),
                    );
                    lemma_run_concat(st0, (e1 + e2) + e3, e4);
                }
                let ghost e5 = seq![TextEvent::Write("</audio>"@)];
                r.write_str("</audio>");
                proof {
                    lemma_run_one(
                        run_state(st0, ((e1 + e2) + e3) + e4),
                        TextEvent::Write("</audio>"@),
                    );
                    lemma_run_concat(st0, ((e1 + e2) + e3) + e4, e5);
                    assert(r.out() =~= out0 + run_out(st0, (((e1 + e2) + e3) + e4) + e5));
                }
            },
            Inline::Sequence(v) => {
                proof {
                    assert(forall|j: int| 0 <= j < v@.len() ==> (#[trigger] v@[j]).wf());
                    assert(v@.take(0) =~= Seq::<Inline>::empty());
                    assert(r.out() =~= out0 + run_out(st0, inlines_md_events(v@.take(0), page)));
                }
                let mut i: usize = 0;
                while i < v.len()
                    invariant
                        0 <= i <= v.len(),
                        *self == Inline::Sequence(*v),
                        forall|j: int| 0 <= j < v@.len() ==> (#[trigger] v@[j]).wf(),
                        page == ctx.path(),
                        renders(
                            st0,
                            out0,
                            r.fmt()@,
                            r.out(),
                            inlines_md_events(v@.take(i as int), page),
                        ),
                        st0 == old(r).fmt()@,
                        out0 == old(r).out(),
                    decreases v.len() - i,
                {
                    proof {
                        assert(*v == self->Sequence_0);
                        assert(decreases_to!(*self => self->Sequence_0));
                        assert(decreases_to!(*v => v@));
                        assert(decreases_to!(v@ => v@[i as int]));
                    }
                    let item = &v[i];
                    item.render_markdown(r, ctx);
                    proof {
                        lemma_run_concat(
                            st0,
                            inlines_md_events(v@.take(i as int), page),
                            v@[i as int].md_events(page),
                        );
                        assert(v@.take(i + 1).drop_last() =~= v@.take(i as int));
                        assert(v@.take(i + 1).last() == v@[i as int]);
                        assert(r.out() =~= out0 + run_out(
                            st0,
                            inlines_md_events(v@.take(i + 1), page),
                        ));
                    }
                    i += 1;
                }
                proof {
                    assert(v@.take(v@.len() as int) =~= v@);
                }
            },
        }
    }

    /// Renders this node as plain text.
    pub fn render_text(&self, r: &mut Renderer<Text>, ctx: Context<'_, InlineComponent>)
        requires
            self.wf(),
        ensures
            renders(
                old(r).fmt()@,
                old(r).out(),
                final(r).fmt()@,
                final(r).out(),
                self.text_events(ctx.path()),
            ),
        decreases *self,
    {
        let ghost st0 = r.fmt()@;
        let ghost out0 = r.out();
        let ghost page = ctx.path();
        match self {
            Inline::Text(s) => {
                r.write_str(s.as_str());
                proof {
                    lemma_run_one(st0, TextEvent::Write(s@));
                }
            },
            Inline::Bold(b) => {
                b.0.render_text(r, ctx);
            },
            Inline::Italic(b) => {
                b.0.render_text(r, ctx);
            },
            Inline::Preformatted(b) => {
                b.0.render_text(r, ctx);
            },
            Inline::Link(l) => {
                l.target.render_text(r, ctx);
            },
            Inline::Audio(a) => {
                let ghost e1 = seq![TextEvent::Write("["@)];
                r.write_str("[");
                proof {
                    lemma_run_one(st0, TextEvent::Write("["@));
                }
                let ghost e2 = seq![TextEvent::Write(a.alt@)];
                r.write_str(a.alt.as_str());
                proof {
                    lemma_run_one(run_state(st0, e1), TextEvent::Write(a.alt@));
                    lemma_run_concat(st0, e1, e2);
                }
                let ghost e3 = seq![TextEvent::Write("]"@)];
                r.write_str("]");
                proof {
                    lemma_run_one(run_state(st0, e1 + e2), TextEvent::Write("]"@));
                    lemma_run_concat(st0, e1 + e2, e3);
                    assert(r.out() =~= out0 + run_out(st0, (e1 + e2) + e3));
                }
            },
            Inline::Sequence(v) => {
                proof {
                    assert(forall|j: int| 0 <= j < v@.len() ==> (#[trigger] v@[j]).wf());
                    assert(v@.take(0) =~= Seq::<Inline>::empty());
                    assert(r.out() =~= out0 + run_out(
                        st0,
                        inlines_text_events(v@.take(0), page),
                    ));
                }
                let mut i: usize = 0;
                while i < v.len()
                    invariant
                        0 <= i <= v.len(),
                        *self == Inline::Sequence(*v),
                        forall|j: int| 0 <= j < v@.len() ==> (#[trigger] v@[j]).wf(),
                        page == ctx.path(),
                        renders(
                            st0,
                            out0,
                            r.fmt()@,
                            r.out(),
                            inlines_text_events(v@.take(i as int), page),
                        ),
                        st0 == old(r).fmt()@,
                        out0 == old(r).out(),
                    decreases v.len() - i,
                {
                    proof {
                        assert(*v == self->Sequence_0);
                        assert(decreases_to!(*self => self->Sequence_0));
                        assert(decreases_to!(*v => v@));
                        assert(decreases_to!(v@ => v@[i as int]));
                    }
                    let item = &v[i];
                    item.render_text(r, ctx);
                    proof {
                        lemma_run_concat(
                            st0,
                            inlines_text_events(v@.take(i as int), page),
                            v@[i as int].text_events(page),
                        );
                        assert(v@.take(i + 1).drop_last() =~= v@.take(i as int));
                        assert(v@.take(i + 1).last() == v@[i as int]);
                        assert(r.out() =~= out0 + run_out(
                            st0,
                            inlines_text_events(v@.take(i + 1), page),
                        ));
                    }
                    i += 1;
                }
                proof {
                    assert(v@.take(v@.len() as int) =~= v@);
                }
            },
        }
    }
}

impl Inline {
    /// The HTML this node renders as, on the page at `page`.
    pub fn to_html_string(&self, page: &InternalPath) -> (r: String)
        requires
            self.wf(),
        ensures
            r@ == self.html_out(page@),
    {
        let mut rd = Renderer::new(Html);
        self.render_html(&mut rd, Context::new(page, InlineComponent));
        let out = rd.into_output();
        proof {
            assert(out@ =~= self.html_out(page@));
        }
        out
    }

    /// The Markdown this node renders as, through a fresh default
    /// normalizer.
    pub fn to_markdown_string(&self, page: &InternalPath) -> (r: String)
        requires
            self.wf(),
        ensures
            r@ == run_out(ct_initial(4), self.md_events(page@)),
    {
        let mut rd = Renderer::new(Markdown::new(4));
        self.render_markdown(&mut rd, Context::new(page, InlineComponent));
        let out = rd.into_output();
        proof {
            assert(out@ =~= run_out(ct_initial(4), self.md_events(page@)));
        }
        out
    }

    /// The plain text this node renders as, through a fresh default
    /// normalizer.
    pub fn to_text_string(&self, page: &InternalPath) -> (r: String)
        requires
            self.wf(),
        ensures
            r@ == run_out(ct_initial(4), self.text_events(page@)),
    {
        let mut rd = Renderer::new(Text::new(4));
        self.render_text(&mut rd, Context::new(page, InlineComponent));
        let out = rd.into_output();
        proof {
            assert(out@ =~= run_out(ct_initial(4), self.text_events(page@)));
        }
        out
    }
}

impl Inline {
    /// Confirms at run time that every location inside the node is well
    /// formed; nodes built from validated locations always are.
    pub fn check_wf(&self) -> (r: bool)
        ensures
            r == self.wf(),
        decreases *self,
    {
        match self {
            Inline::Text(_) => true,
            Inline::Bold(b) => b.0.check_wf(),
            Inline::Italic(b) => b.0.check_wf(),
            Inline::Preformatted(b) => b.0.check_wf(),
            Inline::Link(l) => l.location.check_wf() && l.target.check_wf(),
            Inline::Audio(a) => a.location.check_wf(),
            Inline::Sequence(v) => {
                let mut i: usize = 0;
                while i < v.len()
                    invariant
                        0 <= i <= v@.len(),
                        *self == Inline::Sequence(*v),
                        forall|j: int| 0 <= j < i ==> (#[trigger] v@[j]).wf(),
                    decreases v@.len() - i,
                {
                    proof {
                        assert(decreases_to!(*self => self->Sequence_0));
                        assert(decreases_to!(*v => v@));
                        assert(decreases_to!(v@ => v@[i as int]));
                    }
                    if !v[i].check_wf() {
                        return false;
                    }
                    i += 1;
                }
                true
            },
        }
    }
}

} // verus!
