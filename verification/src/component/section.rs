//! Sections of a page, nesting arbitrarily deep. The heading scale is
//! clamped: depth zero renders `h2`, each level one deeper, and every
//! depth past three renders `h6`.

use vstd::prelude::*;

use crate::component::block::{Block, BlockComponent};
use crate::component::inline::{Inline, InlineComponent};
use crate::decimal::{append_dec, dec_str};
use crate::encode::percent_encoded;
use crate::location::internal::Internal;
use crate::location::{Id, Location};
use crate::render::common_text::{
    ct_initial, lemma_run_concat, lemma_run_one, renders, run_out, run_state, TextEvent,
};
use crate::location::InternalPath;
use crate::render::{Context, Html, Markdown, Renderer, Text};

use super::ComponentKind;

verus! {

/// The kind of section components.
#[derive(Debug, Clone, Copy, PartialEq, Eq, Default)]
pub struct SectionComponent;

impl ComponentKind for SectionComponent {

}

/// The HTML heading element for a section at the given depth: `h2` at
/// depth zero, one step down per level, clamped at `h6`.
pub open spec fn heading_tag(level: u32) -> Seq<char> {
    if level == 0 {
        "h2"@
    } else if level == 1 {
        "h3"@
    } else if level == 2 {
        "h4"@
    } else if level == 3 {
        "h5"@
    } else {
        "h6"@
    }
}

/// The Markdown heading marks for a section at the given depth: `##` at
/// depth zero, one more per level, clamped at `######`.
pub open spec fn md_heading(level: u32) -> Seq<char> {
    if level == 0 {
        "##"@
    } else if level == 1 {
        "###"@
    } else if level == 2 {
        "####"@
    } else if level == 3 {
        "#####"@
    } else {
        "######"@
    }
}

/// Every depth past three renders the deepest heading of the scale: the
/// output never goes past `h6` or `######`, however deep sections nest.
pub proof fn lemma_heading_clamp(level: u32)
    requires
        level >= 4,
    ensures
        heading_tag(level) == "h6"@,
        md_heading(level) == "######"@,
{
}

/// The depth of a section's children: one deeper, saturating at the
/// counter's maximum (every depth past three renders alike).
pub open spec fn next_level(level: u32) -> u32 {
    if level < u32::MAX {
        (level + 1) as u32
    } else {
        level
    }
}

/// A section of a page: a title, an optional anchor id, a body, and child
/// sections.
#[derive(Debug)]
pub struct Section {
    /// The section's title.
    pub title: Inline,
    /// The anchor the section can be linked by.
    pub id: Option<Id>,
    /// The section's own content.
    pub body: Block,
    /// The sections nested below this one.
    pub children: Vec<Section>,
}

impl Section {
    /// Every location and id inside the section passed validation.
    pub open spec fn wf(self) -> bool
        decreases self,
    {
        &&& self.title.wf()
        &&& (self.id matches Some(id) ==> id.wf())
        &&& self.body.wf()
        &&& forall|i: int| 0 <= i < self.children@.len() ==> (#[trigger] self.children@[i]).wf()
    }

    /// The HTML this section renders as, on the page at `page`, at depth
    /// `level`.
    pub open spec fn html_out(self, page: Seq<Seq<char>>, level: u32) -> Seq<char>
        decreases self,
    {
        "<div class=\"pedia-section pedia-section-"@ + dec_str(level as int) + "\""@ + (match self
            .id {
            Some(id) => " id=\""@ + id@ + "\""@,
            None => Seq::<char>::empty(),
        }) + "><"@ + heading_tag(level) + " class=\"pedia-title\">"@ + (match self.id {
            Some(id) => "<a class=\"pedia-title-link\" href=\""@ + seq!['#'] + percent_encoded(
                id@,
            ) + "\">"@,
            None => Seq::<char>::empty(),
        }) + self.title.html_out(page) + (match self.id {
            Some(_) => "</a>"@,
            None => Seq::<char>::empty(),
        }) + "</"@ + heading_tag(level)
            + "><div class=\"pedia-section-body-wrapper\"><div class=\"pedia-section-body\">"@
            + self.body.html_out(page) + "</div><div class=\"pedia-section-children\">"@
            + sections_html_out(self.children@, page, next_level(level)) + "</div></div></div>"@
    }

    /// The chunks this section writes when rendered as Markdown.
    pub open spec fn md_events(self, page: Seq<Seq<char>>, level: u32) -> Seq<TextEvent>
        decreases self,
    {
        seq![TextEvent::Write(md_heading(level) + " "@)] + (match self.id {
            Some(id) => seq![TextEvent::Write("<span id=\""@ + id@ + "\">["@)],
            None => Seq::<TextEvent>::empty(),
        }) + self.title.md_events(page) + (match self.id {
            Some(id) => seq![
                TextEvent::Write("]("@ + seq!['#'] + percent_encoded(id@) + ")"@),
            ],
            None => Seq::<TextEvent>::empty(),
        }) + seq![TextEvent::Write("\n\n"@)] + self.body.md_events(page) + sections_md_events(
            self.children@,
            page,
            next_level(level),
        )
    }

    /// The chunks this section writes when rendered as plain text.
    pub open spec fn text_events(self, page: Seq<Seq<char>>) -> Seq<TextEvent>
        decreases self,
    {
        self.title.text_events(page) + seq![TextEvent::Write("\n\n"@)] + self.body.text_events(
            page,
        ) + sections_text_events(self.children@, page)
    }
}

/// The HTML of a run of sibling sections, in order, at one depth.
pub open spec fn sections_html_out(items: Seq<Section>, page: Seq<Seq<char>>, level: u32) -> Seq<
    char,
>
    decreases items,
{
    if items.len() == 0 {
        Seq::empty()
    } else {
        sections_html_out(items.drop_last(), page, level) + items.last().html_out(page, level)
    }
}

/// The Markdown chunks of a run of sibling sections, in order.
pub open spec fn sections_md_events(
    items: Seq<Section>,
    page: Seq<Seq<char>>,
    level: u32,
) -> Seq<TextEvent>
    decreases items,
{
    if items.len() == 0 {
        Seq::empty()
    } else {
        sections_md_events(items.drop_last(), page, level) + items.last().md_events(page, level)
    }
}

/// The plain-text chunks of a run of sibling sections, in order.
pub open spec fn sections_text_events(items: Seq<Section>, page: Seq<Seq<char>>) -> Seq<
    TextEvent,
>
    decreases items,
{
    if items.len() == 0 {
        Seq::empty()
    } else {
        sections_text_events(items.drop_last(), page) + items.last().text_events(page)
    }
}

impl Section {
    /// Renders this section as HTML, at the context's depth.
    #[verifier::rlimit(100)]
    #[verifier::spinoff_prover]
    pub fn render_html(&self, r: &mut Renderer<Html>, ctx: Context<'_, SectionComponent>)
        requires
            self.wf(),
        ensures
            final(r).fmt() == old(r).fmt(),
            final(r).out() == old(r).out() + self.html_out(ctx.path(), ctx.lvl()),
        decreases *self,
    {
        let level = ctx.section_level();
        r.write_str("<div class=\"pedia-section pedia-section-");
        let mut label = String::new();
        append_dec(level as u64, &mut label);
        r.write_str(label.as_str());
        r.write_str("\"");
        match &self.id {
            Some(id) => {
                r.write_str(" id=\"");
                r.write_str(id.as_str());
                r.write_str("\"");
            },
            None => {},
        }
        r.write_str("><");
        r.write_str(heading_tag_str(level));
        r.write_str(" class=\"pedia-title\">");
        match &self.id {
            Some(id) => {
                let own_anchor = Location::Internal(
                    Internal { path: ctx.location().clone(), id: Some(id.clone()) },
                );
                r.write_str("<a class=\"pedia-title-link\" href=\"");
                let href = crate::component::location::render_href(&own_anchor, ctx.location());
                proof {
                    crate::component::location::lemma_link_to_self(ctx.path(), ctx.path());
                    assert(href@ =~= seq!['#'] + percent_encoded(id@));
                }
                r.write_str(href.as_str());
                r.write_str("\">");
            },
            None => {},
        }
        self.title.render_html(r, ctx.with_kind(InlineComponent));
        match &self.id {
            Some(_) => {
                r.write_str("</a>");
            },
            None => {},
        }
        r.write_str("</");
        r.write_str(heading_tag_str(level));
        r.write_str("><div class=\"pedia-section-body-wrapper\"><div class=\"pedia-section-body\">");
        self.body.render_html(r, ctx.with_kind(BlockComponent));
        r.write_str("</div><div class=\"pedia-section-children\">");
        let ghost mid0 = r.out();
        let v = &self.children;
        let child_ctx = ctx.enter_section();
        let mut i: usize = 0;
        while i < v.len()
            invariant
                0 <= i <= v.len(),
                *v == self.children,
                forall|j: int| 0 <= j < v@.len() ==> (#[trigger] v@[j]).wf(),
                r.fmt() == old(r).fmt(),
                child_ctx.path() == ctx.path(),
                child_ctx.lvl() == next_level(ctx.lvl()),
                r.out() == mid0 + sections_html_out(v@.take(i as int), ctx.path(), next_level(
                    ctx.lvl(),
                )),
            decreases v.len() - i,
        {
            proof {
                assert(decreases_to!(*self => self.children));
                assert(decreases_to!(self.children => self.children@));
                assert(decreases_to!(v@ => v@[i as int]));
            }
            let child = &v[i];
            child.render_html(r, child_ctx);
            proof {
                assert(v@.take(i + 1).drop_last() =~= v@.take(i as int));
                assert(v@.take(i + 1).last() == v@[i as int]);
                assert(r.out() =~= mid0 + sections_html_out(v@.take(i + 1), ctx.path(),
                    next_level(ctx.lvl())));
            }
            i += 1;
        }
        r.write_str("</div></div></div>");
        proof {
            assert(v@.take(v@.len() as int) =~= v@);
            assert(r.out() =~= old(r).out() + self.html_out(ctx.path(), ctx.lvl()));
        }
    }
}

/// The HTML heading element for a section at the given depth.
fn heading_tag_str(level: u32) -> (r: &'static str)
    ensures
        r@ == heading_tag(level),
{
    if level == 0 {
        "h2"
    } else if level == 1 {
        "h3"
    } else if level == 2 {
        "h4"
    } else if level == 3 {
        "h5"
    } else {
        "h6"
    }
}

/// The Markdown heading marks for a section at the given depth.
fn md_heading_str(level: u32) -> (r: &'static str)
    ensures
        r@ == md_heading(level),
{
    if level == 0 {
        "##"
    } else if level == 1 {
        "###"
    } else if level == 2 {
        "####"
    } else if level == 3 {
        "#####"
    } else {
        "######"
    }
}

impl Section {
    /// Renders this section as Markdown, at the context's depth.
    pub fn render_markdown(&self, r: &mut Renderer<Markdown>, ctx: Context<'_, SectionComponent>)
        requires
            self.wf(),
        ensures
            renders(
                old(r).fmt()@,
                old(r).out(),
                final(r).fmt()@,
                final(r).out(),
                self.md_events(ctx.path(), ctx.lvl()),
            ),
        decreases *self,
    {
        let ghost st0 = r.fmt()@;
        let ghost out0 = r.out();
        let ghost page = ctx.path();
        let level = ctx.section_level();
        let mut heading = String::new();
        heading.append(md_heading_str(level));
        heading.append(" ");
        let ghost e1 = seq![TextEvent::Write(md_heading(level) + " "@)];
        proof {
            assert(heading@ =~= md_heading(level) + " "@);
        }
        r.write_str(heading.as_str());
        proof {
            lemma_run_one(st0, TextEvent::Write(md_heading(level) + " "@));
        }
        let ghost e2: Seq<TextEvent> = match &self.id {
            Some(id) => seq![TextEvent::Write("<span id=\""@ + id@ + "\">["@)],
            None => Seq::<TextEvent>::empty(),
        };
        match &self.id {
            Some(id) => {
                let mut open = String::new();
                open.append("<span id=\"");
                open.append(id.as_str());
                open.append("\">[");
                proof {
                    assert(open@ =~= "<span id=\""@ + id@ + "\">["@);
                }
                r.write_str(open.as_str());
                proof {
                    lemma_run_one(
                        run_state(st0, e1),
                        TextEvent::Write("<span id=\""@ + id@ + "\">["@),
                    );
                    lemma_run_concat(st0, e1, e2);
                }
            },
            None => {
                proof {
                    assert(e1 + e2 =~= e1);
                }
            },
        }
        self.title.render_markdown(r, ctx.with_kind(InlineComponent));
        let ghost e3 = self.title.md_events(page);
        proof {
            lemma_run_concat(st0, e1 + e2, e3);
        }
        let ghost e4: Seq<TextEvent> = match &self.id {
            Some(id) => seq![TextEvent::Write("]("@ + seq!['#'] + percent_encoded(id@) + ")"@)],
            None => Seq::<TextEvent>::empty(),
        };
        match &self.id {
            Some(id) => {
                let own_anchor = Location::Internal(
                    Internal { path: ctx.location().clone(), id: Some(id.clone()) },
                );
                let href = crate::component::location::render_href(&own_anchor, ctx.location());
                proof {
                    crate::component::location::lemma_link_to_self(ctx.path(), ctx.path());
                    assert(href@ =~= seq!['#'] + percent_encoded(id@));
                }
                let mut link = String::new();
                link.append("](");
                link.append(href.as_str());
                link.append(")");
                r.write_str(link.as_str());
                proof {
                    assert(link@ =~= "]("@ + seq!['#'] + percent_encoded(id@) + ")"@);
                    lemma_run_one(
                        run_state(st0, (e1 + e2) + e3),
                        TextEvent::Write("]("@ + seq!['#'] + percent_encoded(id@) + ")"@),
                    );
                    lemma_run_concat(st0, (e1 + e2) + e3, e4);
                }
            },
            None => {
                proof {
                    assert(((e1 + e2) + e3) + e4 =~= (e1 + e2) + e3);
                }
            },
        }
        let ghost e5 = seq![TextEvent::Write("\n\n"@)];
        r.write_str("\n\n");
        proof {
            lemma_run_one(run_state(st0, ((e1 + e2) + e3) + e4), TextEvent::Write("\n\n"@));
            lemma_run_concat(st0, ((e1 + e2) + e3) + e4, e5);
        }
        self.body.render_markdown(r, ctx.with_kind(BlockComponent));
        let ghost e6 = self.body.md_events(page);
        proof {
            lemma_run_concat(st0, (((e1 + e2) + e3) + e4) + e5, e6);
        }
        let ghost base = ((((e1 + e2) + e3) + e4) + e5) + e6;
        let v = &self.children;
        let child_ctx = ctx.enter_section();
        proof {
            assert(r.out() =~= out0 + run_out(st0, base));
            assert(renders(st0, out0, r.fmt()@, r.out(), base));
            assert(v@.take(0) =~= Seq::<Section>::empty());
            assert(base + sections_md_events(v@.take(0), page, next_level(ctx.lvl())) =~= base);
            assert(run_state(st0, base + sections_md_events(v@.take(0), page, next_level(
                ctx.lvl(),
            ))) == run_state(st0, base));
        }
        let mut i: usize = 0;
        while i < v.len()
            invariant
                0 <= i <= v.len(),
                *v == self.children,
                forall|j: int| 0 <= j < v@.len() ==> (#[trigger] v@[j]).wf(),
                page == ctx.path(),
                child_ctx.path() == ctx.path(),
                child_ctx.lvl() == next_level(ctx.lvl()),
                renders(
                    st0,
                    out0,
                    r.fmt()@,
                    r.out(),
                    base + sections_md_events(v@.take(i as int), page, next_level(ctx.lvl())),
                ),
                st0 == old(r).fmt()@,
                out0 == old(r).out(),
            decreases v.len() - i,
        {
            proof {
                assert(decreases_to!(*self => self.children));
                assert(decreases_to!(self.children => self.children@));
                assert(decreases_to!(v@ => v@[i as int]));
            }
            let child = &v[i];
            child.render_markdown(r, child_ctx);
            proof {
                lemma_run_concat(
                    st0,
                    base + sections_md_events(v@.take(i as int), page, next_level(ctx.lvl())),
                    v@[i as int].md_events(page, next_level(ctx.lvl())),
                );
                assert(v@.take(i + 1).drop_last() =~= v@.take(i as int));
                assert(v@.take(i + 1).last() == v@[i as int]);
                assert(base + sections_md_events(v@.take(i + 1), page, next_level(ctx.lvl()))
                    =~= (base + sections_md_events(v@.take(i as int), page, next_level(
                    ctx.lvl(),
                ))) + v@[i as int].md_events(page, next_level(ctx.lvl())));
                assert(r.out() =~= out0 + run_out(
                    st0,
                    base + sections_md_events(v@.take(i + 1), page, next_level(ctx.lvl())),
                ));
            }
            i += 1;
        }
        proof {
            assert(v@.take(v@.len() as int) =~= v@);
            assert(self.md_events(page, ctx.lvl()) == base + sections_md_events(
                v@,
                page,
                next_level(ctx.lvl()),
            ));
        }
    }

    /// Renders this section as plain text.
    pub fn render_text(&self, r: &mut Renderer<Text>, ctx: Context<'_, SectionComponent>)
        requires
            self.wf(),
        ensures
            renders(
                old(r).fmt()@,
                old(r).out(),
                final(r).fmt()@,
                final(r).out(),
                self.text_events(ctx.path()),
            ),
        decreases *self,
    {
        let ghost st0 = r.fmt()@;
        let ghost out0 = r.out();
        let ghost page = ctx.path();
        self.title.render_text(r, ctx.with_kind(InlineComponent));
        let ghost e1 = self.title.text_events(page);
        r.write_str("\n\n");
        let ghost e2 = seq![TextEvent::Write("\n\n"@)];
        proof {
            lemma_run_one(run_state(st0, e1), TextEvent::Write("\n\n"@));
            lemma_run_concat(st0, e1, e2);
        }
        self.body.render_text(r, ctx.with_kind(BlockComponent));
        let ghost e3 = self.body.text_events(page);
        proof {
            lemma_run_concat(st0, e1 + e2, e3);
        }
        let ghost base = (e1 + e2) + e3;
        let v = &self.children;
        let child_ctx = ctx.enter_section();
        proof {
            assert(r.out() =~= out0 + run_out(st0, base));
            assert(renders(st0, out0, r.fmt()@, r.out(), base));
            assert(v@.take(0) =~= Seq::<Section>::empty());
            assert(base + sections_text_events(v@.take(0), page) =~= base);
            assert(run_state(st0, base + sections_text_events(v@.take(0), page)) == run_state(
                st0,
                base,
            ));
        }
        let mut i: usize = 0;
        while i < v.len()
            invariant
                0 <= i <= v.len(),
                *v == self.children,
                forall|j: int| 0 <= j < v@.len() ==> (#[trigger] v@[j]).wf(),
                page == ctx.path(),
                child_ctx.path() == ctx.path(),
                renders(
                    st0,
                    out0,
                    r.fmt()@,
                    r.out(),
                    base + sections_text_events(v@.take(i as int), page),
                ),
                st0 == old(r).fmt()@,
                out0 == old(r).out(),
            decreases v.len() - i,
        {
            proof {
                assert(decreases_to!(*self => self.children));
                assert(decreases_to!(self.children => self.children@));
                assert(decreases_to!(v@ => v@[i as int]));
            }
            let child = &v[i];
            child.render_text(r, child_ctx);
            proof {
                lemma_run_concat(
                    st0,
                    base + sections_text_events(v@.take(i as int), page),
                    v@[i as int].text_events(page),
                );
                assert(v@.take(i + 1).drop_last() =~= v@.take(i as int));
                assert(v@.take(i + 1).last() == v@[i as int]);
                assert(base + sections_text_events(v@.take(i + 1), page) =~= (base
                    + sections_text_events(v@.take(i as int), page)) + v@[i as int].text_events(
                    page,
                ));
                assert(r.out() =~= out0 + run_out(
                    st0,
                    base + sections_text_events(v@.take(i + 1), page),
                ));
            }
            i += 1;
        }
        proof {
            assert(v@.take(v@.len() as int) =~= v@);
            assert(self.text_events(page) == base + sections_text_events(v@, page));
        }
    }
}

impl Section {
    /// The HTML this node renders as, on the page at `page`.
    pub fn to_html_string(&self, page: &InternalPath) -> (r: String)
        requires
            self.wf(),
        ensures
            r@ == self.html_out(page@, 0),
    {
        let mut rd = Renderer::new(Html);
        self.render_html(&mut rd, Context::new(page, SectionComponent));
        let out = rd.into_output();
        proof {
            assert(out@ =~= self.html_out(page@, 0));
        }
        out
    }

    /// The Markdown this node renders as, through a fresh default
    /// normalizer.
    pub fn to_markdown_string(&self, page: &InternalPath) -> (r: String)
        requires
            self.wf(),
        ensures
            r@ == run_out(ct_initial(4), self.md_events(page@, 0)),
    {
        let mut rd = Renderer::new(Markdown::new(4));
        self.render_markdown(&mut rd, Context::new(page, SectionComponent));
        let out = rd.into_output();
        proof {
            assert(out@ =~= run_out(ct_initial(4), self.md_events(page@, 0)));
        }
        out
    }

    /// The plain text this node renders as, through a fresh default
    /// normalizer.
    pub fn to_text_string(&self, page: &InternalPath) -> (r: String)
        requires
            self.wf(),
        ensures
            r@ == run_out(ct_initial(4), self.text_events(page@)),
    {
        let mut rd = Renderer::new(Text::new(4));
        self.render_text(&mut rd, Context::new(page, SectionComponent));
        let out = rd.into_output();
        proof {
            assert(out@ =~= run_out(ct_initial(4), self.text_events(page@)));
        }
        out
    }
}

impl Section {
    /// Confirms at run time that every location and id inside the section
    /// is well formed.
    pub fn check_wf(&self) -> (r: bool)
        ensures
            r == self.wf(),
        decreases *self,
    {
        if !self.title.check_wf() {
            return false;
        }
        match &self.id {
            Some(id) => {
                if !id.check_wf() {
                    return false;
                }
            },
            None => {},
        }
        if !self.body.check_wf() {
            return false;
        }
        let v = &self.children;
        let mut i: usize = 0;
        while i < v.len()
            invariant
                0 <= i <= v@.len(),
                *v == self.children,
                forall|j: int| 0 <= j < i ==> (#[trigger] v@[j]).wf(),
            decreases v@.len() - i,
        {
            proof {
                assert(decreases_to!(*self => self.children));
                assert(decreases_to!(*v => v@));
                assert(decreases_to!(v@ => v@[i as int]));
            }
            if !v[i].check_wf() {
                return false;
            }
            i += 1;
        }
        true
    }
}

} // verus!
