//! The page: the outermost component of a document.

use vstd::prelude::*;

use crate::component::asset::{assets_html_out, render_assets_html, Asset, AssetComponent};
use crate::component::block::{Block, BlockComponent};
use crate::component::section::{
    sections_html_out, sections_md_events, sections_text_events, Section, SectionComponent,
};
use crate::escape::{escape_html, escape_md, html_escaped, md_escaped};
use crate::render::common_text::{
    ct_initial, lemma_run_concat, lemma_run_one, renders, run_out, run_state, TextEvent,
};
use crate::location::InternalPath;
use crate::render::{Context, Html, Markdown, Renderer, Text};

use super::ComponentKind;

verus! {

/// The kind of page components.
#[derive(Debug, Clone, Copy, PartialEq, Eq, Default)]
pub struct PageComponent;

impl ComponentKind for PageComponent {

}

/// A whole page: a banner, a title, assets, a body, and child sections.
#[derive(Debug)]
pub struct Page {
    /// The banner shown above everything else.
    pub banner: Block,
    /// The page's title.
    pub title: String,
    /// The assets the page pulls in from its head.
    pub assets: Vec<Asset>,
    /// The page's own content.
    pub body: Block,
    /// The sections of the page, in order.
    pub children: Vec<Section>,
}

impl Page {
    /// Every location and id inside the page passed validation.
    pub open spec fn wf(self) -> bool {
        &&& self.banner.wf()
        &&& forall|i: int| 0 <= i < self.assets@.len() ==> (#[trigger] self.assets@[i]).wf()
        &&& self.body.wf()
        &&& forall|i: int| 0 <= i < self.children@.len() ==> (#[trigger] self.children@[i]).wf()
    }

    /// The HTML document this page renders as, at the path `page`. The
    /// skeleton around the content is fixed: doctype and meta tags, the
    /// assets, the escaped title, then banner, heading, body and child
    /// sections in that order.
    pub open spec fn html_out(self, page: Seq<Seq<char>>, level: u32) -> Seq<char> {
        "<!DOCTYPE html><html><head><meta charset=\"utf-8\"><meta name=\"viewport\" content=\"width=device-width, initial-scale=1.0\">"@
            + assets_html_out(self.assets@, page) + "<title>"@ + html_escaped(self.title@)
            + "</title></head><body><div id=\"pedia-page-top\"><div id=\"pedia-banner\">"@
            + self.banner.html_out(page)
            + "</div><h1 class=\"pedia-title\"><a class=\"pedia-title-link\" href=\"#pedia-page-root\">"@
            + html_escaped(self.title@)
            + "</a></h1><div id=\"pedia-page-body-wrapper\"><div id=\"pedia-page-body\">"@
            + self.body.html_out(page) + "</div><div id=\"pedia-page-children\">"@
            + sections_html_out(self.children@, page, level) + "</div></div></div></body></html>"@
    }

    /// The chunks this page writes when rendered as Markdown: the banner,
    /// the title as a first-level heading, the body, then the sections.
    /// Assets render only in HTML.
    pub open spec fn md_events(self, page: Seq<Seq<char>>, level: u32) -> Seq<TextEvent> {
        self.banner.md_events(page) + seq![TextEvent::Write("\n\n"@)] + seq![
            TextEvent::Write("# "@),
        ] + seq![TextEvent::Write(md_escaped(self.title@))] + seq![TextEvent::Write("\n\n"@)]
            + self.body.md_events(page) + sections_md_events(self.children@, page, level)
    }

    /// The chunks this page writes when rendered as plain text: the
    /// banner, the bare title, the body, then the sections.
    pub open spec fn text_events(self, page: Seq<Seq<char>>) -> Seq<TextEvent> {
        self.banner.text_events(page) + seq![TextEvent::Write("\n\n"@)] + seq![
            TextEvent::Write(self.title@),
        ] + seq![TextEvent::Write("\n\n"@)] + self.body.text_events(page) + sections_text_events(
            self.children@,
            page,
        )
    }

    /// Renders this page as a full HTML document.
    #[verifier::rlimit(60)]
    pub fn render_html(&self, r: &mut Renderer<Html>, ctx: Context<'_, PageComponent>)
        requires
            self.wf(),
        ensures
            final(r).fmt() == old(r).fmt(),
            final(r).out() == old(r).out() + self.html_out(ctx.path(), ctx.lvl()),
    {
        r.write_str(
            "<!DOCTYPE html><html><head><meta charset=\"utf-8\"><meta name=\"viewport\" content=\"width=device-width, initial-scale=1.0\">",
        );
        render_assets_html(&self.assets, r, ctx.with_kind(AssetComponent));
        r.write_str("<title>");
        let escaped_title = escape_html(self.title.as_str());
        r.write_str(escaped_title.as_str());
        r.write_str(
            "</title></head><body><div id=\"pedia-page-top\"><div id=\"pedia-banner\">",
        );
        self.banner.render_html(r, ctx.with_kind(BlockComponent));
        r.write_str(
            "</div><h1 class=\"pedia-title\"><a class=\"pedia-title-link\" href=\"#pedia-page-root\">",
        );
        r.write_str(escaped_title.as_str());
        r.write_str(
            "</a></h1><div id=\"pedia-page-body-wrapper\"><div id=\"pedia-page-body\">",
        );
        self.body.render_html(r, ctx.with_kind(BlockComponent));
        r.write_str("</div><div id=\"pedia-page-children\">");
        let ghost mid0 = r.out();
        let v = &self.children;
        let child_ctx = ctx.with_kind(SectionComponent);
        let mut i: usize = 0;
        while i < v.len()
            invariant
                0 <= i <= v.len(),
                *v == self.children,
                forall|j: int| 0 <= j < v@.len() ==> (#[trigger] v@[j]).wf(),
                r.fmt() == old(r).fmt(),
                child_ctx.path() == ctx.path(),
                child_ctx.lvl() == ctx.lvl(),
                r.out() == mid0 + sections_html_out(v@.take(i as int), ctx.path(), ctx.lvl()),
            decreases v.len() - i,
        {
            let child = &v[i];
            child.render_html(r, child_ctx);
            proof {
                assert(v@.take(i + 1).drop_last() =~= v@.take(i as int));
                assert(v@.take(i + 1).last() == v@[i as int]);
                assert(r.out() =~= mid0 + sections_html_out(v@.take(i + 1), ctx.path(),
                    ctx.lvl()));
            }
            i += 1;
        }
        r.write_str("</div></div></div></body></html>");
        proof {
            assert(v@.take(v@.len() as int) =~= v@);
            assert(r.out() =~= old(r).out() + self.html_out(ctx.path(), ctx.lvl()));
        }
    }

    /// Renders this page as Markdown.
    pub fn render_markdown(&self, r: &mut Renderer<Markdown>, ctx: Context<'_, PageComponent>)
        requires
            self.wf(),
        ensures
            renders(
                old(r).fmt()@,
                old(r).out(),
                final(r).fmt()@,
                final(r).out(),
                self.md_events(ctx.path(), ctx.lvl()),
            ),
    {
        let ghost st0 = r.fmt()@;
        let ghost out0 = r.out();
        let ghost page = ctx.path();
        self.banner.render_markdown(r, ctx.with_kind(BlockComponent));
        let ghost e1 = self.banner.md_events(page);
        let ghost e2 = seq![TextEvent::Write("\n\n"@)];
        r.write_str("\n\n");
        proof {
            lemma_run_one(run_state(st0, e1), TextEvent::Write("\n\n"@));
            lemma_run_concat(st0, e1, e2);
        }
        let ghost e3 = seq![TextEvent::Write("# "@)];
        r.write_str("# ");
        proof {
            lemma_run_one(run_state(st0, e1 + e2), TextEvent::Write("# "@));
            lemma_run_concat(st0, e1 + e2, e3);
        }
        let escaped_title = escape_md(self.title.as_str());
        let ghost e4 = seq![TextEvent::Write(md_escaped(self.title@))];
        r.write_str(escaped_title.as_str());
        proof {
            lemma_run_one(
                run_state(st0, (e1 + e2) + e3),
                TextEvent::Write(md_escaped(self.title@)),
            );
            lemma_run_concat(st0, (e1 + e2) + e3, e4);
        }
        let ghost e5 = seq![TextEvent::Write("\n\n"@)];
        r.write_str("\n\n");
        proof {
            lemma_run_one(run_state(st0, ((e1 + e2) + e3) + e4), TextEvent::Write("\n\n"@));
            lemma_run_concat(st0, ((e1 + e2) + e3) + e4, e5);
        }
        self.body.render_markdown(r, ctx.with_kind(BlockComponent));
        let ghost e6 = self.body.md_events(page);
        proof {
            lemma_run_concat(st0, (((e1 + e2) + e3) + e4) + e5, e6);
        }
        let ghost base = ((((e1 + e2) + e3) + e4) + e5) + e6;
        let v = &self.children;
        let child_ctx = ctx.with_kind(SectionComponent);
        proof {
            assert(r.out() =~= out0 + run_out(st0, base));
            assert(renders(st0, out0, r.fmt()@, r.out(), base));
            assert(v@.take(0) =~= Seq::<Section>::empty());
            assert(base + sections_md_events(v@.take(0), page, ctx.lvl()) =~= base);
        }
        let mut i: usize = 0;
        while i < v.len()
            invariant
                0 <= i <= v.len(),
                *v == self.children,
                forall|j: int| 0 <= j < v@.len() ==> (#[trigger] v@[j]).wf(),
                page == ctx.path(),
                child_ctx.path() == ctx.path(),
                child_ctx.lvl() == ctx.lvl(),
                renders(
                    st0,
                    out0,
                    r.fmt()@,
                    r.out(),
                    base + sections_md_events(v@.take(i as int), page, ctx.lvl()),
                ),
                st0 == old(r).fmt()@,
                out0 == old(r).out(),
            decreases v.len() - i,
        {
            let child = &v[i];
            child.render_markdown(r, child_ctx);
            proof {
                lemma_run_concat(
                    st0,
                    base + sections_md_events(v@.take(i as int), page, ctx.lvl()),
                    v@[i as int].md_events(page, ctx.lvl()),
                );
                assert(v@.take(i + 1).drop_last() =~= v@.take(i as int));
                assert(v@.take(i + 1).last() == v@[i as int]);
                assert(base + sections_md_events(v@.take(i + 1), page, ctx.lvl()) =~= (base
                    + sections_md_events(v@.take(i as int), page, ctx.lvl())) + v@[
                    i as int
                ].md_events(page, ctx.lvl()));
                assert(r.out() =~= out0 + run_out(
                    st0,
                    base + sections_md_events(v@.take(i + 1), page, ctx.lvl()),
                ));
            }
            i += 1;
        }
        proof {
            assert(v@.take(v@.len() as int) =~= v@);
            assert(self.md_events(page, ctx.lvl()) == base + sections_md_events(
                v@,
                page,
                ctx.lvl(),
            ));
        }
    }

    /// Renders this page as plain text.
    pub fn render_text(&self, r: &mut Renderer<Text>, ctx: Context<'_, PageComponent>)
        requires
            self.wf(),
        ensures
            renders(
                old(r).fmt()@,
                old(r).out(),
                final(r).fmt()@,
                final(r).out(),
                self.text_events(ctx.path()),
            ),
    {
        let ghost st0 = r.fmt()@;
        let ghost out0 = r.out();
        let ghost page = ctx.path();
        self.banner.render_text(r, ctx.with_kind(BlockComponent));
        let ghost e1 = self.banner.text_events(page);
        let ghost e2 = seq![TextEvent::Write("\n\n"@)];
        r.write_str("\n\n");
        proof {
            lemma_run_one(run_state(st0, e1), TextEvent::Write("\n\n"@));
            lemma_run_concat(st0, e1, e2);
        }
        let ghost e3 = seq![TextEvent::Write(self.title@)];
        r.write_str(self.title.as_str());
        proof {
            lemma_run_one(run_state(st0, e1 + e2), TextEvent::Write(self.title@));
            lemma_run_concat(st0, e1 + e2, e3);
        }
        let ghost e4 = seq![TextEvent::Write("\n\n"@)];
        r.write_str("\n\n");
        proof {
            lemma_run_one(run_state(st0, (e1 + e2) + e3), TextEvent::Write("\n\n"@));
            lemma_run_concat(st0, (e1 + e2) + e3, e4);
        }
        self.body.render_text(r, ctx.with_kind(BlockComponent));
        let ghost e5 = self.body.text_events(page);
        proof {
            lemma_run_concat(st0, ((e1 + e2) + e3) + e4, e5);
        }
        let ghost base = (((e1 + e2) + e3) + e4) + e5;
        let v = &self.children;
        let child_ctx = ctx.with_kind(SectionComponent);
        proof {
            assert(r.out() =~= out0 + run_out(st0, base));
            assert(renders(st0, out0, r.fmt()@, r.out(), base));
            assert(v@.take(0) =~= Seq::<Section>::empty());
            assert(base + sections_text_events(v@.take(0), page) =~= base);
        }
        let mut i: usize = 0;
        while i < v.len()
            invariant
                0 <= i <= v.len(),
                *v == self.children,
                forall|j: int| 0 <= j < v@.len() ==> (#[trigger] v@[j]).wf(),
                page == ctx.path(),
                child_ctx.path() == ctx.path(),
                renders(
                    st0,
                    out0,
                    r.fmt()@,
                    r.out(),
                    base + sections_text_events(v@.take(i as int), page),
                ),
                st0 == old(r).fmt()@,
                out0 == old(r).out(),
            decreases v.len() - i,
        {
            let child = &v[i];
            child.render_text(r, child_ctx);
            proof {
                lemma_run_concat(
                    st0,
                    base + sections_text_events(v@.take(i as int), page),
                    v@[i as int].text_events(page),
                );
                assert(v@.take(i + 1).drop_last() =~= v@.take(i as int));
                assert(v@.take(i + 1).last() == v@[i as int]);
                assert(base + sections_text_events(v@.take(i + 1), page) =~= (base
                    + sections_text_events(v@.take(i as int), page)) + v@[i as int].text_events(
                    page,
                ));
                assert(r.out() =~= out0 + run_out(
                    st0,
                    base + sections_text_events(v@.take(i + 1), page),
                ));
            }
            i += 1;
        }
        proof {
            assert(v@.take(v@.len() as int) =~= v@);
            assert(self.text_events(page) == base + sections_text_events(v@, page));
        }
    }
}

impl Page {
    /// The HTML this node renders as, on the page at `page`.
    pub fn to_html_string(&self, page: &InternalPath) -> (r: String)
        requires
            self.wf(),
        ensures
            r@ == self.html_out(page@, 0),
    {
        let mut rd = Renderer::new(Html);
        self.render_html(&mut rd, Context::new(page, PageComponent));
        let out = rd.into_output();
        proof {
            assert(out@ =~= self.html_out(page@, 0));
        }
        out
    }

    /// The Markdown this node renders as, through a fresh default
    /// normalizer.
    pub fn to_markdown_string(&self, page: &InternalPath) -> (r: String)
        requires
            self.wf(),
        ensures
            r@ == run_out(ct_initial(4), self.md_events(page@, 0)),
    {
        let mut rd = Renderer::new(Markdown::new(4));
        self.render_markdown(&mut rd, Context::new(page, PageComponent));
        let out = rd.into_output();
        proof {
            assert(out@ =~= run_out(ct_initial(4), self.md_events(page@, 0)));
        }
        out
    }

    /// The plain text this node renders as, through a fresh default
    /// normalizer.
    pub fn to_text_string(&self, page: &InternalPath) -> (r: String)
        requires
            self.wf(),
        ensures
            r@ == run_out(ct_initial(4), self.text_events(page@)),
    {
        let mut rd = Renderer::new(Text::new(4));
        self.render_text(&mut rd, Context::new(page, PageComponent));
        let out = rd.into_output();
        proof {
            assert(out@ =~= run_out(ct_initial(4), self.text_events(page@)));
        }
        out
    }
}

impl Page {
    /// Confirms at run time that every location and id inside the page is
    /// well formed; pages built from validated values always are.
    pub fn check_wf(&self) -> (r: bool)
        ensures
            r == self.wf(),
    {
        if !self.banner.check_wf() {
            return false;
        }
        let assets = &self.assets;
        let mut i: usize = 0;
        while i < assets.len()
            invariant
                0 <= i <= assets@.len(),
                *assets == self.assets,
                forall|j: int| 0 <= j < i ==> (#[trigger] assets@[j]).wf(),
            decreases assets@.len() - i,
        {
            if !assets[i].check_wf() {
                return false;
            }
            i += 1;
        }
        if !self.body.check_wf() {
            return false;
        }
        let children = &self.children;
        let mut k: usize = 0;
        while k < children.len()
            invariant
                0 <= k <= children@.len(),
                *children == self.children,
                forall|j: int| 0 <= j < k ==> (#[trigger] children@[j]).wf(),
            decreases children@.len() - k,
        {
            if !children[k].check_wf() {
                return false;
            }
            k += 1;
        }
        true
    }
}

} // verus!
