//! Page assets: resources a page pulls in from its head. Assets render
//! only in HTML; the textual formats leave them out.

use vstd::prelude::*;

use crate::component::location::location_href;
use crate::location::Location;
use crate::render::{Context, Html, Renderer};

use super::ComponentKind;

verus! {

/// The kind of asset components.
#[derive(Debug, Clone, Copy, PartialEq, Eq, Default)]
pub struct AssetComponent;

impl ComponentKind for AssetComponent {

}

/// A stylesheet pulled in by a page.
#[derive(Debug)]
pub struct Stylesheet {
    /// Where the stylesheet lives.
    pub location: Location,
}

/// A script pulled in by a page.
#[derive(Debug)]
pub struct Script {
    /// Where the script lives.
    pub location: Location,
}

/// An asset of a page.
#[derive(Debug)]
pub enum Asset {
    /// A stylesheet.
    Stylesheet(Stylesheet),
    /// A script.
    Script(Script),
}

impl Asset {
    /// The asset's location passed validation.
    pub open spec fn wf(self) -> bool {
        match self {
            Asset::Stylesheet(s) => s.location.wf(),
            Asset::Script(s) => s.location.wf(),
        }
    }

    /// The HTML this asset renders as, on the page at `page`.
    pub open spec fn html_out(self, page: Seq<Seq<char>>) -> Seq<char> {
        match self {
            Asset::Stylesheet(s) => "<link rel=\"stylesheet\" href=\""@ + location_href(
                s.location,
                page,
            ) + "\">"@,
            Asset::Script(s) => "<script type=\"application/javascript\" src=\""@
                + location_href(s.location, page) + "\"></script>"@,
        }
    }

    /// Renders this asset as HTML.
    pub fn render_html(&self, r: &mut Renderer<Html>, ctx: Context<'_, AssetComponent>)
        requires
            self.wf(),
        ensures
            final(r).fmt() == old(r).fmt(),
            final(r).out() == old(r).out() + self.html_out(ctx.path()),
    {
        match self {
            Asset::Stylesheet(s) => {
                r.write_str("<link rel=\"stylesheet\" href=\"");
                let href = crate::component::location::render_href(&s.location, ctx.location());
                r.write_str(href.as_str());
                r.write_str("\">");
                proof {
                    assert(r.out() =~= old(r).out() + self.html_out(ctx.path()));
                }
            },
            Asset::Script(s) => {
                r.write_str("<script type=\"application/javascript\" src=\"");
                let href = crate::component::location::render_href(&s.location, ctx.location());
                r.write_str(href.as_str());
                r.write_str("\"></script>");
                proof {
                    assert(r.out() =~= old(r).out() + self.html_out(ctx.path()));
                }
            },
        }
    }
}

/// The HTML of a page's assets, in order.
pub open spec fn assets_html_out(items: Seq<Asset>, page: Seq<Seq<char>>) -> Seq<char>
    decreases items,
{
    if items.len() == 0 {
        Seq::empty()
    } else {
        assets_html_out(items.drop_last(), page) + items.last().html_out(page)
    }
}

/// Renders a page's assets as HTML, in order.
pub fn render_assets_html(
    items: &Vec<Asset>,
    r: &mut Renderer<Html>,
    ctx: Context<'_, AssetComponent>,
)
    requires
        forall|i: int| 0 <= i < items@.len() ==> (#[trigger] items@[i]).wf(),
    ensures
        final(r).fmt() == old(r).fmt(),
        final(r).out() == old(r).out() + assets_html_out(items@, ctx.path()),
{
    let mut i: usize = 0;
    while i < items.len()
        invariant
            0 <= i <= items.len(),
            forall|j: int| 0 <= j < items@.len() ==> (#[trigger] items@[j]).wf(),
            r.fmt() == old(r).fmt(),
            r.out() == old(r).out() + assets_html_out(items@.take(i as int), ctx.path()),
        decreases items.len() - i,
    {
        let item = &items[i];
        item.render_html(r, ctx);
        proof {
            assert(items@.take(i + 1).drop_last() =~= items@.take(i as int));
            assert(items@.take(i + 1).last() == items@[i as int]);
            assert(r.out() =~= old(r).out() + assets_html_out(items@.take(i + 1), ctx.path()));
        }
        i += 1;
    }
    proof {
        assert(items@.take(items@.len() as int) =~= items@);
    }
}

impl Asset {
    /// The HTML this asset renders as, on the page at `page`.
    pub fn to_html_string(&self, page: &crate::location::InternalPath) -> (r: String)
        requires
            self.wf(),
        ensures
            r@ == self.html_out(page@),
    {
        let mut rd = Renderer::new(Html);
        self.render_html(&mut rd, Context::new(page, AssetComponent));
        let out = rd.into_output();
        proof {
            assert(out@ =~= self.html_out(page@));
        }
        out
    }
}

impl Asset {
    /// Confirms at run time that the asset's location is well formed.
    pub fn check_wf(&self) -> (r: bool)
        ensures
            r == self.wf(),
    {
        match self {
            Asset::Stylesheet(s) => s.location.check_wf(),
            Asset::Script(s) => s.location.check_wf(),
        }
    }
}

} // verus!
