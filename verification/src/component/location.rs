//! Rendering locations as URLs: relative links between pages, anchors,
//! and percent-encoded external addresses.

use vstd::prelude::*;

use crate::encode::{append_encoded, percent_encoded};
use crate::location::external::{other_scheme, rest_part, scheme_part, ViewRef};
use crate::location::path::{eq_index_paths, index_html};
use crate::location::{InternalPath, Location};
use crate::render::common_text::push_char;

use super::ComponentKind;

verus! {

/// The kind of a location rendered as a URL.
#[derive(Debug, Clone, Copy, PartialEq, Eq, Default)]
pub struct LocationComponent;

impl ComponentKind for LocationComponent {

}

/// The length of the longest common prefix of two fragment sequences.
pub open spec fn common_prefix_len(a: Seq<Seq<char>>, b: Seq<Seq<char>>) -> int
    decreases a.len(),
{
    if a.len() == 0 || b.len() == 0 || a[0] != b[0] {
        0
    } else {
        1 + common_prefix_len(a.skip(1), b.skip(1))
    }
}

/// A pointwise-equal prefix of maximal length is the common prefix.
pub proof fn lemma_common_prefix_len(a: Seq<Seq<char>>, b: Seq<Seq<char>>, k: int)
    requires
        0 <= k <= a.len(),
        k <= b.len(),
        forall|j: int| 0 <= j < k ==> a[j] == b[j],
        k == a.len() || k == b.len() || a[k] != b[k],
    ensures
        common_prefix_len(a, b) == k,
    decreases k,
{
    if k == 0 {
    } else {
        assert(a[0] == b[0]);
        lemma_common_prefix_len(a.skip(1), b.skip(1), k - 1);
    }
}

/// `n` times `../`.
pub open spec fn up_links(n: int) -> Seq<char>
    decreases n,
{
    if n <= 0 {
        Seq::empty()
    } else {
        up_links(n - 1) + "../"@
    }
}

/// The remaining target fragments written out: every fragment but the
/// last is percent-encoded and followed by `/`; a final `index.html` is
/// left off entirely, any other final fragment is percent-encoded.
pub open spec fn target_tail(frags: Seq<Seq<char>>) -> Seq<char>
    decreases frags.len(),
{
    if frags.len() == 0 {
        Seq::empty()
    } else if frags.len() == 1 {
        if frags[0] == index_html() {
            Seq::empty()
        } else {
            percent_encoded(frags[0])
        }
    } else {
        percent_encoded(frags[0]) + seq!['/'] + target_tail(frags.skip(1))
    }
}

/// The relative link from the page at `current` to the page at `target`:
/// nothing when the two are index-equivalent; otherwise `../` once for
/// each segment of the current path past the common prefix except the
/// final one, then the remaining target segments.
pub open spec fn relative_link(target: Seq<Seq<char>>, current: Seq<Seq<char>>) -> Seq<char> {
    if eq_index_paths(target, current) {
        Seq::empty()
    } else {
        let k = common_prefix_len(target, current);
        let ups = current.len() - k - 1;
        up_links(
            if ups < 0 {
                0
            } else {
                ups
            },
        ) + target_tail(target.skip(k))
    }
}

/// A link from a page to an index-equivalent target renders as the empty
/// string: linking a page to itself writes nothing.
pub proof fn lemma_link_to_self(target: Seq<Seq<char>>, current: Seq<Seq<char>>)
    requires
        eq_index_paths(target, current),
    ensures
        relative_link(target, current) == Seq::<char>::empty(),
{
}

/// The URL a location renders as, seen from the page at `current`:
/// internal locations become a relative link plus `#` and the anchor when
/// present; external locations are written percent-encoded, the `other`
/// scheme stripped.
pub open spec fn location_href(loc: Location, current: Seq<Seq<char>>) -> Seq<char> {
    match loc {
        Location::External(e) => {
            if scheme_part(e@) == other_scheme() {
                percent_encoded(rest_part(e@))
            } else {
                percent_encoded(e@)
            }
        },
        Location::Internal(l) => relative_link(l.path@, current) + (match l.id {
            Some(id) => seq!['#'] + percent_encoded(id@),
            None => Seq::<char>::empty(),
        }),
    }
}

/// Appends the relative link from `current` to `target` to `out`.
pub fn append_relative_link(target: &InternalPath, current: &InternalPath, out: &mut String)
    ensures
        final(out)@ == old(out)@ + relative_link(target@, current@),
{
    let ghost tv = target@;
    let ghost cv = current@;
    if target.eq_index(current) {
        proof {
            assert(out@ =~= old(out)@ + relative_link(tv, cv));
        }
        return ;
    }
    let tn = target.len();
    let cn = current.len();
    let mut k: usize = 0;
    loop
        invariant
            tv == target@,
            cv == current@,
            tn == tv.len(),
            cn == cv.len(),
            0 <= k <= tn,
            k <= cn,
            forall|j: int| 0 <= j < k ==> tv[j] == cv[j],
        ensures
            0 <= k <= tn && k <= cn,
            forall|j: int| 0 <= j < k ==> tv[j] == cv[j],
            k == tn || k == cn || tv[k as int] != cv[k as int],
        decreases tn - k,
    {
        if k == tn || k == cn {
            break ;
        }
        if !target.fragment(k).same_as(current.fragment(k)) {
            break ;
        }
        k += 1;
    }
    proof {
        lemma_common_prefix_len(tv, cv, k as int);
    }
    let rem = cn - k;
    let ups = if rem == 0 {
        0
    } else {
        rem - 1
    };
    let ghost out1 = out@;
    let mut j: usize = 0;
    while j < ups
        invariant
            0 <= j <= ups,
            out@ == out1 + up_links(j as int),
        decreases ups - j,
    {
        out.append("../");
        proof {
            assert(out@ =~= out1 + up_links(j + 1));
        }
        j += 1;
    }
    let ghost out2 = out@;
    let mut i: usize = k;
    while i < tn
        invariant
            tv == target@,
            tn == tv.len(),
            k <= i <= tn,
            out@ + target_tail(tv.skip(i as int)) == out2 + target_tail(tv.skip(k as int)),
        decreases tn - i,
    {
        let ghost pre = out@;
        let frag = target.fragment(i);
        if i == tn - 1 {
            if !frag.matches_str("index.html") {
                append_encoded(frag.as_str(), out);
            }
            proof {
                assert(tv.skip(i as int).len() == 1);
                assert(tv.skip(i as int)[0] == tv[i as int]);
                assert(out@ + target_tail(tv.skip(i + 1)) =~= pre + target_tail(
                    tv.skip(i as int),
                ));
                assert(out@ + target_tail(tv.skip(i + 1)) == out2 + target_tail(
                    tv.skip(k as int),
                ));
            }
        } else {
            append_encoded(frag.as_str(), out);
            out.append("/");
            proof {
                reveal_strlit("/");
                assert("/"@ =~= seq!['/']);
                assert(tv.skip(i as int).len() > 1);
                assert(tv.skip(i as int)[0] == tv[i as int]);
                assert(tv.skip(i as int).skip(1) =~= tv.skip(i + 1));
                assert(out@ + target_tail(tv.skip(i + 1)) =~= pre + target_tail(
                    tv.skip(i as int),
                ));
                assert(out@ + target_tail(tv.skip(i + 1)) == out2 + target_tail(
                    tv.skip(k as int),
                ));
            }
        }
        i += 1;
    }
    proof {
        assert(target_tail(tv.skip(tn as int)) =~= Seq::<char>::empty());
        assert(out@ =~= out@ + target_tail(tv.skip(tn as int)));
        assert(out@ =~= old(out)@ + relative_link(tv, cv));
    }
}

/// Appends the URL of `location`, as seen from the page at `current`, to
/// `out`.
pub fn append_href(location: &Location, current: &InternalPath, out: &mut String)
    requires
        location matches Location::External(e) ==> e.wf(),
    ensures
        final(out)@ == old(out)@ + location_href(*location, current@),
{
    match location {
        Location::External(e) => {
            match e.view_ref() {
                ViewRef::Other(rest) => {
                    append_encoded(rest.as_str(), out);
                },
                ViewRef::WithHost { scheme: _, rest: _ } => {
                    append_encoded(e.raw_contents(), out);
                },
            }
        },
        Location::Internal(loc) => {
            append_relative_link(&loc.path, current, out);
            match &loc.id {
                None => {},
                Some(id) => {
                    push_char(out, '#');
                    append_encoded(id.as_str(), out);
                    proof {
                        assert(out@ =~= old(out)@ + location_href(*location, current@));
                    }
                },
            }
        },
    }
}

/// The URL of `location` as seen from the page at `current`.
pub fn render_href(location: &Location, current: &InternalPath) -> (r: String)
    requires
        location matches Location::External(e) ==> e.wf(),
    ensures
        r@ == location_href(*location, current@),
{
    let mut out = String::new();
    append_href(location, current, &mut out);
    proof {
        assert(out@ =~= location_href(*location, current@));
    }
    out
}

} // verus!
