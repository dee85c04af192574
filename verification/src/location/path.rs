//! Absolute internal paths: sequences of validated fragments, with the
//! index-file equivalence used when links between pages are computed.

use vstd::prelude::*;
use vstd::string::*;

use super::fragment::{fragment_check, is_valid_fragment, Fragment, InvalidFragment};

verus! {

/// Why a string was rejected as an internal path.
#[derive(Debug, Clone, Copy, PartialEq, Eq)]
pub enum InvalidPath {
    /// One of the `/`-separated segments was not a valid fragment.
    InvalidFragment(InvalidFragment),
}

/// The position of the first `/` at or after `i`, or the length of `s`
/// when there is none.
pub open spec fn seg_end(s: Seq<char>, i: int) -> int
    decreases s.len() - i,
{
    if i < 0 || i >= s.len() {
        s.len() as int
    } else if s[i] == '/' {
        i
    } else {
        seg_end(s, i + 1)
    }
}

pub proof fn lemma_seg_end(s: Seq<char>, i: int)
    requires
        0 <= i <= s.len(),
    ensures
        i <= seg_end(s, i) <= s.len(),
        forall|j: int| i <= j < seg_end(s, i) ==> s[j] != '/',
        seg_end(s, i) < s.len() ==> s[seg_end(s, i)] == '/',
    decreases s.len() - i,
{
    if i < s.len() && s[i] != '/' {
        lemma_seg_end(s, i + 1);
    }
}

/// The `/`-separated segments of `s` starting at `i`.
pub open spec fn split_from(s: Seq<char>, i: int) -> Seq<Seq<char>>
    decreases s.len() - i,
    via split_from_decreases
{
    if !(0 <= i <= s.len()) {
        Seq::empty()
    } else {
        let e = seg_end(s, i);
        if e >= s.len() {
            seq![s.subrange(i, e)]
        } else {
            seq![s.subrange(i, e)] + split_from(s, e + 1)
        }
    }
}

#[via_fn]
proof fn split_from_decreases(s: Seq<char>, i: int) {
    if 0 <= i <= s.len() {
        lemma_seg_end(s, i);
    }
}

/// The `/`-separated segments of `s`.
pub open spec fn split_path(s: Seq<char>) -> Seq<Seq<char>> {
    split_from(s, 0)
}

/// The first fragment error among `segs`, if any, in order.
pub open spec fn segments_check(segs: Seq<Seq<char>>) -> Result<(), InvalidFragment>
    decreases segs.len(),
{
    if segs.len() == 0 {
        Ok(())
    } else {
        match fragment_check(segs[0]) {
            Err(e) => Err(e),
            Ok(_) => segments_check(segs.skip(1)),
        }
    }
}

pub proof fn lemma_segments_check_ok(segs: Seq<Seq<char>>)
    ensures
        segments_check(segs) is Ok <==> forall|k: int|
            0 <= k < segs.len() ==> is_valid_fragment(#[trigger] segs[k]),
    decreases segs.len(),
{
    if segs.len() > 0 {
        super::fragment::lemma_fragment_check_ok(segs[0]);
        lemma_segments_check_ok(segs.skip(1));
        if segments_check(segs) is Ok {
            assert forall|k: int| 0 <= k < segs.len() implies is_valid_fragment(#[trigger] segs[k]) by {
                if k > 0 {
                    assert(segs[k] == segs.skip(1)[k - 1]);
                }
            }
        } else {
            if fragment_check(segs[0]) is Ok {
                assert(segments_check(segs.skip(1)) is Err);
            }
        }
    }
}

/// A string is a valid path when it is empty (the root) or all of its
/// `/`-separated segments are valid fragments.
pub open spec fn is_valid_path(s: Seq<char>) -> bool {
    s.len() == 0 || segments_check(split_path(s)) is Ok
}

/// The fragment sequence denoted by a valid path string.
pub open spec fn path_of_str(s: Seq<char>) -> Seq<Seq<char>> {
    if s.len() == 0 {
        Seq::empty()
    } else {
        split_path(s)
    }
}

/// The fragments joined back with `/` between them.
pub open spec fn join_fragments(v: Seq<Seq<char>>) -> Seq<char>
    decreases v.len(),
{
    if v.len() == 0 {
        Seq::empty()
    } else if v.len() == 1 {
        v[0]
    } else {
        join_fragments(v.drop_last()) + seq!['/'] + v.last()
    }
}

/// The name of a directory's index file.
pub open spec fn index_html() -> Seq<char> {
    "index.html"@
}

/// Two paths are index-equivalent when they are equal, or one is the
/// other with `index.html` appended. Links to index-equivalent targets
/// render identically (up to the omitted final segment).
pub open spec fn eq_index_paths(a: Seq<Seq<char>>, b: Seq<Seq<char>>) -> bool {
    a == b || a.push(index_html()) == b || b.push(index_html()) == a
}

/// A path is index-equivalent to itself with `index.html` appended.
pub proof fn lemma_eq_index_append(p: Seq<Seq<char>>)
    ensures
        eq_index_paths(p, p.push(index_html())),
{
}

/// Index-equivalence is symmetric.
pub proof fn lemma_eq_index_symmetric(a: Seq<Seq<char>>, b: Seq<Seq<char>>)
    ensures
        eq_index_paths(a, b) == eq_index_paths(b, a),
{
}

/// An absolute path from the site root; the empty sequence is the root.
#[derive(Debug, PartialEq, Eq, PartialOrd, Ord, Hash)]
pub struct InternalPath {
    fragments: Vec<Fragment>,
}

impl View for InternalPath {
    type V = Seq<Seq<char>>;

    closed spec fn view(&self) -> Seq<Seq<char>> {
        self.fragments.deep_view()
    }
}

impl DeepView for InternalPath {
    type V = Seq<Seq<char>>;

    open spec fn deep_view(&self) -> Seq<Seq<char>> {
        self.view()
    }
}

impl Clone for InternalPath {
    /// Cloning keeps the fragment sequence.
    fn clone(&self) -> (r: Self)
        ensures
            r@ == self@ && r.wf() == self.wf(),
    {
        let mut fragments: Vec<Fragment> = Vec::new();
        let mut i: usize = 0;
        while i < self.fragments.len()
            invariant
                0 <= i <= self.fragments.len(),
                fragments@.len() == i,
                fragments.deep_view() == self.fragments.deep_view().take(i as int),
            decreases self.fragments.len() - i,
        {
            fragments.push(self.fragments[i].clone());
            proof {
                assert(fragments.deep_view() =~= self.fragments.deep_view().take(i + 1));
            }
            i += 1;
        }
        proof {
            assert(fragments.deep_view() =~= self.fragments.deep_view());
        }
        InternalPath { fragments }
    }
}

impl Default for InternalPath {
    /// The default path is the root.
    fn default() -> (r: Self)
        ensures
            r@ == Seq::<Seq<char>>::empty(),
            r.wf(),
    {
        InternalPath::root()
    }
}

impl InternalPath {
    /// Every fragment of the path passed validation.
    pub open spec fn wf(&self) -> bool {
        forall|i: int| 0 <= i < self@.len() ==> is_valid_fragment(#[trigger] self@[i])
    }

    /// The root path: no fragments.
    pub fn root() -> (r: Self)
        ensures
            r@ == Seq::<Seq<char>>::empty(),
            r.wf(),
    {
        InternalPath { fragments: Vec::new() }
    }

    /// Builds a path from already-validated fragments.
    pub fn from_fragments(fragments: Vec<Fragment>) -> (r: Self)
        ensures
            r@ == fragments.deep_view(),
    {
        InternalPath { fragments }
    }

    /// Splits `input` on `/` and validates every segment. The empty string
    /// parses as the root; otherwise parsing succeeds exactly when every
    /// segment is a valid fragment, and reports the first segment error.
    pub fn parse(input: &str) -> (r: Result<InternalPath, InvalidPath>)
        ensures
            r matches Ok(p) ==> p@ == path_of_str(input@) && p.wf(),
            r is Ok <==> is_valid_path(input@),
            r matches Err(InvalidPath::InvalidFragment(e)) ==> input@.len() > 0
                && segments_check(split_path(input@)) == Err::<(), InvalidFragment>(e),
    {
        let ghost s = input@;
        let n = input.unicode_len();
        let mut fragments: Vec<Fragment> = Vec::new();
        if n == 0 {
            return Ok(InternalPath { fragments });
        }
        proof {
            assert(fragments.deep_view() + split_from(s, 0) =~= split_from(s, 0));
        }
        let mut start: usize = 0;
        loop
            invariant_except_break
                split_path(s) == fragments.deep_view() + split_from(s, start as int),
                segments_check(split_path(s)) == segments_check(split_from(s, start as int)),
            invariant
                s == input@,
                n == s.len(),
                0 < n,
                0 <= start <= n,
                forall|k: int| 0 <= k < fragments.deep_view().len()
                    ==> is_valid_fragment(#[trigger] fragments.deep_view()[k]),
            ensures
                fragments.deep_view() == split_path(s),
                segments_check(split_path(s)) is Ok,
            decreases n - start,
        {
            proof {
                lemma_seg_end(s, start as int);
            }
            let mut e: usize = start;
            loop
                invariant
                    s == input@,
                    n == s.len(),
                    start <= e <= n,
                    seg_end(s, start as int) == seg_end(s, e as int),
                ensures
                    start <= e <= n,
                    seg_end(s, start as int) == e as int,
                decreases n - e,
            {
                if e == n {
                    proof {
                        assert(seg_end(s, e as int) == e);
                    }
                    break;
                }
                if input.get_char(e) == '/' {
                    proof {
                        assert(seg_end(s, e as int) == e);
                    }
                    break;
                }
                proof {
                    assert(seg_end(s, e as int) == seg_end(s, e + 1));
                }
                e += 1;
            }
            let seg = input.substring_char(start, e);
            let ghost segs_here = split_from(s, start as int);
            proof {
                assert(segs_here[0] == s.subrange(start as int, e as int));
                assert(seg@ == segs_here[0]);
            }
            let ghost dv0 = fragments.deep_view();
            match Fragment::parse(seg) {
                Err(err) => {
                    proof {
                        assert(segments_check(segs_here) == Err::<(), InvalidFragment>(err));
                    }
                    return Err(InvalidPath::InvalidFragment(err));
                },
                Ok(f) => {
                    fragments.push(f);
                    proof {
                        assert(fragments.deep_view() =~= dv0.push(f@));
                        super::fragment::lemma_fragment_check_ok(f@);
                        assert forall|k: int| 0 <= k < fragments.deep_view().len()
                            implies is_valid_fragment(#[trigger] fragments.deep_view()[k]) by {
                            if k < dv0.len() {
                                assert(fragments.deep_view()[k] == dv0[k]);
                            }
                        }
                    }
                },
            }
            if e == n {
                proof {
                    assert(segs_here =~= seq![s.subrange(start as int, e as int)]);
                    assert(fragments.deep_view() =~= split_path(s));
                }
                break;
            }
            proof {
                assert(segs_here == seq![s.subrange(start as int, e as int)]
                    + split_from(s, e + 1));
                assert(fragments.deep_view() + split_from(s, e + 1) =~= split_path(s));
                assert(segs_here.skip(1) =~= split_from(s, e + 1));
                assert(segments_check(segs_here) == segments_check(split_from(s, e + 1)));
            }
            start = e + 1;
        }
        proof {
            lemma_segments_check_ok(split_path(s));
        }
        Ok(InternalPath { fragments })
    }

    /// Whether this is the root path.
    pub fn is_root(&self) -> (r: bool)
        ensures
            r == (self@.len() == 0),
    {
        self.fragments.len() == 0
    }

    /// The number of fragments.
    pub fn len(&self) -> (r: usize)
        ensures
            r == self@.len(),
    {
        self.fragments.len()
    }

    /// The number of directories above the path's final entry: one less
    /// than the fragment count, saturating at zero.
    pub fn dir_depth(&self) -> (r: usize)
        ensures
            r == if self@.len() == 0 { 0int } else { self@.len() - 1 },
    {
        if self.fragments.len() == 0 {
            0
        } else {
            self.fragments.len() - 1
        }
    }

    /// The fragments of the path.
    pub fn fragments(&self) -> (r: &Vec<Fragment>)
        ensures
            r.deep_view() == self@,
    {
        &self.fragments
    }

    /// The fragment at position `i`.
    pub fn fragment(&self, i: usize) -> (r: &Fragment)
        requires
            i < self@.len(),
        ensures
            r@ == self@[i as int],
    {
        &self.fragments[i]
    }

    /// A copy of the fragments, in order.
    pub fn components(&self) -> (r: Vec<Fragment>)
        ensures
            r.deep_view() == self@,
    {
        self.clone().fragments
    }

    /// Appends one fragment at the end.
    pub fn push(&mut self, fragment: Fragment)
        ensures
            final(self)@ == old(self)@.push(fragment@),
            old(self).wf() && fragment.wf() ==> final(self).wf(),
    {
        self.fragments.push(fragment);
        proof {
            assert(self@ =~= old(self)@.push(fragment@));
            if old(self).wf() && fragment.wf() {
                assert forall|i: int| 0 <= i < self@.len()
                    implies is_valid_fragment(#[trigger] self@[i]) by {
                    if i < old(self)@.len() {
                        assert(self@[i] == old(self)@[i]);
                    }
                }
            }
        }
    }

    /// Removes and returns the last fragment, if any.
    pub fn pop(&mut self) -> (r: Option<Fragment>)
        ensures
            old(self)@.len() == 0 ==> r is None && final(self)@ == old(self)@,
            old(self)@.len() > 0 ==> (r matches Some(f) && f@ == old(self)@.last()
                && final(self)@ == old(self)@.drop_last()),
    {
        let r = self.fragments.pop();
        proof {
            if old(self)@.len() > 0 {
                assert(self@ =~= old(self)@.drop_last());
            } else {
                assert(self@ =~= old(self)@);
            }
        }
        r
    }

    /// The path without its last fragment, or nothing for the root.
    pub fn popped(&self) -> (r: Option<InternalPath>)
        ensures
            self@.len() == 0 ==> r is None,
            self@.len() > 0 ==> (r matches Some(p) && p@ == self@.drop_last()),
    {
        if self.fragments.len() == 0 {
            None
        } else {
            let mut copy = self.clone();
            let _ = copy.pop();
            Some(copy)
        }
    }

    /// The path extended with one more fragment.
    pub fn append(self, fragment: Fragment) -> (r: Self)
        ensures
            r@ == self@.push(fragment@),
            self.wf() && fragment.wf() ==> r.wf(),
    {
        let mut this = self;
        this.push(fragment);
        this
    }

    /// The path extended with one more segment, which must validate.
    pub fn try_append_str(self, segment: &str) -> (r: Result<Self, InvalidFragment>)
        ensures
            r matches Ok(p) ==> is_valid_fragment(segment@) && p@ == self@.push(segment@)
                && (self.wf() ==> p.wf()),
            r is Ok <==> is_valid_fragment(segment@),
            r matches Err(e) ==> fragment_check(segment@) == Err::<(), InvalidFragment>(e),
    {
        match Fragment::parse(segment) {
            Ok(f) => Ok(self.append(f)),
            Err(e) => Err(e),
        }
    }

    /// The path extended with one more segment already known to be valid;
    /// the panicking convenience counterpart of
    /// [`InternalPath::try_append_str`].
    pub fn append_str(self, segment: &str) -> (r: Self)
        requires
            is_valid_fragment(segment@),
        ensures
            r@ == self@.push(segment@),
            self.wf() ==> r.wf(),
    {
        match self.try_append_str(segment) {
            Ok(p) => p,
            Err(_) => vstd::pervasive::unreached(),
        }
    }

    /// The path written back as a `/`-separated string.
    pub fn to_string(&self) -> (r: String)
        ensures
            r@ == join_fragments(self@),
    {
        let mut out = String::new();
        let mut i: usize = 0;
        while i < self.fragments.len()
            invariant
                0 <= i <= self.fragments.len(),
                out@ == join_fragments(self@.take(i as int)),
            decreases self.fragments.len() - i,
        {
            if i > 0 {
                out.append("/");
            }
            out.append(self.fragments[i].as_str());
            proof {
                reveal_strlit("/");
                assert("/"@ =~= seq!['/']);
                let prefix = self@.take(i + 1);
                assert(prefix.drop_last() =~= self@.take(i as int));
                assert(prefix.last() == self@[i as int]);
                assert(out@ =~= join_fragments(prefix));
            }
            i += 1;
        }
        proof {
            assert(self@.take(self@.len() as int) =~= self@);
        }
        out
    }

    /// Whether two paths are index-equivalent: equal, or one is the other
    /// with a final `index.html` fragment added.
    pub fn eq_index(&self, other: &InternalPath) -> (r: bool)
        ensures
            r == eq_index_paths(self@, other@),
    {
        if self.fragments.len() == other.fragments.len() {
            let r = prefix_eq(&self.fragments, &other.fragments, self.fragments.len());
            proof {
                assert(self@.subrange(0, self@.len() as int) =~= self@);
                assert(other@.subrange(0, other@.len() as int) =~= other@);
                if !r {
                    assert(self@ != other@);
                    assert(self@.push(index_html()).len() != other@.len());
                    assert(other@.push(index_html()).len() != self@.len());
                }
            }
            r
        } else if other.fragments.len() >= 1 && self.fragments.len() == other.fragments.len() - 1 {
            let r = extends_with_index(&self.fragments, &other.fragments);
            proof {
                assert(self@.len() != other@.len());
                assert(other@.push(index_html()).len() != self@.len());
            }
            r
        } else if self.fragments.len() >= 1 && other.fragments.len() == self.fragments.len() - 1 {
            let r = extends_with_index(&other.fragments, &self.fragments);
            proof {
                assert(self@.len() != other@.len());
                assert(self@.push(index_html()).len() != other@.len());
            }
            r
        } else {
            proof {
                assert(self@.len() != other@.len());
                assert(self@.push(index_html()).len() != other@.len());
                assert(other@.push(index_html()).len() != self@.len());
            }
            false
        }
    }
}

/// Whether the first `k` fragments of `a` and `b` agree.
fn prefix_eq(a: &Vec<Fragment>, b: &Vec<Fragment>, k: usize) -> (r: bool)
    requires
        k <= a.deep_view().len(),
        k <= b.deep_view().len(),
    ensures
        r == (a.deep_view().subrange(0, k as int) == b.deep_view().subrange(0, k as int)),
{
    let mut i: usize = 0;
    while i < k
        invariant
            0 <= i <= k,
            k <= a.deep_view().len(),
            k <= b.deep_view().len(),
            forall|j: int| 0 <= j < i ==> a.deep_view()[j] == b.deep_view()[j],
        decreases k - i,
    {
        if !a[i].same_as(&b[i]) {
            proof {
                assert(a.deep_view().subrange(0, k as int)[i as int]
                    != b.deep_view().subrange(0, k as int)[i as int]);
            }
            return false;
        }
        i += 1;
    }
    proof {
        assert(a.deep_view().subrange(0, k as int) =~= b.deep_view().subrange(0, k as int));
    }
    true
}

/// Whether `b` is `a` plus a final `index.html` fragment.
fn extends_with_index(a: &Vec<Fragment>, b: &Vec<Fragment>) -> (r: bool)
    requires
        a.deep_view().len() + 1 == b.deep_view().len(),
    ensures
        r == (a.deep_view().push(index_html()) == b.deep_view()),
{
    let k = a.len();
    proof {
        assert(a.deep_view().len() == a.len());
        assert(b.deep_view().len() == b.len());
    }
    let same_prefix = prefix_eq(a, b, k);
    if !same_prefix {
        proof {
            let av = a.deep_view().push(index_html());
            assert(a.deep_view().subrange(0, k as int) =~= a.deep_view());
            if av == b.deep_view() {
                assert forall|j: int| 0 <= j < k implies a.deep_view()[j]
                    == #[trigger] b.deep_view()[j] by {
                    assert(av[j] == a.deep_view()[j]);
                }
                assert(a.deep_view().subrange(0, k as int)
                    =~= b.deep_view().subrange(0, k as int));
            }
        }
        return false;
    }
    let last_is_index = b[k].matches_str("index.html");
    proof {
        let av = a.deep_view().push(index_html());
        if last_is_index {
            assert forall|j: int| 0 <= j < b.deep_view().len() implies av[j]
                == #[trigger] b.deep_view()[j] by {
                if j < k {
                    assert(a.deep_view().subrange(0, k as int)[j]
                        == b.deep_view().subrange(0, k as int)[j]);
                }
            }
            assert(av =~= b.deep_view());
        } else {
            assert(av[k as int] == index_html());
            assert(b.deep_view()[k as int] == b[k as int]@);
        }
    }
    last_is_index
}

impl InternalPath {
    /// Appends one more segment, which must validate.
    pub fn try_push_str(&mut self, segment: &str) -> (r: Result<(), InvalidFragment>)
        ensures
            r is Ok <==> is_valid_fragment(segment@),
            r is Ok ==> final(self)@ == old(self)@.push(segment@),
            r is Err ==> final(self)@ == old(self)@,
            r matches Err(e) ==> fragment_check(segment@) == Err::<(), InvalidFragment>(e),
    {
        match Fragment::parse(segment) {
            Ok(f) => {
                self.push(f);
                Ok(())
            },
            Err(e) => Err(e),
        }
    }
}

impl Fragment {
    /// The fragment, boxed.
    pub fn to_boxed(&self) -> (r: Box<Fragment>)
        ensures
            r@ == self@,
    {
        Box::new(self.clone())
    }
}

impl InternalPath {
    /// Confirms at run time that every fragment of the path is well
    /// formed; paths built by the validating constructors always are.
    pub fn check_wf(&self) -> (r: bool)
        ensures
            r == self.wf(),
    {
        let mut i: usize = 0;
        while i < self.fragments.len()
            invariant
                0 <= i <= self@.len(),
                self@.len() == self.fragments@.len(),
                forall|j: int| 0 <= j < i ==> is_valid_fragment(#[trigger] self@[j]),
            decreases self@.len() - i,
        {
            if !self.fragments[i].check_wf() {
                proof {
                    assert(self@[i as int] == self.fragments@[i as int]@);
                }
                return false;
            }
            proof {
                assert(self@[i as int] == self.fragments@[i as int]@);
            }
            i += 1;
        }
        true
    }
}

impl InvalidPath {
    /// The rule the rejected string broke, in words.
    pub open spec fn message_view(self) -> Seq<char> {
        match self {
            InvalidPath::InvalidFragment(e) => e.message_view(),
        }
    }

    /// The rule the rejected string broke, in words.
    pub fn message(&self) -> (r: String)
        ensures
            r@ == self.message_view(),
    {
        match self {
            InvalidPath::InvalidFragment(e) => e.message(),
        }
    }
}

} // verus!
