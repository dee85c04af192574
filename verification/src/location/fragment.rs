//! A single validated segment of an internal path.

use vstd::prelude::*;

verus! {

/// Why a string was rejected as a path fragment.
#[derive(Debug, Clone, Copy, PartialEq, Eq)]
pub enum InvalidFragment {
    /// The fragment was empty.
    Empty,
    /// The fragment was `.`, which would refer to the current directory.
    CurrentDir,
    /// The fragment was `..`, which would refer to the parent directory.
    ParentDir,
    /// The fragment contained a `/`.
    Bar,
    /// The fragment contained a `#`.
    Hash,
}

/// A string is a valid fragment when it is non-empty, is neither `.` nor
/// `..`, and contains neither `/` nor `#`.
pub open spec fn is_valid_fragment(s: Seq<char>) -> bool {
    &&& s.len() > 0
    &&& s != seq!['.']
    &&& s != seq!['.', '.']
    &&& forall|i: int| 0 <= i < s.len() ==> s[i] != '/' && s[i] != '#'
}

/// The error reported for the first `/` or `#` in `s` at or after `i`,
/// if any.
pub open spec fn scan_fragment_from(s: Seq<char>, i: int) -> Result<(), InvalidFragment>
    decreases s.len() - i,
{
    if i < 0 || i >= s.len() {
        Ok(())
    } else if s[i] == '/' {
        Err(InvalidFragment::Bar)
    } else if s[i] == '#' {
        Err(InvalidFragment::Hash)
    } else {
        scan_fragment_from(s, i + 1)
    }
}

/// The exact outcome of validating `s` as a fragment: the rules are
/// checked in order (empty, `.`, `..`, then the characters left to right).
pub open spec fn fragment_check(s: Seq<char>) -> Result<(), InvalidFragment> {
    if s.len() == 0 {
        Err(InvalidFragment::Empty)
    } else if s == seq!['.'] {
        Err(InvalidFragment::CurrentDir)
    } else if s == seq!['.', '.'] {
        Err(InvalidFragment::ParentDir)
    } else {
        scan_fragment_from(s, 0)
    }
}

/// A clean character scan succeeds, and vice versa.
pub proof fn lemma_scan_fragment_ok(s: Seq<char>, i: int)
    requires
        0 <= i <= s.len(),
    ensures
        scan_fragment_from(s, i) is Ok <==> forall|j: int|
            i <= j < s.len() ==> s[j] != '/' && s[j] != '#',
    decreases s.len() - i,
{
    if i < s.len() {
        lemma_scan_fragment_ok(s, i + 1);
    }
}

/// Validation succeeds exactly on the valid fragments.
pub proof fn lemma_fragment_check_ok(s: Seq<char>)
    ensures
        fragment_check(s) is Ok <==> is_valid_fragment(s),
{
    lemma_scan_fragment_ok(s, 0);
}

/// One validated path segment; immutable once constructed.
#[derive(Debug, PartialEq, Eq, PartialOrd, Ord, Hash)]
pub struct Fragment {
    contents: String,
}

impl Clone for Fragment {
    /// Cloning keeps the characters.
    fn clone(&self) -> (r: Self)
        ensures
            r@ == self@,
    {
        Fragment { contents: self.contents.clone() }
    }
}

impl View for Fragment {
    type V = Seq<char>;

    closed spec fn view(&self) -> Seq<char> {
        self.contents@
    }
}

impl DeepView for Fragment {
    type V = Seq<char>;

    open spec fn deep_view(&self) -> Seq<char> {
        self.view()
    }
}

impl Fragment {
    /// The fragment holds a string that passed validation.
    pub open spec fn wf(&self) -> bool {
        is_valid_fragment(self@)
    }

    /// Validates `input` and wraps it as a fragment. Succeeds exactly when
    /// `input` is non-empty, neither `.` nor `..`, and free of `/` and `#`;
    /// on failure reports the first rule broken.
    pub fn parse(input: &str) -> (r: Result<Fragment, InvalidFragment>)
        ensures
            r matches Ok(f) ==> f@ == input@ && f.wf(),
            r is Ok <==> is_valid_fragment(input@),
            r matches Err(e) ==> fragment_check(input@) == Err::<(), InvalidFragment>(e),
    {
        let n = input.unicode_len();
        if n == 0 {
            return Err(InvalidFragment::Empty);
        }
        if n == 1 && input.get_char(0) == '.' {
            proof {
                assert(input@ == seq!['.']);
            }
            return Err(InvalidFragment::CurrentDir);
        }
        if n == 2 && input.get_char(0) == '.' && input.get_char(1) == '.' {
            proof {
                assert(input@ == seq!['.', '.']);
            }
            return Err(InvalidFragment::ParentDir);
        }
        let mut i: usize = 0;
        while i < n
            invariant
                0 <= i <= n,
                n == input@.len(),
                forall|j: int| 0 <= j < i ==> input@[j] != '/' && input@[j] != '#',
                scan_fragment_from(input@, 0) == scan_fragment_from(input@, i as int),
                fragment_check(input@) == scan_fragment_from(input@, 0),
            decreases n - i,
        {
            let c = input.get_char(i);
            if c == '/' {
                return Err(InvalidFragment::Bar);
            }
            if c == '#' {
                return Err(InvalidFragment::Hash);
            }
            i += 1;
        }
        proof {
            lemma_fragment_check_ok(input@);
        }
        Ok(Fragment { contents: input.to_owned() })
    }

    /// Same validation as [`Fragment::parse`].
    pub fn new(input: &str) -> (r: Result<Fragment, InvalidFragment>)
        ensures
            r matches Ok(f) ==> f@ == input@ && f.wf(),
            r is Ok <==> is_valid_fragment(input@),
            r matches Err(e) ==> fragment_check(input@) == Err::<(), InvalidFragment>(e),
    {
        Fragment::parse(input)
    }

    /// The fragment's characters.
    pub fn as_str(&self) -> (r: &str)
        ensures
            r@ == self@,
    {
        self.contents.as_str()
    }

    /// The fragment's characters (alias of [`Fragment::as_str`]).
    pub fn raw_contents(&self) -> (r: &str)
        ensures
            r@ == self@,
    {
        self.contents.as_str()
    }

    /// Structural equality of two fragments.
    pub fn same_as(&self, other: &Fragment) -> (r: bool)
        ensures
            r == (self@ == other@),
    {
        self.contents == other.contents
    }

    /// Whether the fragment holds exactly the characters of `s`.
    pub fn matches_str(&self, s: &str) -> (r: bool)
        ensures
            r == (self@ == s@),
    {
        self.contents == s.to_owned()
    }
}

impl Fragment {
    /// A borrowed view of the fragment.
    pub fn borrow(&self) -> (r: &Fragment)
        ensures
            r@ == self@,
    {
        self
    }

    /// The fragment as its owned form.
    pub fn into_default_owned(self) -> (r: Fragment)
        ensures
            r@ == self@,
    {
        self
    }
}

impl Fragment {
    /// Confirms at run time that the fragment is well formed; fragments
    /// built by the validating constructors always are.
    pub fn check_wf(&self) -> (r: bool)
        ensures
            r == self.wf(),
    {
        match Fragment::parse(self.as_str()) {
            Ok(_) => true,
            Err(_) => false,
        }
    }
}

impl InvalidFragment {
    /// The rule the rejected string broke, in words.
    pub open spec fn message_view(self) -> Seq<char> {
        match self {
            InvalidFragment::Empty => "Fragment cannot be empty"@,
            InvalidFragment::CurrentDir => "Fragment cannot reference current directory"@,
            InvalidFragment::ParentDir => "Fragment cannot reference parent directory"@,
            InvalidFragment::Bar => "Fragment cannot contain a bar '/'"@,
            InvalidFragment::Hash => "Fragment cannot contain a hash '#'"@,
        }
    }

    /// The rule the rejected string broke, in words.
    pub fn message(&self) -> (r: String)
        ensures
            r@ == self.message_view(),
    {
        match self {
            InvalidFragment::Empty => "Fragment cannot be empty".to_owned(),
            InvalidFragment::CurrentDir => "Fragment cannot reference current directory".to_owned(),
            InvalidFragment::ParentDir => "Fragment cannot reference parent directory".to_owned(),
            InvalidFragment::Bar => "Fragment cannot contain a bar '/'".to_owned(),
            InvalidFragment::Hash => "Fragment cannot contain a hash '#'".to_owned(),
        }
    }
}

} // verus!
