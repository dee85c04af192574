//! External locations: opaque URL strings recognised by a `scheme://`
//! prefix.

use vstd::prelude::*;
use vstd::string::*;

use super::id::{is_ascii_letter, is_id_char};

verus! {

/// Why a string was rejected as an external location.
#[derive(Debug, Clone, Copy, PartialEq, Eq)]
pub enum InvalidExternal {
    /// No `://` separator was found.
    MissingScheme,
    /// The part before `://` was empty.
    EmptyScheme,
    /// The scheme did not start with an ASCII letter.
    InvalidSchemeStart(char),
    /// A later scheme character was not an ASCII alphanumeric, `_` or `-`.
    InvalidSchemeChar(char),
}

/// The position of the first `://` at or after `i`, or `-1` when there is
/// none.
pub open spec fn sep_from(s: Seq<char>, i: int) -> int
    decreases s.len() - i,
{
    if i < 0 || i + 3 > s.len() {
        -1
    } else if s[i] == ':' && s[i + 1] == '/' && s[i + 2] == '/' {
        i
    } else {
        sep_from(s, i + 1)
    }
}

pub proof fn lemma_sep_from(s: Seq<char>, i: int)
    requires
        0 <= i,
    ensures
        sep_from(s, i) == -1 || i <= sep_from(s, i) <= s.len() - 3,
        sep_from(s, i) >= 0 ==> s[sep_from(s, i)] == ':' && s[sep_from(s, i) + 1] == '/'
            && s[sep_from(s, i) + 2] == '/',
    decreases s.len() - i,
{
    if i + 3 <= s.len() && !(s[i] == ':' && s[i + 1] == '/' && s[i + 2] == '/') {
        lemma_sep_from(s, i + 1);
    }
}

/// Whether the string contains a `://` separator.
pub open spec fn has_scheme_sep(s: Seq<char>) -> bool {
    sep_from(s, 0) >= 0
}

/// The scheme of an external location string: everything before the first
/// `://`.
pub open spec fn scheme_part(s: Seq<char>) -> Seq<char> {
    s.subrange(0, sep_from(s, 0))
}

/// The remainder of an external location string: everything after the
/// first `://`.
pub open spec fn rest_part(s: Seq<char>) -> Seq<char> {
    s.subrange(sep_from(s, 0) + 3, s.len() as int)
}

/// The error reported for the first disallowed scheme character at or
/// after index `i` (`i >= 1`), if any.
pub open spec fn scan_scheme_from(s: Seq<char>, i: int) -> Result<(), InvalidExternal>
    decreases s.len() - i,
{
    if i < 0 || i >= s.len() {
        Ok(())
    } else if !is_id_char(s[i]) {
        Err(InvalidExternal::InvalidSchemeChar(s[i]))
    } else {
        scan_scheme_from(s, i + 1)
    }
}

pub proof fn lemma_scan_scheme_ok(s: Seq<char>, i: int)
    requires
        0 <= i <= s.len(),
    ensures
        scan_scheme_from(s, i) is Ok <==> forall|j: int|
            i <= j < s.len() ==> is_id_char(#[trigger] s[j]),
    decreases s.len() - i,
{
    if i < s.len() {
        lemma_scan_scheme_ok(s, i + 1);
    }
}

/// A scheme is valid when it starts with an ASCII letter and continues
/// with ASCII alphanumerics, `_` or `-`.
pub open spec fn is_valid_scheme(s: Seq<char>) -> bool {
    &&& s.len() > 0
    &&& is_ascii_letter(s[0])
    &&& forall|j: int| 1 <= j < s.len() ==> is_id_char(#[trigger] s[j])
}

/// A string is a valid external location when it has a `://` separator
/// and a valid scheme before it.
pub open spec fn is_valid_external(s: Seq<char>) -> bool {
    has_scheme_sep(s) && is_valid_scheme(scheme_part(s))
}

/// The exact outcome of validating `s` as an external location: the
/// separator, then the first scheme character, then the rest in order.
pub open spec fn external_check(s: Seq<char>) -> Result<(), InvalidExternal> {
    if !has_scheme_sep(s) {
        Err(InvalidExternal::MissingScheme)
    } else if scheme_part(s).len() == 0 {
        Err(InvalidExternal::EmptyScheme)
    } else if !is_ascii_letter(scheme_part(s)[0]) {
        Err(InvalidExternal::InvalidSchemeStart(scheme_part(s)[0]))
    } else {
        scan_scheme_from(scheme_part(s), 1)
    }
}

/// The scheme that marks an external location as an opaque,
/// non-hierarchical reference.
pub open spec fn other_scheme() -> Seq<char> {
    "other"@
}

/// The two shapes an external location can take.
#[derive(Debug, Clone, PartialEq, Eq)]
pub enum ViewRef {
    /// An ordinary URL: a scheme other than `other`, and the rest.
    WithHost {
        /// The scheme before `://`.
        scheme: String,
        /// Everything after `://`.
        rest: String,
    },
    /// An opaque reference carried by the `other` scheme.
    Other(String),
}

/// A validated external location; immutable once constructed.
#[derive(Debug, PartialEq, Eq, PartialOrd, Ord, Hash)]
pub struct External {
    contents: String,
}

impl View for External {
    type V = Seq<char>;

    closed spec fn view(&self) -> Seq<char> {
        self.contents@
    }
}

impl Clone for External {
    /// Cloning keeps the characters.
    fn clone(&self) -> (r: Self)
        ensures
            r@ == self@,
    {
        External { contents: self.contents.clone() }
    }
}

/// Finds the first `://` in `input`.
pub(crate) fn find_scheme_sep(input: &str) -> (r: Option<usize>)
    ensures
        r matches Some(i) ==> sep_from(input@, 0) == i as int,
        r is None ==> sep_from(input@, 0) == -1,
{
    let ghost s = input@;
    let n = input.unicode_len();
    if n < 3 {
        return None;
    }
    let mut i: usize = 0;
    loop
        invariant
            s == input@,
            n == s.len(),
            3 <= n,
            0 <= i <= n,
            sep_from(s, 0) == sep_from(s, i as int),
        ensures
            0 <= sep_from(s, 0) == i as int,
        decreases n - i,
    {
        if i > n - 3 {
            proof {
                assert(sep_from(s, i as int) == -1);
            }
            return None;
        }
        if input.get_char(i) == ':' && input.get_char(i + 1) == '/' && input.get_char(i + 2)
            == '/' {
            proof {
                assert(sep_from(s, i as int) == i);
            }
            break;
        }
        proof {
            assert(sep_from(s, i as int) == sep_from(s, i + 1));
        }
        i += 1;
    }
    Some(i)
}

impl External {
    /// The contents passed validation.
    pub open spec fn wf(&self) -> bool {
        is_valid_external(self@)
    }

    /// Validates `input` as an external location: it must contain `://`,
    /// and the scheme before the first `://` must start with an ASCII
    /// letter and continue with ASCII alphanumerics, `_` or `-`. On
    /// failure reports the first rule broken.
    pub fn parse(input: &str) -> (r: Result<External, InvalidExternal>)
        ensures
            r is Ok <==> is_valid_external(input@),
            r matches Ok(e) ==> e@ == input@ && e.wf(),
            r matches Err(e) ==> external_check(input@) == Err::<(), InvalidExternal>(e),
    {
        let ghost s = input@;
        let n = input.unicode_len();
        let sep = match find_scheme_sep(input) {
            Some(sep) => sep,
            None => {
                return Err(InvalidExternal::MissingScheme);
            },
        };
        proof {
            lemma_sep_from(s, 0);
        }
        if sep == 0 {
            proof {
                assert(scheme_part(s).len() == 0);
            }
            return Err(InvalidExternal::EmptyScheme);
        }
        let scheme = input.substring_char(0, sep);
        proof {
            assert(scheme@ == scheme_part(s));
        }
        let first = scheme.get_char(0);
        let fu = first as u32;
        if !((97 <= fu && fu <= 122) || (65 <= fu && fu <= 90)) {
            return Err(InvalidExternal::InvalidSchemeStart(first));
        }
        let mut i: usize = 1;
        while i < sep
            invariant
                s == input@,
                n == s.len(),
                sep_from(s, 0) == sep as int,
                scheme@ == scheme_part(s),
                scheme@.len() == sep,
                1 <= i <= sep,
                is_ascii_letter(scheme@[0]),
                forall|j: int| 1 <= j < i ==> is_id_char(#[trigger] scheme@[j]),
                scan_scheme_from(scheme@, 1) == scan_scheme_from(scheme@, i as int),
            decreases sep - i,
        {
            let c = scheme.get_char(i);
            let u = c as u32;
            let ok = (97 <= u && u <= 122) || (65 <= u && u <= 90) || (48 <= u && u <= 57)
                || c == '_' || c == '-';
            if !ok {
                return Err(InvalidExternal::InvalidSchemeChar(c));
            }
            i += 1;
        }
        proof {
            lemma_scan_scheme_ok(scheme@, 1);
        }
        Ok(External { contents: input.to_owned() })
    }

    /// Same validation as [`External::parse`].
    pub fn new(input: &str) -> (r: Result<External, InvalidExternal>)
        ensures
            r is Ok <==> is_valid_external(input@),
            r matches Ok(e) ==> e@ == input@ && e.wf(),
            r matches Err(e) ==> external_check(input@) == Err::<(), InvalidExternal>(e),
    {
        External::parse(input)
    }

    /// The location's characters.
    pub fn raw_contents(&self) -> (r: &str)
        ensures
            r@ == self@,
    {
        self.contents.as_str()
    }

    /// Splits the location into its scheme and the rest; locations under
    /// the `other` scheme are the opaque case.
    pub fn view_ref(&self) -> (r: ViewRef)
        requires
            self.wf(),
        ensures
            scheme_part(self@) == other_scheme() ==> (r matches ViewRef::Other(rest)
                && rest@ == rest_part(self@)),
            scheme_part(self@) != other_scheme() ==> (r matches ViewRef::WithHost {
                scheme,
                rest,
            } && scheme@ == scheme_part(self@) && rest@ == rest_part(self@)),
    {
        let ghost s = self@;
        let n = self.contents.as_str().unicode_len();
        let sep = match find_scheme_sep(self.contents.as_str()) {
            Some(sep) => sep,
            None => vstd::pervasive::unreached(),
        };
        proof {
            lemma_sep_from(s, 0);
        }
        let scheme = self.contents.as_str().substring_char(0, sep);
        let rest = self.contents.as_str().substring_char(sep + 3, n).to_owned();
        proof {
            assert(scheme@ == scheme_part(s));
            assert(rest@ == rest_part(s));
        }
        if scheme.to_owned() == "other".to_owned() {
            ViewRef::Other(rest)
        } else {
            ViewRef::WithHost { scheme: scheme.to_owned(), rest }
        }
    }
}

impl External {
    /// Validates `input` and wraps the location in a box.
    pub fn new_boxed(input: &str) -> (r: Result<Box<External>, InvalidExternal>)
        ensures
            r is Ok <==> is_valid_external(input@),
            r matches Ok(e) ==> e@ == input@ && e.wf(),
            r matches Err(e) ==> external_check(input@) == Err::<(), InvalidExternal>(e),
    {
        match External::parse(input) {
            Ok(e) => Ok(Box::new(e)),
            Err(e) => Err(e),
        }
    }

    /// The location, boxed.
    pub fn to_boxed(&self) -> (r: Box<External>)
        ensures
            r@ == self@,
    {
        Box::new(self.clone())
    }
}

impl ViewRef {
    /// Validates `input` and splits it into scheme and rest.
    pub fn parse(input: &str) -> (r: Result<ViewRef, InvalidExternal>)
        ensures
            r is Ok <==> is_valid_external(input@),
            r matches Ok(v) ==> (scheme_part(input@) == other_scheme() ==> (v matches
                ViewRef::Other(rest) && rest@ == rest_part(input@))),
            r matches Ok(v) ==> (scheme_part(input@) != other_scheme() ==> (v matches
                ViewRef::WithHost { scheme, rest } && scheme@ == scheme_part(input@) && rest@
                == rest_part(input@))),
            r matches Err(e) ==> external_check(input@) == Err::<(), InvalidExternal>(e),
    {
        match External::parse(input) {
            Ok(e) => Ok(e.view_ref()),
            Err(e) => Err(e),
        }
    }
}

impl External {
    /// The scheme before the `://`.
    pub fn scheme(&self) -> (r: String)
        requires
            self.wf(),
        ensures
            r@ == scheme_part(self@),
    {
        let ghost s = self@;
        proof {
            lemma_sep_from(s, 0);
        }
        let sep = match find_scheme_sep(self.contents.as_str()) {
            Some(sep) => sep,
            None => vstd::pervasive::unreached(),
        };
        self.contents.as_str().substring_char(0, sep).to_owned()
    }

    /// Everything after the `://`.
    pub fn rest(&self) -> (r: String)
        requires
            self.wf(),
        ensures
            r@ == rest_part(self@),
    {
        let ghost s = self@;
        proof {
            lemma_sep_from(s, 0);
        }
        let n = self.contents.as_str().unicode_len();
        let sep = match find_scheme_sep(self.contents.as_str()) {
            Some(sep) => sep,
            None => vstd::pervasive::unreached(),
        };
        self.contents.as_str().substring_char(sep + 3, n).to_owned()
    }
}

impl External {
    /// Confirms at run time that the location is well formed; locations
    /// built by the validating constructors always are.
    pub fn check_wf(&self) -> (r: bool)
        ensures
            r == self.wf(),
    {
        match External::parse(self.contents.as_str()) {
            Ok(_) => true,
            Err(_) => false,
        }
    }
}

impl InvalidExternal {
    /// The rule the rejected string broke, in words; the offending
    /// character, where there is one, closes the message.
    pub open spec fn message_view(self) -> Seq<char> {
        match self {
            InvalidExternal::MissingScheme => "missing external location scheme"@,
            InvalidExternal::EmptyScheme => "external location scheme cannot be empty"@,
            InvalidExternal::InvalidSchemeStart(c) =>
                "invalid starting character in external location scheme: "@ + seq![c],
            InvalidExternal::InvalidSchemeChar(c) =>
                "invalid character in external location scheme: "@ + seq![c],
        }
    }

    /// The rule the rejected string broke, in words.
    pub fn message(&self) -> (r: String)
        ensures
            r@ == self.message_view(),
    {
        match self {
            InvalidExternal::MissingScheme => "missing external location scheme".to_owned(),
            InvalidExternal::EmptyScheme => "external location scheme cannot be empty".to_owned(),
            InvalidExternal::InvalidSchemeStart(c) => {
                let mut out =
                    "invalid starting character in external location scheme: ".to_owned();
                crate::render::common_text::push_char(&mut out, *c);
                out
            },
            InvalidExternal::InvalidSchemeChar(c) => {
                let mut out = "invalid character in external location scheme: ".to_owned();
                crate::render::common_text::push_char(&mut out, *c);
                out
            },
        }
    }
}

} // verus!
