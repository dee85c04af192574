//! A validated anchor name, used for in-page `#id` references.

use vstd::prelude::*;

verus! {

/// Why a string was rejected as an id.
#[derive(Debug, Clone, Copy, PartialEq, Eq)]
pub enum InvalidId {
    /// The id was empty.
    Empty,
    /// The first character was not an ASCII letter.
    InvalidStart(char),
    /// A later character was not an ASCII letter, digit, `_` or `-`.
    InvalidChar(char),
}

/// ASCII letter.
pub open spec fn is_ascii_letter(c: char) -> bool {
    (97 <= c as u32 <= 122) || (65 <= c as u32 <= 90)
}

/// ASCII letter or digit.
pub open spec fn is_ascii_alphanumeric(c: char) -> bool {
    is_ascii_letter(c) || (48 <= c as u32 <= 57)
}

/// A character allowed after the first one of an id.
pub open spec fn is_id_char(c: char) -> bool {
    is_ascii_alphanumeric(c) || c == '_' || c == '-'
}

/// A string is a valid id when it starts with an ASCII letter and all
/// later characters are ASCII alphanumerics, `_` or `-`.
pub open spec fn is_valid_id(s: Seq<char>) -> bool {
    &&& s.len() > 0
    &&& is_ascii_letter(s[0])
    &&& forall|i: int| 1 <= i < s.len() ==> is_id_char(#[trigger] s[i])
}

/// The error reported for the first disallowed character at or after
/// index `i` (`i >= 1`), if any.
pub open spec fn scan_id_from(s: Seq<char>, i: int) -> Result<(), InvalidId>
    decreases s.len() - i,
{
    if i < 0 || i >= s.len() {
        Ok(())
    } else if !is_id_char(s[i]) {
        Err(InvalidId::InvalidChar(s[i]))
    } else {
        scan_id_from(s, i + 1)
    }
}

/// The exact outcome of validating `s` as an id: empty, then the first
/// character, then the rest left to right.
pub open spec fn id_check(s: Seq<char>) -> Result<(), InvalidId> {
    if s.len() == 0 {
        Err(InvalidId::Empty)
    } else if !is_ascii_letter(s[0]) {
        Err(InvalidId::InvalidStart(s[0]))
    } else {
        scan_id_from(s, 1)
    }
}

/// A clean character scan succeeds, and vice versa.
pub proof fn lemma_scan_id_ok(s: Seq<char>, i: int)
    requires
        0 <= i <= s.len(),
    ensures
        scan_id_from(s, i) is Ok <==> forall|j: int| i <= j < s.len() ==> is_id_char(#[trigger] s[j]),
    decreases s.len() - i,
{
    if i < s.len() {
        lemma_scan_id_ok(s, i + 1);
    }
}

/// Validation succeeds exactly on the valid ids.
pub proof fn lemma_id_check_ok(s: Seq<char>)
    ensures
        id_check(s) is Ok <==> is_valid_id(s),
{
    if s.len() > 0 {
        lemma_scan_id_ok(s, 1);
    }
}

/// A validated anchor name; immutable once constructed.
#[derive(Debug, PartialEq, Eq, PartialOrd, Ord, Hash)]
pub struct Id {
    contents: String,
}

impl Clone for Id {
    /// Cloning keeps the characters.
    fn clone(&self) -> (r: Self)
        ensures
            r@ == self@,
    {
        Id { contents: self.contents.clone() }
    }
}

impl View for Id {
    type V = Seq<char>;

    closed spec fn view(&self) -> Seq<char> {
        self.contents@
    }
}

impl DeepView for Id {
    type V = Seq<char>;

    open spec fn deep_view(&self) -> Seq<char> {
        self.view()
    }
}

impl Id {
    /// The id holds a string that passed validation.
    pub open spec fn wf(&self) -> bool {
        is_valid_id(self@)
    }

    /// Validates `input` and wraps it as an id. Succeeds exactly when the
    /// first character is an ASCII letter and every later character is an
    /// ASCII alphanumeric, `_` or `-`; on failure reports the first rule
    /// broken.
    pub fn parse(input: &str) -> (r: Result<Id, InvalidId>)
        ensures
            r matches Ok(id) ==> id@ == input@ && id.wf(),
            r is Ok <==> is_valid_id(input@),
            r matches Err(e) ==> id_check(input@) == Err::<(), InvalidId>(e),
    {
        let n = input.unicode_len();
        if n == 0 {
            return Err(InvalidId::Empty);
        }
        let first = input.get_char(0);
        let fu = first as u32;
        if !((97 <= fu && fu <= 122) || (65 <= fu && fu <= 90)) {
            return Err(InvalidId::InvalidStart(first));
        }
        let mut i: usize = 1;
        while i < n
            invariant
                1 <= i <= n,
                n == input@.len(),
                is_ascii_letter(input@[0]),
                forall|j: int| 1 <= j < i ==> is_id_char(#[trigger] input@[j]),
                scan_id_from(input@, 1) == scan_id_from(input@, i as int),
                id_check(input@) == scan_id_from(input@, 1),
            decreases n - i,
        {
            let c = input.get_char(i);
            let u = c as u32;
            let ok = (97 <= u && u <= 122) || (65 <= u && u <= 90) || (48 <= u && u <= 57)
                || c == '_' || c == '-';
            if !ok {
                return Err(InvalidId::InvalidChar(c));
            }
            i += 1;
        }
        proof {
            lemma_id_check_ok(input@);
        }
        Ok(Id { contents: input.to_owned() })
    }

    /// Wraps a string already known to be a valid id; the panicking
    /// convenience counterpart of [`Id::parse`].
    pub fn new(input: &str) -> (r: Id)
        requires
            is_valid_id(input@),
        ensures
            r@ == input@ && r.wf(),
    {
        match Id::parse(input) {
            Ok(id) => id,
            Err(_) => vstd::pervasive::unreached(),
        }
    }

    /// The id's characters.
    pub fn as_str(&self) -> (r: &str)
        ensures
            r@ == self@,
    {
        self.contents.as_str()
    }

    /// The id's characters (alias of [`Id::as_str`]).
    pub fn raw_contents(&self) -> (r: &str)
        ensures
            r@ == self@,
    {
        self.contents.as_str()
    }
}

impl Id {
    /// Validates `input` and wraps the id in a box.
    pub fn parse_boxed(input: &str) -> (r: Result<Box<Id>, InvalidId>)
        ensures
            r matches Ok(id) ==> id@ == input@ && id.wf(),
            r is Ok <==> is_valid_id(input@),
            r matches Err(e) ==> id_check(input@) == Err::<(), InvalidId>(e),
    {
        match Id::parse(input) {
            Ok(id) => Ok(Box::new(id)),
            Err(e) => Err(e),
        }
    }

    /// The id, boxed.
    pub fn into_boxed(&self) -> (r: Box<Id>)
        ensures
            r@ == self@,
    {
        Box::new(self.clone())
    }
}

impl Id {
    /// Confirms at run time that the id is well formed; ids built by the
    /// validating constructors always are.
    pub fn check_wf(&self) -> (r: bool)
        ensures
            r == self.wf(),
    {
        match Id::parse(self.as_str()) {
            Ok(_) => true,
            Err(_) => false,
        }
    }
}

impl InvalidId {
    /// The rule the rejected string broke, in words; the offending
    /// character, where there is one, closes the message.
    pub open spec fn message_view(self) -> Seq<char> {
        match self {
            InvalidId::Empty => "Id cannot be empty"@,
            InvalidId::InvalidStart(c) => "Id must start with an ASCII letter, found "@
                + seq![c],
            InvalidId::InvalidChar(c) =>
                "Id must contain only ASCII letters, digits, '_' or '-', found "@ + seq![c],
        }
    }

    /// The rule the rejected string broke, in words.
    pub fn message(&self) -> (r: String)
        ensures
            r@ == self.message_view(),
    {
        match self {
            InvalidId::Empty => "Id cannot be empty".to_owned(),
            InvalidId::InvalidStart(c) => {
                let mut out = "Id must start with an ASCII letter, found ".to_owned();
                crate::render::common_text::push_char(&mut out, *c);
                out
            },
            InvalidId::InvalidChar(c) => {
                let mut out =
                    "Id must contain only ASCII letters, digits, '_' or '-', found ".to_owned();
                crate::render::common_text::push_char(&mut out, *c);
                out
            },
        }
    }
}

} // verus!
