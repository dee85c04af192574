//! Internal locations: an absolute path plus an optional anchor id.

use vstd::prelude::*;
use vstd::string::*;

use super::id::{id_check, is_valid_id, Id, InvalidId};
use super::path::{
    is_valid_path, join_fragments, path_of_str, segments_check, split_path, InternalPath,
    InvalidPath,
};

verus! {

/// Why a string was rejected as an internal location.
#[derive(Debug, Clone, Copy, PartialEq, Eq)]
pub enum InvalidInternal {
    /// The part before the `#` was not a valid path.
    InvalidPath(InvalidPath),
    /// The part after the `#` was not a valid id.
    InvalidId(InvalidId),
}

/// The position of the first `#` at or after `i`, or the length of `s`
/// when there is none.
pub open spec fn hash_end(s: Seq<char>, i: int) -> int
    decreases s.len() - i,
{
    if i < 0 || i >= s.len() {
        s.len() as int
    } else if s[i] == '#' {
        i
    } else {
        hash_end(s, i + 1)
    }
}

pub proof fn lemma_hash_end(s: Seq<char>, i: int)
    requires
        0 <= i <= s.len(),
    ensures
        i <= hash_end(s, i) <= s.len(),
        forall|j: int| i <= j < hash_end(s, i) ==> s[j] != '#',
        hash_end(s, i) < s.len() ==> s[hash_end(s, i)] == '#',
    decreases s.len() - i,
{
    if i < s.len() && s[i] != '#' {
        lemma_hash_end(s, i + 1);
    }
}

/// The path part of an internal location string: everything before the
/// first `#`, or all of it when there is none.
pub open spec fn internal_path_part(s: Seq<char>) -> Seq<char> {
    s.subrange(0, hash_end(s, 0))
}

/// The id part of an internal location string: everything after the first
/// `#`, when there is one.
pub open spec fn internal_id_part(s: Seq<char>) -> Seq<char> {
    s.subrange(hash_end(s, 0) + 1, s.len() as int)
}

/// Whether the string has a `#` at all.
pub open spec fn has_hash(s: Seq<char>) -> bool {
    hash_end(s, 0) < s.len()
}

/// A string is a valid internal location when its path part is a valid
/// path and, if a `#` is present, the part after it is a valid id.
pub open spec fn is_valid_internal(s: Seq<char>) -> bool {
    &&& is_valid_path(internal_path_part(s))
    &&& has_hash(s) ==> is_valid_id(internal_id_part(s))
}

/// The exact outcome of validating `s` as an internal location: when a
/// `#` is present the id is checked before the path.
pub open spec fn internal_check(s: Seq<char>) -> Result<(), InvalidInternal> {
    if has_hash(s) {
        if id_check(internal_id_part(s)) is Err {
            Err(InvalidInternal::InvalidId(id_check(internal_id_part(s))->Err_0))
        } else if s.subrange(0, hash_end(s, 0)).len() > 0 && segments_check(
            split_path(internal_path_part(s)),
        ) is Err {
            Err(
                InvalidInternal::InvalidPath(
                    InvalidPath::InvalidFragment(
                        segments_check(split_path(internal_path_part(s)))->Err_0,
                    ),
                ),
            )
        } else {
            Ok(())
        }
    } else {
        if s.len() > 0 && segments_check(split_path(s)) is Err {
            Err(
                InvalidInternal::InvalidPath(
                    InvalidPath::InvalidFragment(segments_check(split_path(s))->Err_0),
                ),
            )
        } else {
            Ok(())
        }
    }
}

/// An internal location: a path, optionally followed by an anchor id.
#[derive(Debug, PartialEq, Eq, PartialOrd, Ord, Hash)]
pub struct Internal {
    /// The document the location points at.
    pub path: InternalPath,
    /// The anchor within that document, if any.
    pub id: Option<Id>,
}

impl Clone for Internal {
    /// Cloning keeps the path and the id.
    fn clone(&self) -> (r: Self)
        ensures
            r.path@ == self.path@,
            r.id is Some <==> self.id is Some,
            r.id matches Some(id) ==> self.id matches Some(sid) && id@ == sid@,
    {
        Internal {
            path: self.path.clone(),
            id: match &self.id {
                Some(id) => Some(id.clone()),
                None => None,
            },
        }
    }
}

impl Internal {
    /// The path is made of valid fragments and the id, if any, is valid.
    pub open spec fn wf(&self) -> bool {
        &&& self.path.wf()
        &&& self.id matches Some(id) ==> id.wf()
    }

    /// The view of the id part, when present.
    pub open spec fn id_view(&self) -> Option<Seq<char>> {
        match self.id {
            Some(id) => Some(id@),
            None => None,
        }
    }

    /// Builds an internal location from its parts.
    pub fn new(path: InternalPath, id: Option<Id>) -> (r: Internal)
        ensures
            r.path@ == path@,
            r.id == id,
    {
        Internal { path, id }
    }

    /// Splits `input` at the first `#` and validates the two parts: the
    /// part before must be a path (empty meaning the root), the part
    /// after, if any, an id. The id is checked first, as the sharper
    /// error.
    pub fn parse(input: &str) -> (r: Result<Internal, InvalidInternal>)
        ensures
            r is Ok <==> is_valid_internal(input@),
            r matches Ok(loc) ==> loc.path@ == path_of_str(internal_path_part(input@))
                && loc.wf()
                && (loc.id is Some <==> has_hash(input@))
                && (loc.id matches Some(id) ==> id@ == internal_id_part(input@)),
            r matches Err(e) ==> internal_check(input@) == Err::<(), InvalidInternal>(e),
    {
        let ghost s = input@;
        let n = input.unicode_len();
        proof {
            lemma_hash_end(s, 0);
        }
        let mut h: usize = 0;
        loop
            invariant
                s == input@,
                n == s.len(),
                0 <= h <= n,
                hash_end(s, 0) == hash_end(s, h as int),
            ensures
                0 <= h <= n,
                hash_end(s, 0) == h as int,
            decreases n - h,
        {
            if h == n {
                proof {
                    assert(hash_end(s, h as int) == h);
                }
                break;
            }
            if input.get_char(h) == '#' {
                proof {
                    assert(hash_end(s, h as int) == h);
                }
                break;
            }
            proof {
                assert(hash_end(s, h as int) == hash_end(s, h + 1));
            }
            h += 1;
        }
        if h == n {
            proof {
                assert(internal_path_part(s) =~= s);
            }
            match InternalPath::parse(input) {
                Ok(path) => Ok(Internal { path, id: None }),
                Err(e) => Err(InvalidInternal::InvalidPath(e)),
            }
        } else {
            let path_str = input.substring_char(0, h);
            let id_str = input.substring_char(h + 1, n);
            proof {
                assert(path_str@ == internal_path_part(s));
                assert(id_str@ == internal_id_part(s));
            }
            let id = match Id::parse(id_str) {
                Ok(id) => id,
                Err(e) => {
                    return Err(InvalidInternal::InvalidId(e));
                },
            };
            proof {
                super::id::lemma_id_check_ok(id_str@);
            }
            match InternalPath::parse(path_str) {
                Ok(path) => Ok(Internal { path, id: Some(id) }),
                Err(e) => Err(InvalidInternal::InvalidPath(e)),
            }
        }
    }

    /// The location written back as a string: the path, then `#` and the
    /// id when present.
    pub fn to_string(&self) -> (r: String)
        ensures
            self.id is None ==> r@ == join_fragments(self.path@),
            self.id matches Some(id) ==> r@ == join_fragments(self.path@) + seq!['#'] + id@,
    {
        let mut out = self.path.to_string();
        match &self.id {
            None => out,
            Some(id) => {
                out.append("#");
                out.append(id.as_str());
                proof {
                    reveal_strlit("#");
                    assert("#"@ =~= seq!['#']);
                    assert(out@ =~= join_fragments(self.path@) + seq!['#'] + id@);
                }
                out
            },
        }
    }
}

impl Internal {
    /// Validates `input` and wraps the location in a box.
    pub fn parse_boxed(input: &str) -> (r: Result<Box<Internal>, InvalidInternal>)
        ensures
            r is Ok <==> is_valid_internal(input@),
            r matches Ok(loc) ==> loc.wf(),
            r matches Err(e) ==> internal_check(input@) == Err::<(), InvalidInternal>(e),
    {
        match Internal::parse(input) {
            Ok(loc) => Ok(Box::new(loc)),
            Err(e) => Err(e),
        }
    }

    /// The location, boxed.
    pub fn into_boxed(&self) -> (r: Box<Internal>)
        ensures
            r.path@ == self.path@,
            r.id_view() == self.id_view(),
    {
        Box::new(self.clone())
    }

    /// The location written back as a string (alias of
    /// [`Internal::to_string`]).
    pub fn raw_contents(&self) -> (r: String)
        ensures
            self.id is None ==> r@ == join_fragments(self.path@),
            self.id matches Some(id) ==> r@ == join_fragments(self.path@) + seq!['#'] + id@,
    {
        self.to_string()
    }

    /// The path part of the location.
    pub fn path(&self) -> (r: &InternalPath)
        ensures
            r@ == self.path@,
    {
        &self.path
    }

    /// The anchor part of the location, if any.
    pub fn id(&self) -> (r: &Option<Id>)
        ensures
            r == &self.id,
    {
        &self.id
    }
}

impl Internal {
    /// A location pointing at a whole document, with no anchor.
    pub fn from_path(path: InternalPath) -> (r: Internal)
        ensures
            r.path@ == path@,
            r.id is None,
            path.wf() ==> r.wf(),
    {
        Internal { path, id: None }
    }
}

impl Internal {
    /// Confirms at run time that the path and the id are well formed.
    pub fn check_wf(&self) -> (r: bool)
        ensures
            r == self.wf(),
    {
        if !self.path.check_wf() {
            return false;
        }
        match &self.id {
            Some(id) => id.check_wf(),
            None => true,
        }
    }
}

impl InvalidInternal {
    /// The rule the rejected string broke, in words.
    pub open spec fn message_view(self) -> Seq<char> {
        match self {
            InvalidInternal::InvalidPath(e) => e.message_view(),
            InvalidInternal::InvalidId(e) => e.message_view(),
        }
    }

    /// The rule the rejected string broke, in words.
    pub fn message(&self) -> (r: String)
        ensures
            r@ == self.message_view(),
    {
        match self {
            InvalidInternal::InvalidPath(e) => e.message(),
            InvalidInternal::InvalidId(e) => e.message(),
        }
    }
}

} // verus!
