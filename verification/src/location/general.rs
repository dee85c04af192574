//! The general location: either internal (a path and optional anchor) or
//! external (an opaque URL with a scheme).

use vstd::prelude::*;

use super::external::{external_check, has_scheme_sep, is_valid_external, External, InvalidExternal};
use super::internal::{
    internal_check, internal_id_part, internal_path_part, is_valid_internal, Internal,
    InvalidInternal,
};
use super::path::{join_fragments, path_of_str, InternalPath};

verus! {

/// Why a string was rejected as a location.
#[derive(Debug, Clone, Copy, PartialEq, Eq)]
pub enum InvalidLocation {
    /// The string has no `://` and failed internal-location validation.
    InvalidInternal(InvalidInternal),
    /// The string has a `://` and failed external-location validation.
    InvalidExternal(InvalidExternal),
}

/// A string with a `://` separator is parsed as an external location;
/// anything else as an internal one.
pub open spec fn is_valid_location(s: Seq<char>) -> bool {
    if has_scheme_sep(s) {
        is_valid_external(s)
    } else {
        is_valid_internal(s)
    }
}

/// A location: either within this site, or outside it.
#[derive(Debug, PartialEq, Eq)]
pub enum Location {
    /// A document of this site, optionally at an anchor.
    Internal(Internal),
    /// An address outside the site, kept opaque.
    External(External),
}

impl Clone for Location {
    /// Cloning keeps the case and its contents.
    fn clone(&self) -> (r: Self)
        ensures
            r.wf() == self.wf(),
            self matches Location::External(e) ==> (r matches Location::External(re) && re@
                == e@),
            self matches Location::Internal(loc) ==> (r matches Location::Internal(rloc)
                && rloc.path@ == loc.path@ && rloc.id_view() == loc.id_view()),
    {
        match self {
            Location::Internal(loc) => Location::Internal(loc.clone()),
            Location::External(e) => Location::External(e.clone()),
        }
    }
}

impl Location {
    /// The held value passed its validation.
    pub open spec fn wf(&self) -> bool {
        match self {
            Location::Internal(loc) => loc.wf(),
            Location::External(e) => e.wf(),
        }
    }

    /// Validates `input` as a location: strings containing `://` must be
    /// valid external locations, all others valid internal ones.
    pub fn parse(input: &str) -> (r: Result<Location, InvalidLocation>)
        ensures
            r is Ok <==> is_valid_location(input@),
            r matches Ok(l) ==> l.wf(),
            r matches Ok(Location::External(e)) ==> has_scheme_sep(input@) && e@ == input@,
            r matches Ok(Location::Internal(loc)) ==> !has_scheme_sep(input@)
                && loc.path@ == path_of_str(internal_path_part(input@))
                && (loc.id matches Some(id) ==> id@ == internal_id_part(input@)),
            r matches Err(InvalidLocation::InvalidExternal(e)) ==> has_scheme_sep(input@)
                && external_check(input@) == Err::<(), InvalidExternal>(e),
            r matches Err(InvalidLocation::InvalidInternal(e)) ==> !has_scheme_sep(input@)
                && internal_check(input@) == Err::<(), InvalidInternal>(e),
    {
        if contains_scheme_sep(input) {
            match External::parse(input) {
                Ok(e) => Ok(Location::External(e)),
                Err(e) => Err(InvalidLocation::InvalidExternal(e)),
            }
        } else {
            match Internal::parse(input) {
                Ok(loc) => Ok(Location::Internal(loc)),
                Err(e) => Err(InvalidLocation::InvalidInternal(e)),
            }
        }
    }

    /// Same validation as [`Location::parse`].
    pub fn new(input: &str) -> (r: Result<Location, InvalidLocation>)
        ensures
            r is Ok <==> is_valid_location(input@),
            r matches Ok(l) ==> l.wf(),
    {
        Location::parse(input)
    }

    /// Wraps a string already known to be a valid internal location; the
    /// panicking convenience counterpart of [`Location::parse`].
    pub fn internal(input: &str) -> (r: Location)
        requires
            !has_scheme_sep(input@),
            is_valid_internal(input@),
        ensures
            r matches Location::Internal(loc) && loc.wf()
                && loc.path@ == path_of_str(internal_path_part(input@))
                && (loc.id matches Some(id) ==> id@ == internal_id_part(input@)),
    {
        match Location::parse(input) {
            Ok(l) => l,
            Err(_) => vstd::pervasive::unreached(),
        }
    }

    /// A location pointing at a whole document of the site.
    pub fn from_path(path: InternalPath) -> (r: Location)
        ensures
            r matches Location::Internal(loc) && loc.path@ == path@ && loc.id is None,
    {
        Location::Internal(Internal { path, id: None })
    }

    /// Whether this is an internal location.
    pub fn is_internal(&self) -> (r: bool)
        ensures
            r == (self matches Location::Internal(_)),
    {
        match self {
            Location::Internal(_) => true,
            Location::External(_) => false,
        }
    }

    /// Whether this is an external location.
    pub fn is_external(&self) -> (r: bool)
        ensures
            r == (self matches Location::External(_)),
    {
        match self {
            Location::External(_) => true,
            Location::Internal(_) => false,
        }
    }

    /// The location written back as a string.
    pub fn to_string(&self) -> (r: String)
        ensures
            self matches Location::External(e) ==> r@ == e@,
            self matches Location::Internal(loc) ==> match loc.id {
                None => r@ == join_fragments(loc.path@),
                Some(id) => r@ == join_fragments(loc.path@) + seq!['#'] + id@,
            },
    {
        match self {
            Location::Internal(loc) => loc.to_string(),
            Location::External(e) => e.raw_contents().to_owned(),
        }
    }
}

/// Whether `input` contains the `://` separator.
pub fn contains_scheme_sep(input: &str) -> (r: bool)
    ensures
        r == has_scheme_sep(input@),
{
    match super::external::find_scheme_sep(input) {
        Some(_) => true,
        None => false,
    }
}

/// The two cases of a location, borrowed.
pub enum ViewRef<'a> {
    /// An internal location.
    Internal(&'a Internal),
    /// An external location.
    External(&'a External),
}

impl Location {
    /// Validates `input` and wraps the location in a box.
    pub fn new_boxed(input: &str) -> (r: Result<Box<Location>, InvalidLocation>)
        ensures
            r is Ok <==> is_valid_location(input@),
            r matches Ok(l) ==> l.wf(),
    {
        match Location::parse(input) {
            Ok(l) => Ok(Box::new(l)),
            Err(e) => Err(e),
        }
    }

    /// The location, boxed.
    pub fn to_boxed(&self) -> (r: Box<Location>)
        ensures
            r.wf() == self.wf(),
    {
        Box::new(self.clone())
    }

    /// The location written back as a string (alias of
    /// [`Location::to_string`]).
    pub fn raw_contents(&self) -> (r: String)
        ensures
            self matches Location::External(e) ==> r@ == e@,
            self matches Location::Internal(loc) ==> match loc.id {
                None => r@ == join_fragments(loc.path@),
                Some(id) => r@ == join_fragments(loc.path@) + seq!['#'] + id@,
            },
    {
        self.to_string()
    }

    /// Which case the location is, borrowed.
    pub fn view(&self) -> (r: ViewRef<'_>)
        ensures
            self matches Location::Internal(loc) ==> (r matches ViewRef::Internal(l) && l
                == loc),
            self matches Location::External(e) ==> (r matches ViewRef::External(x) && x == e),
    {
        match self {
            Location::Internal(loc) => ViewRef::Internal(loc),
            Location::External(e) => ViewRef::External(e),
        }
    }
}

impl Location {
    /// Wraps a string already known to be a valid external location; the
    /// panicking convenience counterpart of [`Location::parse`].
    pub fn external(input: &str) -> (r: Location)
        requires
            is_valid_external(input@),
        ensures
            r matches Location::External(e) && e@ == input@ && e.wf(),
    {
        match External::parse(input) {
            Ok(e) => Location::External(e),
            Err(_) => vstd::pervasive::unreached(),
        }
    }
}

impl Location {
    /// Confirms at run time that the held value is well formed.
    pub fn check_wf(&self) -> (r: bool)
        ensures
            r == self.wf(),
    {
        match self {
            Location::Internal(loc) => loc.check_wf(),
            Location::External(e) => e.check_wf(),
        }
    }
}

impl InvalidLocation {
    /// The rule the rejected string broke, in words.
    pub open spec fn message_view(self) -> Seq<char> {
        match self {
            InvalidLocation::InvalidInternal(e) => e.message_view(),
            InvalidLocation::InvalidExternal(e) => e.message_view(),
        }
    }

    /// The rule the rejected string broke, in words.
    pub fn message(&self) -> (r: String)
        ensures
            r@ == self.message_view(),
    {
        match self {
            InvalidLocation::InvalidInternal(e) => e.message(),
            InvalidLocation::InvalidExternal(e) => e.message(),
        }
    }
}

} // verus!
