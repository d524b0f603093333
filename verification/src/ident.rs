//! Source locations and identifiers.
//!
//! IEC 61131-3 (2.1.2) declares identifiers case insensitive: two identifiers
//! are the same identifier when their lowercase forms agree. An `Id` keeps the
//! text as written (for messages) beside its lowercase form (for comparison).
use vstd::prelude::*;
use vstd::std_specs::cmp::PartialEqSpec;

verus! {

/// A position, or a range of positions, in the source text.
///
/// Locations never take part in equality: any two locations compare equal,
/// so that a node of the syntax tree equals another that differs only in
/// where it was written.
#[derive(Debug)]
pub struct SourceLoc {
    pub start: usize,
    pub end: Option<usize>,
}

impl SourceLoc {
    /// A location that starts at `start` and has no known end.
    pub fn new(start: usize) -> (loc: SourceLoc)
        ensures
            loc.start == start,
            loc.end is None,
    {
        SourceLoc { start, end: None }
    }

    /// A location that spans `start` to `end`.
    pub fn range(start: usize, end: usize) -> (loc: SourceLoc)
        ensures
            loc.start == start,
            loc.end == Some(end),
    {
        SourceLoc { start, end: Some(end) }
    }
}

impl Clone for SourceLoc {
    fn clone(&self) -> (loc: Self)
        ensures
            loc == *self,
    {
        SourceLoc { start: self.start, end: self.end }
    }
}

impl PartialEq for SourceLoc {
    fn eq(&self, other: &Self) -> (r: bool) {
        true
    }
}

impl vstd::std_specs::cmp::PartialEqSpecImpl for SourceLoc {
    open spec fn obeys_eq_spec() -> bool {
        true
    }

    open spec fn eq_spec(&self, other: &Self) -> bool {
        true
    }
}

impl Eq for SourceLoc {}

/// The lowercase form of a sequence of characters, as `str::to_lowercase`
/// computes it: each character mapped by Unicode's lowercase mapping, with
/// the context rule for a final capital sigma.
pub uninterp spec fn lowercase(s: Seq<char>) -> Seq<char>;

/// The lowercase form of an ASCII character: `A` to `Z` become `a` to `z`,
/// every other character stays.
pub open spec fn ascii_lowercase(c: char) -> char {
    if 'A' <= c && c <= 'Z' {
        ((c as u32) + 32) as char
    } else {
        c
    }
}

/// Every character of `s` is ASCII.
pub open spec fn is_ascii_text(s: Seq<char>) -> bool {
    forall|i: int| 0 <= i < s.len() ==> (s[i] as u32) < 128
}

/// Calls `str::to_lowercase`. Trusted to return the characters that
/// `lowercase` names for the characters of `s`, and, for ASCII text, each
/// character lowercased by itself (upper-case `A` to `Z` to `a` to `z`), as
/// the documentation of `str::to_lowercase` gives for ASCII.
#[verifier::external_body]
fn to_lowercase(s: &str) -> (r: String)
    ensures
        r@ == lowercase(s@),
        is_ascii_text(s@) ==> r@ == s@.map_values(|c: char| ascii_lowercase(c)),
{
    s.to_lowercase()
}

/// An identifier: the text as written, its lowercase form, and where it
/// was written, if that is known.
pub struct Id {
    text: String,
    lower_case: String,
    location: Option<SourceLoc>,
}

impl Id {
    /// The identifier as it was written.
    pub closed spec fn text(&self) -> Seq<char> {
        self.text@
    }

    /// The form by which identifiers are compared: the lowercase text.
    pub closed spec fn key(&self) -> Seq<char> {
        lowercase(self.text@)
    }

    /// Where the identifier was written, if that is known.
    pub closed spec fn loc(&self) -> Option<SourceLoc> {
        self.location
    }

    #[verifier::type_invariant]
    spec fn lower_case_matches(&self) -> bool {
        self.lower_case@ == lowercase(self.text@)
    }

    /// Converts a `&str` into an identifier with no location.
    pub fn from(str: &str) -> (id: Id)
        ensures
            id.text() == str@,
            id.key() == lowercase(str@),
            is_ascii_text(str@) ==> id.key() == str@.map_values(|c: char| ascii_lowercase(c)),
            id.loc() is None,
    {
        Id { text: str.to_owned(), lower_case: to_lowercase(str), location: None }
    }

    /// The same identifier, located at `loc`.
    pub fn with_location(self, loc: SourceLoc) -> (id: Id)
        ensures
            id.text() == self.text(),
            id.key() == self.key(),
            id.loc() == Some(loc),
    {
        let mut id = self;
        proof {
            use_type_invariant(&id);
        }
        id.location = Some(loc);
        id
    }

    /// The lowercase form of the identifier.
    pub fn lower_case(&self) -> (s: &String)
        ensures
            s@ == self.key(),
    {
        proof {
            use_type_invariant(self);
        }
        &self.lower_case
    }

    /// Where the identifier was written, if that is known.
    pub fn location(&self) -> (loc: &Option<SourceLoc>)
        ensures
            *loc == self.loc(),
    {
        &self.location
    }

    /// The identifier as it was written, as shown in messages.
    pub fn to_string(&self) -> (s: String)
        ensures
            s@ == self.text(),
    {
        self.text.clone()
    }
}

impl Clone for Id {
    fn clone(&self) -> (id: Self)
        ensures
            id == *self,
    {
        proof {
            use_type_invariant(self);
        }
        let location = match &self.location {
            Some(loc) => Some(loc.clone()),
            None => None,
        };
        Id {
            text: self.text.clone(),
            lower_case: self.lower_case.clone(),
            location,
        }
    }
}

impl PartialEq for Id {
    fn eq(&self, other: &Self) -> (r: bool) {
        proof {
            use_type_invariant(self);
            use_type_invariant(other);
        }
        self.lower_case == other.lower_case
    }
}

impl vstd::std_specs::cmp::PartialEqSpecImpl for Id {
    open spec fn obeys_eq_spec() -> bool {
        true
    }

    open spec fn eq_spec(&self, other: &Self) -> bool {
        self.key() == other.key()
    }
}

impl Eq for Id {}

/// Identifiers are compared case insensitively: two identifiers are equal
/// exactly when the lowercase forms of their texts are.
pub proof fn lemma_id_eq_ignores_case(a: Id, b: Id)
    ensures
        a.eq_spec(&b) <==> lowercase(a.text()) == lowercase(b.text()),
{
}

/// Equality of identifiers is an equivalence: reflexive, symmetric and
/// transitive.
pub proof fn lemma_id_eq_is_equivalence(a: Id, b: Id, c: Id)
    ensures
        a.eq_spec(&a),
        a.eq_spec(&b) ==> b.eq_spec(&a),
        a.eq_spec(&b) && b.eq_spec(&c) ==> a.eq_spec(&c),
{
}

/// Any two source locations are equal.
pub proof fn lemma_locations_all_equal(a: SourceLoc, b: SourceLoc)
    ensures
        a.eq_spec(&b),
{
}

impl core::hash::Hash for Id {
    #[verifier::external_body]
    fn hash<H: core::hash::Hasher>(&self, state: &mut H) {
        self.lower_case.hash(state);
    }
}

} // verus!
