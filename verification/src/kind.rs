use vstd::prelude::*;
use crate::bytes::bytes_eq;

verus! {

/// The closed set of object kinds.
#[derive(Clone, Copy, Debug, PartialEq, Eq, Structural)]
pub enum Kind {
    Blob,
    Tree,
    Commit,
}

/// The kind that a header tag names, if any. Tags are lower case and
/// matched exactly.
pub open spec fn kind_of_tag(tag: Seq<u8>) -> Option<Kind> {
    if tag == Kind::Blob.tag_spec() {
        Some(Kind::Blob)
    } else if tag == Kind::Tree.tag_spec() {
        Some(Kind::Tree)
    } else if tag == Kind::Commit.tag_spec() {
        Some(Kind::Commit)
    } else {
        None
    }
}

impl Kind {
    /// The ASCII bytes of `blob`, `tree` or `commit`.
    pub open spec fn tag_spec(self) -> Seq<u8> {
        match self {
            Kind::Blob => seq![98u8, 108u8, 111u8, 98u8],
            Kind::Tree => seq![116u8, 114u8, 101u8, 101u8],
            Kind::Commit => seq![99u8, 111u8, 109u8, 109u8, 105u8, 116u8],
        }
    }

    /// The tag as it stands in a record header.
    pub fn tag(&self) -> (r: Vec<u8>)
        ensures
            r@ == self.tag_spec(),
    {
        let r = match self {
            Kind::Blob => vec![98u8, 108u8, 111u8, 98u8],
            Kind::Tree => vec![116u8, 114u8, 101u8, 101u8],
            Kind::Commit => vec![99u8, 111u8, 109u8, 109u8, 105u8, 116u8],
        };
        assert(r@ =~= self.tag_spec());
        r
    }

    /// The tag as text, for display.
    pub fn to_string(&self) -> (r: String)
        ensures
            r@ == (match *self {
                Kind::Blob => "blob"@,
                Kind::Tree => "tree"@,
                Kind::Commit => "commit"@,
            }),
    {
        match self {
            Kind::Blob => "blob".to_owned(),
            Kind::Tree => "tree".to_owned(),
            Kind::Commit => "commit".to_owned(),
        }
    }

    /// Reads a header tag. Anything but the three known tags is `None`.
    pub fn from_tag(tag: &[u8]) -> (r: Option<Kind>)
        ensures
            r == kind_of_tag(tag@),
    {
        if bytes_eq(tag, Kind::Blob.tag().as_slice()) {
            Some(Kind::Blob)
        } else if bytes_eq(tag, Kind::Tree.tag().as_slice()) {
            Some(Kind::Tree)
        } else if bytes_eq(tag, Kind::Commit.tag().as_slice()) {
            Some(Kind::Commit)
        } else {
            None
        }
    }
}

/// Every kind is read back from its own tag, and no tag holds a space or a
/// NUL byte.
pub proof fn lemma_tag_round_trip(kind: Kind)
    ensures
        kind_of_tag(kind.tag_spec()) == Some(kind),
        forall|i: int| 0 <= i < kind.tag_spec().len() ==> kind.tag_spec()[i] != 0u8
            && kind.tag_spec()[i] != 32u8,
{
    assert(Kind::Blob.tag_spec()[0] == 98u8);
    assert(Kind::Tree.tag_spec()[0] == 116u8);
    assert(Kind::Commit.tag_spec()[0] == 99u8);
    assert(Kind::Blob.tag_spec().len() == 4);
    assert(Kind::Tree.tag_spec().len() == 4);
    assert(Kind::Commit.tag_spec().len() == 6);
}

} // verus!
