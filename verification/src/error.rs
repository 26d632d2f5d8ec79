use vstd::prelude::*;
use crate::kind::Kind;

verus! {

/// Ways in which stored bytes fail the record grammar or the listing grammar.
#[derive(Clone, Debug)]
pub enum Corrupt {
    /// No NUL byte ends the header.
    MissingHeaderTerminator,
    /// The header holds no space between tag and size.
    MalformedHeader,
    /// The tag is none of the known kinds; the tag is kept.
    UnknownKind(Vec<u8>),
    /// The size is not a run of decimal digits that fits 64 bits.
    InvalidSize,
    /// More content than the header declares.
    OversizedContent,
    /// A listing ends inside an entry.
    TruncatedTreeEntry,
    /// A listing entry holds no space between mode and name.
    MalformedTreeEntry,
}

/// Every failure of the store.
#[derive(Clone, Debug)]
pub enum Error {
    /// The underlying stream failed.
    IoFailure,
    /// Nothing is stored under the hash.
    NotFound,
    /// The stored bytes break a grammar.
    CorruptObject(Corrupt),
    /// Declared and actual length differ.
    SizeMismatch,
    /// The object is well formed, but of a kind that the operation does not read.
    UnsupportedKind(Kind),
}

/// A grammar failure as contracts see it: the tag is a sequence of bytes.
pub enum CorruptView {
    MissingHeaderTerminator,
    MalformedHeader,
    UnknownKind(Seq<u8>),
    InvalidSize,
    OversizedContent,
    TruncatedTreeEntry,
    MalformedTreeEntry,
}

/// A failure as contracts see it.
pub enum ErrorView {
    IoFailure,
    NotFound,
    CorruptObject(CorruptView),
    SizeMismatch,
    UnsupportedKind(Kind),
}

impl View for Corrupt {
    type V = CorruptView;

    open spec fn view(&self) -> CorruptView {
        match *self {
            Corrupt::MissingHeaderTerminator => CorruptView::MissingHeaderTerminator,
            Corrupt::MalformedHeader => CorruptView::MalformedHeader,
            Corrupt::UnknownKind(tag) => CorruptView::UnknownKind(tag@),
            Corrupt::InvalidSize => CorruptView::InvalidSize,
            Corrupt::OversizedContent => CorruptView::OversizedContent,
            Corrupt::TruncatedTreeEntry => CorruptView::TruncatedTreeEntry,
            Corrupt::MalformedTreeEntry => CorruptView::MalformedTreeEntry,
        }
    }
}

impl View for Error {
    type V = ErrorView;

    open spec fn view(&self) -> ErrorView {
        match *self {
            Error::IoFailure => ErrorView::IoFailure,
            Error::NotFound => ErrorView::NotFound,
            Error::CorruptObject(c) => ErrorView::CorruptObject(c@),
            Error::SizeMismatch => ErrorView::SizeMismatch,
            Error::UnsupportedKind(k) => ErrorView::UnsupportedKind(k),
        }
    }
}

/// Shorthand for a grammar failure in a contract.
pub open spec fn corrupt(c: CorruptView) -> ErrorView {
    ErrorView::CorruptObject(c)
}

impl Error {
    /// Whether the failure says that stored bytes break a grammar.
    pub fn is_corrupt(&self) -> (r: bool)
        ensures
            r == (self@ is CorruptObject),
    {
        match self {
            Error::CorruptObject(_) => true,
            _ => false,
        }
    }
}

} // verus!
