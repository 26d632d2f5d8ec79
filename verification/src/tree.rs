use vstd::prelude::*;
use crate::bytes::{
    append, copy_range, find_byte, first_at, lemma_position_is, lemma_position_some, position,
};
use crate::codec::Object;
use crate::error::{corrupt, Corrupt, CorruptView, Error, ErrorView};
use crate::hash::{hex_encode, hex_lower};
use crate::kind::Kind;

verus! {

/// One line of a directory listing: mode, name, and the hash of the child in
/// hex.
#[derive(Debug)]
pub struct TreeEntry {
    pub mode: Vec<u8>,
    pub name: Vec<u8>,
    pub child_hash: Vec<u8>,
}

/// An entry as contracts see it.
pub struct TreeEntryView {
    pub mode: Seq<u8>,
    pub name: Seq<u8>,
    pub child_hash: Seq<u8>,
}

impl View for TreeEntry {
    type V = TreeEntryView;

    open spec fn view(&self) -> TreeEntryView {
        TreeEntryView { mode: self.mode@, name: self.name@, child_hash: self.child_hash@ }
    }
}

/// The views of a run of entries, in order.
pub open spec fn entries_view(entries: Seq<TreeEntry>) -> Seq<TreeEntryView> {
    entries.map_values(|e: TreeEntry| e@)
}

/// The view of a result, on either side.
pub open spec fn tree_result(r: Result<Vec<TreeEntry>, Error>) -> Result<
    Seq<TreeEntryView>,
    ErrorView,
> {
    match r {
        Ok(entries) => Ok(entries_view(entries@)),
        Err(e) => Err(e@),
    }
}

/// Entries in front of the outcome for what follows them.
pub open spec fn prepend(
    front: Seq<TreeEntryView>,
    rest: Result<Seq<TreeEntryView>, ErrorView>,
) -> Result<Seq<TreeEntryView>, ErrorView> {
    match rest {
        Ok(entries) => Ok(front + entries),
        Err(e) => Err(e),
    }
}

/// The first entry of a listing and the bytes that it takes: mode, space,
/// name, NUL, twenty raw hash bytes. A listing that ends before the NUL or
/// inside the hash is truncated; a field without a space is malformed.
pub open spec fn entry_spec(content: Seq<u8>) -> Result<(TreeEntryView, nat), ErrorView> {
    match position(content, 0u8) {
        None => Err(corrupt(CorruptView::TruncatedTreeEntry)),
        Some(nul) => if content.len() < nul + 21 {
            Err(corrupt(CorruptView::TruncatedTreeEntry))
        } else {
            let field = content.subrange(0, nul as int);
            match position(field, 32u8) {
                None => Err(corrupt(CorruptView::MalformedTreeEntry)),
                Some(sp) => Ok(
                    (
                        TreeEntryView {
                            mode: field.subrange(0, sp as int),
                            name: field.skip(sp + 1 as int),
                            child_hash: hex_lower(content.subrange(nul + 1 as int, nul + 21 as int)),
                        },
                        nul + 21,
                    ),
                ),
            }
        },
    }
}

/// All entries of a listing, in stored order. Empty content is an empty
/// listing; the first entry that breaks the grammar fails the whole.
pub open spec fn entries_spec(content: Seq<u8>) -> Result<Seq<TreeEntryView>, ErrorView>
    decreases content.len(),
{
    if content.len() == 0 {
        Ok(Seq::empty())
    } else {
        match entry_spec(content) {
            Err(e) => Err(e),
            Ok((entry, used)) => prepend(seq![entry], entries_spec(content.skip(used as int))),
        }
    }
}

/// Decodes the content of a tree object into its entries.
pub fn parse_tree(content: &[u8]) -> (r: Result<Vec<TreeEntry>, Error>)
    ensures
        tree_result(r) == entries_spec(content@),
{
    let mut entries: Vec<TreeEntry> = Vec::new();
    let mut pos: usize = 0;
    assert(content@.skip(0) =~= content@);
    assert(entries_view(entries@) + Seq::<TreeEntryView>::empty() =~= Seq::<TreeEntryView>::empty());
    while pos < content.len()
        invariant
            pos <= content@.len(),
            entries_spec(content@) == prepend(
                entries_view(entries@),
                entries_spec(content@.skip(pos as int)),
            ),
        decreases content@.len() - pos,
    {
        let ghost tail = content@.skip(pos as int);
        let ghost done = entries_view(entries@);
        let nul = match find_byte(content, pos, 0u8) {
            None => { return Err(Error::CorruptObject(Corrupt::TruncatedTreeEntry)); },
            Some(nul) => nul,
        };
        proof {
            lemma_position_some(tail, 0u8);
            assert(first_at(tail, 0u8, nul as int));
        }
        assert(nul < content.len() - pos);
        if content.len() - pos - nul < 21 {
            return Err(Error::CorruptObject(Corrupt::TruncatedTreeEntry));
        }
        let field = copy_range(content, pos, pos + nul);
        assert(field@ =~= tail.subrange(0, nul as int));
        assert(field@.skip(0) =~= field@);
        let sp = match find_byte(field.as_slice(), 0, 32u8) {
            None => { return Err(Error::CorruptObject(Corrupt::MalformedTreeEntry)); },
            Some(sp) => sp,
        };
        proof {
            lemma_position_some(field@, 32u8);
            assert(first_at(field@, 32u8, sp as int));
        }
        assert(sp < field.len());
        let mode = copy_range(field.as_slice(), 0, sp);
        let name = copy_range(field.as_slice(), sp + 1, field.len());
        assert(name@ =~= field@.skip(sp + 1));
        let raw_hash = copy_range(content, pos + nul + 1, pos + nul + 21);
        assert(raw_hash@ =~= tail.subrange(nul + 1, nul + 21));
        let child_hash = hex_encode(raw_hash.as_slice());
        let entry = TreeEntry { mode, name, child_hash };
        proof {
            let used = (nul + 21) as nat;
            assert(entry_spec(tail) == Ok::<(TreeEntryView, nat), ErrorView>((entry@, used)));
            assert(tail.skip(used as int) =~= content@.skip(pos + nul + 21));
            assert(entries_spec(tail) == prepend(
                seq![entry@],
                entries_spec(content@.skip(pos + nul + 21)),
            ));
            assert(entries_view(entries@.push(entry)) =~= done + seq![entry@]);
            match entries_spec(content@.skip(pos + nul + 21)) {
                Ok(rest) => {
                    assert(done + (seq![entry@] + rest) =~= (done + seq![entry@]) + rest);
                },
                Err(_) => {},
            }
        }
        entries.push(entry);
        pos = pos + nul + 21;
    }
    proof {
        let done = entries_view(entries@);
        assert(content@.skip(pos as int).len() == 0);
        assert(done + Seq::<TreeEntryView>::empty() =~= done);
    }
    Ok(entries)
}

/// Lists an object as a directory. Only a tree can be listed.
pub fn list_tree(object: &Object) -> (r: Result<Vec<TreeEntry>, Error>)
    ensures
        object.kind != Kind::Tree ==> r is Err && r->Err_0@ == ErrorView::UnsupportedKind(
            object.kind,
        ),
        object.kind == Kind::Tree ==> tree_result(r) == entries_spec(object.content@),
{
    match object.kind {
        Kind::Tree => parse_tree(object.content.as_slice()),
        _ => Err(Error::UnsupportedKind(object.kind)),
    }
}

/// The bytes of one entry as stored: mode, space, name, NUL, raw hash.
pub open spec fn entry_bytes(mode: Seq<u8>, name: Seq<u8>, raw_hash: Seq<u8>) -> Seq<u8> {
    mode + seq![32u8] + name + seq![0u8] + raw_hash
}

/// The place of the NUL in an entry's bytes, and what stands before it.
proof fn lemma_entry_field(mode: Seq<u8>, name: Seq<u8>, tail: Seq<u8>)
    requires
        forall|i: int| 0 <= i < mode.len() ==> mode[i] != 32u8 && mode[i] != 0u8,
        forall|i: int| 0 <= i < name.len() ==> name[i] != 0u8,
    ensures
        position(entry_bytes(mode, name, tail), 0u8) == Some(mode.len() + 1 + name.len()),
        position(mode + seq![32u8] + name, 32u8) == Some(mode.len()),
{
    let content = entry_bytes(mode, name, tail);
    let field = mode + seq![32u8] + name;
    let nul = mode.len() + 1 + name.len();
    assert forall|j: int| 0 <= j < nul implies content[j] != 0u8 by {
        if j < mode.len() {
            assert(content[j] == mode[j]);
        } else if j > mode.len() {
            assert(content[j] == name[j - mode.len() - 1]);
        }
    }
    assert(content[nul as int] == 0u8);
    assert(first_at(content, 0u8, nul as int));
    lemma_position_is(content, 0u8, nul as int);
    assert forall|j: int| 0 <= j < mode.len() implies field[j] != 32u8 by {
        assert(field[j] == mode[j]);
    }
    assert(field[mode.len() as int] == 32u8);
    assert(first_at(field, 32u8, mode.len() as int));
    lemma_position_is(field, 32u8, mode.len() as int);
}

/// An entry that stands in front of a listing is decoded first and as it was
/// written, with its hash in hex; the rest follows in order. The mode holds
/// no space, and neither mode nor name holds a NUL.
pub proof fn lemma_entry_then_rest(
    mode: Seq<u8>,
    name: Seq<u8>,
    raw_hash: Seq<u8>,
    rest: Seq<u8>,
)
    requires
        forall|i: int| 0 <= i < mode.len() ==> mode[i] != 32u8 && mode[i] != 0u8,
        forall|i: int| 0 <= i < name.len() ==> name[i] != 0u8,
        raw_hash.len() == 20,
    ensures
        entries_spec(entry_bytes(mode, name, raw_hash) + rest) == prepend(
            seq![TreeEntryView { mode, name, child_hash: hex_lower(raw_hash) }],
            entries_spec(rest),
        ),
{
    let content = entry_bytes(mode, name, raw_hash) + rest;
    let field = mode + seq![32u8] + name;
    let nul = mode.len() + 1 + name.len();
    lemma_entry_field(mode, name, raw_hash + rest);
    assert(content =~= entry_bytes(mode, name, raw_hash + rest));
    assert(content.subrange(0, nul as int) =~= field);
    assert(field.subrange(0, mode.len() as int) =~= mode);
    assert(field.skip(mode.len() + 1 as int) =~= name);
    assert(content.subrange(nul + 1 as int, nul + 21 as int) =~= raw_hash);
    assert(content.skip(nul + 21 as int) =~= rest);
}

/// A listing that ends inside an entry's hash is truncated.
pub proof fn lemma_cut_in_hash(mode: Seq<u8>, name: Seq<u8>, partial: Seq<u8>)
    requires
        forall|i: int| 0 <= i < mode.len() ==> mode[i] != 32u8 && mode[i] != 0u8,
        forall|i: int| 0 <= i < name.len() ==> name[i] != 0u8,
        partial.len() < 20,
    ensures
        entries_spec(entry_bytes(mode, name, partial)) == Err::<Seq<TreeEntryView>, ErrorView>(
            corrupt(CorruptView::TruncatedTreeEntry),
        ),
{
    lemma_entry_field(mode, name, partial);
}

/// A listing that ends before an entry's NUL is truncated.
pub proof fn lemma_cut_before_nul(content: Seq<u8>)
    requires
        content.len() > 0,
        forall|i: int| 0 <= i < content.len() ==> content[i] != 0u8,
    ensures
        entries_spec(content) == Err::<Seq<TreeEntryView>, ErrorView>(
            corrupt(CorruptView::TruncatedTreeEntry),
        ),
{
}

/// A mode, with zeros in front until it is six bytes long.
pub open spec fn padded_mode_spec(mode: Seq<u8>) -> Seq<u8> {
    if mode.len() >= 6 {
        mode
    } else {
        Seq::new((6 - mode.len()) as nat, |i: int| 48u8) + mode
    }
}

/// The line that shows an entry. With the child's kind: padded mode, space,
/// kind, space, hash, then the name. Without it: the name alone. A newline
/// ends either.
pub open spec fn entry_line_spec(entry: TreeEntryView, child_kind: Option<Kind>) -> Seq<u8> {
    match child_kind {
        None => entry.name + seq![10u8],
        Some(kind) => padded_mode_spec(entry.mode) + seq![32u8] + kind.tag_spec() + seq![32u8]
            + entry.child_hash + entry.name + seq![10u8],
    }
}

/// Pads a mode with zeros on the left to six bytes.
pub fn padded_mode(mode: &[u8]) -> (r: Vec<u8>)
    ensures
        r@ == padded_mode_spec(mode@),
{
    let mut out: Vec<u8> = Vec::new();
    let mut i: usize = mode.len();
    while i < 6
        invariant
            mode@.len() <= i,
            mode@.len() < 6 ==> i <= 6 && out@.len() == i - mode@.len(),
            mode@.len() >= 6 ==> out@.len() == 0,
            forall|j: int| 0 <= j < out@.len() ==> out@[j] == 48u8,
        decreases 6 - i,
    {
        out.push(48u8);
        i += 1;
    }
    append(&mut out, mode);
    assert(out@ =~= padded_mode_spec(mode@));
    out
}

/// Renders the line that shows an entry; `child_kind` is `None` where only
/// names are asked for.
pub fn entry_line(entry: &TreeEntry, child_kind: Option<Kind>) -> (r: Vec<u8>)
    ensures
        r@ == entry_line_spec(entry@, child_kind),
{
    let mut out: Vec<u8> = Vec::new();
    match child_kind {
        None => {},
        Some(kind) => {
            let mode = padded_mode(entry.mode.as_slice());
            let tag = kind.tag();
            append(&mut out, mode.as_slice());
            out.push(32u8);
            append(&mut out, tag.as_slice());
            out.push(32u8);
            append(&mut out, entry.child_hash.as_slice());
        },
    }
    append(&mut out, entry.name.as_slice());
    out.push(10u8);
    assert(out@ =~= entry_line_spec(entry@, child_kind));
    out
}

} // verus!
