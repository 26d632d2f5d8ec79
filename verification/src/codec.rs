use vstd::prelude::*;
use crate::bytes::{append, copy_range, find_byte, first_at, lemma_position_is, lemma_position_some, position};
use crate::error::{corrupt, Corrupt, CorruptView, Error, ErrorView};
use crate::kind::{kind_of_tag, lemma_tag_round_trip, Kind};
use crate::limit::LimitReader;

verus! {

/// A decoded record: its kind, the size that its header declares, and its
/// content.
#[derive(Debug)]
pub struct Object {
    pub kind: Kind,
    pub expected_size: u64,
    pub content: Vec<u8>,
}

/// An object as contracts see it.
pub struct ObjectView {
    pub kind: Kind,
    pub expected_size: u64,
    pub content: Seq<u8>,
}

impl View for Object {
    type V = ObjectView;

    open spec fn view(&self) -> ObjectView {
        ObjectView { kind: self.kind, expected_size: self.expected_size, content: self.content@ }
    }
}

impl Object {
    /// The content is exactly as long as declared.
    pub open spec fn wf(&self) -> bool {
        self.content@.len() == self.expected_size
    }
}

/// The view of a result, on either side.
pub open spec fn object_result(r: Result<Object, Error>) -> Result<ObjectView, ErrorView> {
    match r {
        Ok(o) => Ok(o@),
        Err(e) => Err(e@),
    }
}

/// `0` to `9`.
pub open spec fn is_digit(b: u8) -> bool {
    48 <= b <= 57
}

/// A run of decimal digits, at least one.
pub open spec fn is_decimal(s: Seq<u8>) -> bool {
    &&& s.len() > 0
    &&& forall|i: int| 0 <= i < s.len() ==> is_digit(#[trigger] s[i])
}

/// The number that a run of digits writes, most significant digit first.
pub open spec fn decimal_value(s: Seq<u8>) -> nat
    decreases s.len(),
{
    if s.len() == 0 {
        0
    } else {
        decimal_value(s.drop_last()) * 10 + (s.last() - 48) as nat
    }
}

/// The size that a header's digits declare: they must be decimal digits and
/// fit 64 bits.
pub open spec fn size_of(s: Seq<u8>) -> Option<u64> {
    if is_decimal(s) && decimal_value(s) <= u64::MAX {
        Some(decimal_value(s) as u64)
    } else {
        None
    }
}

/// The decimal digits of `n`, without leading zeros.
pub open spec fn decimal_digits(n: nat) -> Seq<u8>
    decreases n,
{
    if n < 10 {
        seq![(48 + n) as u8]
    } else {
        decimal_digits(n / 10).push((48 + n % 10) as u8)
    }
}

/// The header text: tag, one space, the size in decimal.
pub open spec fn header_of(kind: Kind, size: nat) -> Seq<u8> {
    kind.tag_spec() + seq![32u8] + decimal_digits(size)
}

/// The whole record: header, NUL, content.
pub open spec fn record_of(kind: Kind, content: Seq<u8>) -> Seq<u8> {
    header_of(kind, content.len()) + seq![0u8] + content
}

/// What a header text declares, or why it is refused. The text is split at
/// its first space.
pub open spec fn header_spec(header: Seq<u8>) -> Result<(Kind, u64), ErrorView> {
    match position(header, 32u8) {
        None => Err(corrupt(CorruptView::MalformedHeader)),
        Some(sp) => {
            let tag = header.subrange(0, sp as int);
            match kind_of_tag(tag) {
                None => Err(corrupt(CorruptView::UnknownKind(tag))),
                Some(kind) => match size_of(header.skip(sp + 1 as int)) {
                    None => Err(corrupt(CorruptView::InvalidSize)),
                    Some(size) => Ok((kind, size)),
                },
            }
        },
    }
}

/// What a decompressed record decodes to, or why it is refused. The header
/// ends at the first NUL; the content is all that follows and must be exactly
/// as long as declared.
pub open spec fn decode_spec(raw: Seq<u8>) -> Result<ObjectView, ErrorView> {
    match position(raw, 0u8) {
        None => Err(corrupt(CorruptView::MissingHeaderTerminator)),
        Some(nul) => match header_spec(raw.subrange(0, nul as int)) {
            Err(e) => Err(e),
            Ok((kind, size)) => {
                let content = raw.skip(nul + 1 as int);
                if content.len() > size {
                    Err(corrupt(CorruptView::OversizedContent))
                } else if content.len() < size {
                    Err(ErrorView::SizeMismatch)
                } else {
                    Ok(ObjectView { kind, expected_size: size, content })
                }
            },
        },
    }
}

/// A longer run of digits writes no smaller number.
proof fn lemma_value_grows(s: Seq<u8>, i: int)
    requires
        0 <= i <= s.len(),
        forall|j: int| 0 <= j < s.len() ==> is_digit(#[trigger] s[j]),
    ensures
        decimal_value(s.subrange(0, i)) <= decimal_value(s),
    decreases s.len() - i,
{
    if i == s.len() {
        assert(s.subrange(0, i) =~= s);
    } else {
        let t = s.subrange(0, i + 1);
        assert(t.drop_last() =~= s.subrange(0, i));
        assert(is_digit(s[i]));
        assert(t.last() == s[i]);
        lemma_value_grows(s, i + 1);
    }
}

/// Reads the size field of a header.
pub fn parse_size(s: &[u8]) -> (r: Option<u64>)
    ensures
        r == size_of(s@),
{
    if s.len() == 0 {
        return None;
    }
    let mut acc: u64 = 0;
    let mut i: usize = 0;
    while i < s.len()
        invariant
            i <= s@.len(),
            forall|j: int| 0 <= j < i ==> is_digit(#[trigger] s@[j]),
            acc == decimal_value(s@.subrange(0, i as int)),
        decreases s@.len() - i,
    {
        let c: u8 = s[i];
        if c < 48 || c > 57 {
            assert(!is_digit(s@[i as int]));
            return None;
        }
        let d: u64 = (c - 48) as u64;
        let ghost next = s@.subrange(0, i + 1);
        proof {
            assert(next.drop_last() =~= s@.subrange(0, i as int));
            assert(next.last() == c);
            assert(decimal_value(next) == acc * 10 + d);
        }
        if acc > (u64::MAX - d) / 10 {
            proof {
                if is_decimal(s@) {
                    lemma_value_grows(s@, i + 1);
                }
            }
            return None;
        }
        acc = acc * 10 + d;
        i += 1;
    }
    assert(s@.subrange(0, i as int) =~= s@);
    Some(acc)
}

/// Appends the decimal digits of `n` to `out`.
pub fn push_decimal(n: u64, out: &mut Vec<u8>)
    ensures
        final(out)@ == old(out)@ + decimal_digits(n as nat),
    decreases n,
{
    let ghost before = out@;
    if n >= 10 {
        push_decimal(n / 10, out);
    }
    let d: u8 = (n % 10) as u8;
    out.push(48 + d);
    assert(out@ =~= before + decimal_digits(n as nat));
}

/// Reads a header text, the bytes before the NUL.
pub fn parse_header(header: &[u8]) -> (r: Result<(Kind, u64), Error>)
    ensures
        match r {
            Ok(v) => header_spec(header@) == Ok::<(Kind, u64), ErrorView>(v),
            Err(e) => header_spec(header@) == Err::<(Kind, u64), ErrorView>(e@),
        },
{
    assert(header@.skip(0) =~= header@);
    let sp = match find_byte(header, 0, 32u8) {
        None => { return Err(Error::CorruptObject(Corrupt::MalformedHeader)); },
        Some(sp) => sp,
    };
    proof {
        lemma_position_some(header@, 32u8);
        assert(first_at(header@, 32u8, sp as int));
    }
    assert(sp < header.len());
    let tag = copy_range(header, 0, sp);
    let kind = match Kind::from_tag(tag.as_slice()) {
        None => { return Err(Error::CorruptObject(Corrupt::UnknownKind(tag))); },
        Some(kind) => kind,
    };
    let digits = copy_range(header, sp + 1, header.len());
    assert(digits@ =~= header@.skip(sp + 1));
    match parse_size(digits.as_slice()) {
        None => Err(Error::CorruptObject(Corrupt::InvalidSize)),
        Some(size) => Ok((kind, size)),
    }
}

/// Decodes a decompressed record. The content must be exactly as long as the
/// header declares: more is oversized content, less a size mismatch.
pub fn decode_record(raw: &[u8]) -> (r: Result<Object, Error>)
    ensures
        object_result(r) == decode_spec(raw@),
        r matches Ok(o) ==> o.wf(),
{
    assert(raw@.skip(0) =~= raw@);
    let nul = match find_byte(raw, 0, 0u8) {
        None => { return Err(Error::CorruptObject(Corrupt::MissingHeaderTerminator)); },
        Some(nul) => nul,
    };
    proof {
        lemma_position_some(raw@, 0u8);
        assert(first_at(raw@, 0u8, nul as int));
    }
    assert(nul < raw.len());
    let header = copy_range(raw, 0, nul);
    let (kind, size) = match parse_header(header.as_slice()) {
        Err(e) => { return Err(e); },
        Ok(v) => v,
    };
    let content = copy_range(raw, nul + 1, raw.len());
    assert(content@ =~= raw@.skip(nul + 1));
    let mut reader = LimitReader::new(size);
    match reader.record(content.len()) {
        Err(e) => { return Err(e); },
        Ok(_) => {},
    }
    match reader.finish() {
        Err(e) => { return Err(e); },
        Ok(_) => {},
    }
    Ok(Object { kind, expected_size: size, content })
}

/// Frames content as a record: header, NUL, content. The declared length must
/// be the content's own.
pub fn encode_record(kind: Kind, length: u64, content: &[u8]) -> (r: Result<Vec<u8>, Error>)
    ensures
        length == content@.len() ==> r is Ok && r->Ok_0@ == record_of(kind, content@),
        length != content@.len() ==> r is Err && r->Err_0@ == ErrorView::SizeMismatch,
{
    if content.len() as u64 != length {
        return Err(Error::SizeMismatch);
    }
    let mut out = kind.tag();
    out.push(32u8);
    push_decimal(length, &mut out);
    out.push(0u8);
    append(&mut out, content);
    assert(out@ =~= record_of(kind, content@));
    Ok(out)
}

/// The digits of a number are decimal digits and write that number.
pub proof fn lemma_decimal_round_trip(n: nat)
    ensures
        is_decimal(decimal_digits(n)),
        decimal_value(decimal_digits(n)) == n,
    decreases n,
{
    let s = decimal_digits(n);
    if n < 10 {
        assert(s.drop_last() =~= Seq::<u8>::empty());
        assert(decimal_value(s.drop_last()) == 0) by {
            reveal_with_fuel(decimal_value, 1);
        }
        assert(s.last() == (48 + n) as u8);
    } else {
        lemma_decimal_round_trip(n / 10);
        assert(s.drop_last() =~= decimal_digits(n / 10));
        assert(s.last() == (48 + n % 10) as u8);
        assert forall|i: int| 0 <= i < s.len() implies is_digit(#[trigger] s[i]) by {
            if i < s.len() - 1 {
                assert(s[i] == decimal_digits(n / 10)[i]);
            }
        }
    }
}

/// A header that was written for a kind and a size reads back as both.
pub proof fn lemma_header_round_trip(kind: Kind, size: u64)
    ensures
        header_spec(header_of(kind, size as nat)) == Ok::<(Kind, u64), ErrorView>((kind, size)),
        forall|i: int|
            0 <= i < header_of(kind, size as nat).len() ==> header_of(kind, size as nat)[i] != 0u8,
{
    let tag = kind.tag_spec();
    let digits = decimal_digits(size as nat);
    let header = header_of(kind, size as nat);
    lemma_tag_round_trip(kind);
    lemma_decimal_round_trip(size as nat);
    let sp = tag.len() as int;
    assert forall|j: int| 0 <= j < sp implies header[j] != 32u8 by {
        assert(header[j] == tag[j]);
    }
    assert(header[sp] == 32u8);
    assert(first_at(header, 32u8, sp));
    lemma_position_is(header, 32u8, sp);
    assert(header.subrange(0, sp) =~= tag);
    assert(header.skip(sp + 1) =~= digits);
    assert forall|i: int| 0 <= i < header.len() implies header[i] != 0u8 by {
        if i < sp {
            assert(header[i] == tag[i]);
        } else if i > sp {
            assert(header[i] == digits[i - sp - 1]);
            assert(is_digit(digits[i - sp - 1]));
        }
    }
}

/// A header for a kind and a size, a NUL, then any content: what a record
/// looks like whose declared size may be wrong.
pub open spec fn framed(kind: Kind, size: nat, content: Seq<u8>) -> Seq<u8> {
    header_of(kind, size) + seq![0u8] + content
}

/// The declared size is enforced: behind a well-formed header, more content
/// than declared is oversized, less is a size mismatch, and only the exact
/// length decodes, to the whole content.
pub proof fn lemma_size_enforced(kind: Kind, size: u64, content: Seq<u8>)
    ensures
        content.len() > size ==> decode_spec(framed(kind, size as nat, content)) == Err::<
            ObjectView,
            ErrorView,
        >(corrupt(CorruptView::OversizedContent)),
        content.len() < size ==> decode_spec(framed(kind, size as nat, content)) == Err::<
            ObjectView,
            ErrorView,
        >(ErrorView::SizeMismatch),
        content.len() == size ==> decode_spec(framed(kind, size as nat, content)) == Ok::<
            ObjectView,
            ErrorView,
        >(ObjectView { kind, expected_size: size, content }),
{
    let header = header_of(kind, size as nat);
    let raw = framed(kind, size as nat, content);
    lemma_header_round_trip(kind, size);
    let nul = header.len() as int;
    assert forall|j: int| 0 <= j < nul implies raw[j] != 0u8 by {
        assert(raw[j] == header[j]);
    }
    assert(raw[nul] == 0u8);
    assert(first_at(raw, 0u8, nul));
    lemma_position_is(raw, 0u8, nul);
    assert(raw.subrange(0, nul) =~= header);
    assert(raw.skip(nul + 1) =~= content);
}

/// Decoding undoes framing: the record of a kind and a content decodes to
/// that kind, the content's length and the content.
pub proof fn lemma_decode_record_of(kind: Kind, content: Seq<u8>)
    requires
        content.len() <= u64::MAX,
    ensures
        decode_spec(record_of(kind, content)) == Ok::<ObjectView, ErrorView>(
            ObjectView { kind, expected_size: content.len() as u64, content },
        ),
{
    lemma_size_enforced(kind, content.len() as u64, content);
}

/// The header grammar is enforced: no NUL, no space before the NUL, an
/// unknown tag, or a size that is not decimal each fail with their own
/// grammar error.
pub proof fn lemma_header_grammar(raw: Seq<u8>)
    ensures
        position(raw, 0u8) is None ==> decode_spec(raw) == Err::<ObjectView, ErrorView>(
            corrupt(CorruptView::MissingHeaderTerminator),
        ),
        position(raw, 0u8) matches Some(nul) ==> {
            let header = raw.subrange(0, nul as int);
            &&& position(header, 32u8) is None ==> decode_spec(raw) == Err::<
                ObjectView,
                ErrorView,
            >(corrupt(CorruptView::MalformedHeader))
            &&& position(header, 32u8) matches Some(sp) ==> {
                let tag = header.subrange(0, sp as int);
                let digits = header.skip(sp + 1 as int);
                &&& kind_of_tag(tag) is None ==> decode_spec(raw) == Err::<ObjectView, ErrorView>(
                    corrupt(CorruptView::UnknownKind(tag)),
                )
                &&& kind_of_tag(tag) is Some && !is_decimal(digits) ==> decode_spec(raw) == Err::<
                    ObjectView,
                    ErrorView,
                >(corrupt(CorruptView::InvalidSize))
            }
        },
{
}

/// What decodes is whole: the content is exactly as long as declared and is
/// all that follows the first NUL, and the header before it is a known tag,
/// one space and decimal digits.
pub proof fn lemma_decoded_is_whole(raw: Seq<u8>)
    ensures
        decode_spec(raw) matches Ok(o) ==> {
            &&& o.content.len() == o.expected_size
            &&& exists|digits: Seq<u8>|
                is_decimal(digits) && decimal_value(digits) == o.expected_size && raw
                    == o.kind.tag_spec() + seq![32u8] + digits + seq![0u8] + o.content
        },
{
    if let Ok(o) = decode_spec(raw) {
        lemma_position_some(raw, 0u8);
        let nul = position(raw, 0u8)->Some_0 as int;
        let header = raw.subrange(0, nul);
        lemma_position_some(header, 32u8);
        let sp = position(header, 32u8)->Some_0 as int;
        let tag = header.subrange(0, sp);
        let digits = header.skip(sp + 1);
        assert(first_at(raw, 0u8, nul));
        assert(first_at(header, 32u8, sp));
        assert(tag == o.kind.tag_spec());
        assert(raw =~= o.kind.tag_spec() + seq![32u8] + digits + seq![0u8] + o.content);
    }
}

} // verus!
