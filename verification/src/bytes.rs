use vstd::prelude::*;

verus! {

/// `i` is the place of the first `b` in `s`.
pub open spec fn first_at(s: Seq<u8>, b: u8, i: int) -> bool {
    &&& 0 <= i < s.len()
    &&& s[i] == b
    &&& forall|j: int| 0 <= j < i ==> s[j] != b
}

/// The place of the first `b` in `s`, if `s` holds one.
pub open spec fn position(s: Seq<u8>, b: u8) -> Option<nat> {
    if exists|i: int| first_at(s, b, i) {
        Some((choose|i: int| first_at(s, b, i)) as nat)
    } else {
        None
    }
}

/// The first occurrence is unique.
pub proof fn lemma_position_is(s: Seq<u8>, b: u8, i: int)
    requires
        first_at(s, b, i),
    ensures
        position(s, b) == Some(i as nat),
{
    let k = choose|k: int| first_at(s, b, k);
    assert(first_at(s, b, k));
    if k < i {
        assert(s[k] != b);
    }
    if i < k {
        assert(s[i] != b);
    }
}

/// A sequence without `b` has no first `b`.
pub proof fn lemma_position_none(s: Seq<u8>, b: u8)
    requires
        forall|j: int| 0 <= j < s.len() ==> s[j] != b,
    ensures
        position(s, b) is None,
{
}

/// What `position` returns is a first occurrence.
pub proof fn lemma_position_some(s: Seq<u8>, b: u8)
    ensures
        position(s, b) matches Some(i) ==> first_at(s, b, i as int),
        position(s, b) is None ==> forall|j: int| 0 <= j < s.len() ==> s[j] != b,
{
    if position(s, b) is None {
        assert forall|j: int| 0 <= j < s.len() implies s[j] != b by {
            if s[j] == b {
                lemma_has_first(s, b, j);
            }
        }
    }
}

proof fn lemma_has_first(s: Seq<u8>, b: u8, j: int)
    requires
        0 <= j < s.len(),
        s[j] == b,
    ensures
        exists|i: int| first_at(s, b, i),
    decreases j,
{
    if forall|k: int| 0 <= k < j ==> s[k] != b {
        assert(first_at(s, b, j));
    } else {
        let k = choose|k: int| 0 <= k < j && s[k] == b;
        lemma_has_first(s, b, k);
    }
}

/// Finds the first `b` in `s[from..]`; the place is counted from `from`.
pub fn find_byte(s: &[u8], from: usize, b: u8) -> (r: Option<usize>)
    requires
        from <= s@.len(),
    ensures
        match r {
            Some(n) => position(s@.skip(from as int), b) == Some(n as nat),
            None => position(s@.skip(from as int), b) is None,
        },
{
    let ghost tail = s@.skip(from as int);
    let mut i: usize = from;
    while i < s.len()
        invariant
            from <= i <= s@.len(),
            tail == s@.skip(from as int),
            forall|j: int| 0 <= j < i - from ==> tail[j] != b,
        decreases s@.len() - i,
    {
        if s[i] == b {
            proof {
                assert(tail[i - from] == s@[i as int]);
                assert(first_at(tail, b, i - from));
                lemma_position_is(tail, b, i - from);
            }
            return Some(i - from);
        }
        assert(tail[i - from] == s@[i as int]);
        i += 1;
    }
    proof {
        lemma_position_none(tail, b);
    }
    None
}

/// Whether two byte strings are equal.
pub fn bytes_eq(a: &[u8], b: &[u8]) -> (r: bool)
    ensures
        r == (a@ == b@),
{
    if a.len() != b.len() {
        return false;
    }
    let mut i: usize = 0;
    while i < a.len()
        invariant
            a@.len() == b@.len(),
            i <= a@.len(),
            forall|j: int| 0 <= j < i ==> a@[j] == b@[j],
        decreases a@.len() - i,
    {
        if a[i] != b[i] {
            return false;
        }
        i += 1;
    }
    assert(a@ =~= b@);
    true
}

/// A copy of `s[from..to]`.
pub fn copy_range(s: &[u8], from: usize, to: usize) -> (r: Vec<u8>)
    requires
        from <= to <= s@.len(),
    ensures
        r@ == s@.subrange(from as int, to as int),
{
    let mut out: Vec<u8> = Vec::new();
    let mut i: usize = from;
    while i < to
        invariant
            from <= i <= to <= s@.len(),
            out@ == s@.subrange(from as int, i as int),
        decreases to - i,
    {
        out.push(s[i]);
        assert(out@ =~= s@.subrange(from as int, i + 1));
        i += 1;
    }
    out
}

/// Appends `s` to `out`.
pub fn append(out: &mut Vec<u8>, s: &[u8])
    ensures
        final(out)@ == old(out)@ + s@,
{
    let ghost before = out@;
    let mut i: usize = 0;
    while i < s.len()
        invariant
            i <= s@.len(),
            out@ == before + s@.subrange(0, i as int),
        decreases s@.len() - i,
    {
        out.push(s[i]);
        assert(out@ =~= before + s@.subrange(0, i + 1));
        i += 1;
    }
    assert(s@.subrange(0, s@.len() as int) =~= s@);
}

} // verus!
