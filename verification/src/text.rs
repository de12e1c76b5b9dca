//! Byte-level text rules shared by the header, index and configuration code:
//! ASCII case folding, the test for printable header text, trimming, and the
//! fields of a comma-separated list.

use vstd::prelude::*;

verus! {

/// Horizontal tab.
pub const TAB: u8 = 9;

/// Space.
pub const SPACE: u8 = 32;

/// The hyphen that separates the groups of an entry ID's text.
pub const HYPHEN: u8 = 45;

/// The separator of list-valued headers.
pub const COMMA: u8 = 44;

/// The path separator.
pub const SLASH: u8 = 47;

/// The colon that ends a URL scheme.
pub const COLON: u8 = 58;

/// Lower-case form of an ASCII letter; every other byte stands for itself.
pub open spec fn lower(b: u8) -> u8 {
    if 65 <= b && b <= 90 {
        (b + 32) as u8
    } else {
        b
    }
}

/// Two header names are the same name when they agree byte for byte once
/// ASCII letters are folded to lower case.
pub open spec fn same_name(a: Seq<u8>, b: Seq<u8>) -> bool {
    &&& a.len() == b.len()
    &&& forall|i: int| 0 <= i < a.len() ==> lower(#[trigger] a[i]) == lower(b[i])
}

/// A byte that may appear in header text: printable ASCII or a tab.
pub open spec fn visible(b: u8) -> bool {
    (32 <= b && b < 127) || b == TAB
}

/// Header text is a byte string made of visible bytes only.
pub open spec fn is_text(s: Seq<u8>) -> bool {
    forall|i: int| 0 <= i < s.len() ==> visible(#[trigger] s[i])
}

/// ASCII white space: space, tab, line feed, vertical tab, form feed,
/// carriage return.
pub open spec fn blank(b: u8) -> bool {
    b == SPACE || (9 <= b && b <= 13)
}

/// `s` without its leading white space.
pub open spec fn trim_start(s: Seq<u8>) -> Seq<u8>
    decreases s.len(),
{
    if s.len() > 0 && blank(s[0]) {
        trim_start(s.skip(1))
    } else {
        s
    }
}

/// `s` without its trailing white space.
pub open spec fn trim_end(s: Seq<u8>) -> Seq<u8>
    decreases s.len(),
{
    if s.len() > 0 && blank(s.last()) {
        trim_end(s.drop_last())
    } else {
        s
    }
}

/// `s` without the white space that surrounds it.
pub open spec fn trim(s: Seq<u8>) -> Seq<u8> {
    trim_end(trim_start(s))
}

/// `s[i..j]` is one field of the comma-separated list `s`: a maximal stretch
/// without a comma.
pub open spec fn is_field(s: Seq<u8>, i: int, j: int) -> bool {
    &&& 0 <= i <= j <= s.len()
    &&& (i == 0 || s[i - 1] == COMMA)
    &&& (j == s.len() || s[j] == COMMA)
    &&& forall|k: int| i <= k < j ==> #[trigger] s[k] != COMMA
}

/// The comma-separated list `list` names `name`: one of its fields, trimmed,
/// is the same name.
pub open spec fn lists_name(list: Seq<u8>, name: Seq<u8>) -> bool {
    exists|i: int, j: int|
        #[trigger] is_field(list, i, j) && same_name(trim(list.subrange(i, j)), name)
}

/// Folds one byte to lower case.
pub fn to_lower(b: u8) -> (r: u8)
    ensures
        r == lower(b),
{
    if 65 <= b && b <= 90 {
        b + 32
    } else {
        b
    }
}

/// Compares two names without regard to ASCII case.
pub fn names_match(a: &[u8], b: &[u8]) -> (r: bool)
    ensures
        r == same_name(a@, b@),
{
    if a.len() != b.len() {
        return false;
    }
    let mut i: usize = 0;
    while i < a.len()
        invariant
            a.len() == b.len(),
            i <= a.len(),
            forall|k: int| 0 <= k < i ==> lower(#[trigger] a@[k]) == lower(b@[k]),
        decreases a.len() - i,
    {
        if to_lower(a[i]) != to_lower(b[i]) {
            return false;
        }
        i += 1;
    }
    true
}

/// Compares two byte strings exactly.
pub fn bytes_equal(a: &[u8], b: &[u8]) -> (r: bool)
    ensures
        r == (a@ == b@),
{
    if a.len() != b.len() {
        return false;
    }
    let mut i: usize = 0;
    while i < a.len()
        invariant
            a.len() == b.len(),
            i <= a.len(),
            forall|k: int| 0 <= k < i ==> a@[k] == b@[k],
        decreases a.len() - i,
    {
        if a[i] != b[i] {
            return false;
        }
        i += 1;
    }
    assert(a@ =~= b@);
    true
}

/// Copies a byte string.
pub fn copy_bytes(s: &[u8]) -> (r: Vec<u8>)
    ensures
        r@ == s@,
{
    let mut out: Vec<u8> = Vec::with_capacity(s.len());
    let mut i: usize = 0;
    while i < s.len()
        invariant
            i <= s.len(),
            out@ == s@.take(i as int),
        decreases s.len() - i,
    {
        out.push(s[i]);
        assert(s@.take(i + 1) =~= s@.take(i as int).push(s@[i as int]));
        i += 1;
    }
    assert(s@.take(s.len() as int) =~= s@);
    out
}

/// Tells whether a header value can be read as text.
pub fn is_visible_text(s: &[u8]) -> (r: bool)
    ensures
        r == is_text(s@),
{
    let mut i: usize = 0;
    while i < s.len()
        invariant
            i <= s.len(),
            forall|k: int| 0 <= k < i ==> visible(#[trigger] s@[k]),
        decreases s.len() - i,
    {
        let b = s[i];
        if !((32 <= b && b < 127) || b == TAB) {
            return false;
        }
        i += 1;
    }
    true
}

fn is_blank(b: u8) -> (r: bool)
    ensures
        r == blank(b),
{
    b == SPACE || (9 <= b && b <= 13)
}

/// Finds the bounds of `s[from..to]` once trimmed.
fn trim_bounds(s: &[u8], from: usize, to: usize) -> (r: (usize, usize))
    requires
        from <= to <= s.len(),
    ensures
        from <= r.0 <= r.1 <= to,
        s@.subrange(r.0 as int, r.1 as int) == trim(s@.subrange(from as int, to as int)),
{
    let mut lo = from;
    while lo < to && is_blank(s[lo])
        invariant
            from <= lo <= to <= s.len(),
            trim_start(s@.subrange(from as int, to as int)) == trim_start(
                s@.subrange(lo as int, to as int),
            ),
        decreases to - lo,
    {
        assert(s@.subrange(lo as int, to as int).skip(1) =~= s@.subrange(lo + 1, to as int));
        lo += 1;
    }
    assert(trim_start(s@.subrange(lo as int, to as int)) == s@.subrange(lo as int, to as int));
    let mut hi = to;
    while lo < hi && is_blank(s[hi - 1])
        invariant
            lo <= hi <= to <= s.len(),
            trim_end(s@.subrange(lo as int, to as int)) == trim_end(
                s@.subrange(lo as int, hi as int),
            ),
        decreases hi - lo,
    {
        assert(s@.subrange(lo as int, hi as int).drop_last() =~= s@.subrange(lo as int, hi - 1));
        hi -= 1;
    }
    assert(trim_end(s@.subrange(lo as int, hi as int)) == s@.subrange(lo as int, hi as int));
    (lo, hi)
}

/// Compares `s[from..to]` with `name` without regard to ASCII case.
fn range_matches(s: &[u8], from: usize, to: usize, name: &[u8]) -> (r: bool)
    requires
        from <= to <= s.len(),
    ensures
        r == same_name(s@.subrange(from as int, to as int), name@),
{
    if to - from != name.len() {
        return false;
    }
    let mut i: usize = 0;
    while i < name.len()
        invariant
            from <= to <= s.len(),
            to - from == name.len(),
            i <= name.len(),
            forall|k: int|
                0 <= k < i ==> lower(#[trigger] s@.subrange(from as int, to as int)[k]) == lower(
                    name@[k],
                ),
        decreases name.len() - i,
    {
        if to_lower(s[from + i]) != to_lower(name[i]) {
            assert(s@.subrange(from as int, to as int)[i as int] == s@[from + i]);
            return false;
        }
        assert(s@.subrange(from as int, to as int)[i as int] == s@[from + i]);
        i += 1;
    }
    true
}

/// Tells whether the comma-separated list `list` names `name`.
pub fn list_names(list: &[u8], name: &[u8]) -> (r: bool)
    ensures
        r == lists_name(list@, name@),
{
    let mut start: usize = 0;
    loop
        invariant
            start <= list.len(),
            start == 0 || list@[start - 1] == COMMA,
            forall|i: int, j: int|
                #[trigger] is_field(list@, i, j) && i < start ==> !same_name(
                    trim(list@.subrange(i, j)),
                    name@,
                ),
        decreases list.len() - start,
    {
        let mut end = start;
        while end < list.len() && list[end] != COMMA
            invariant
                start <= end <= list.len(),
                forall|k: int| start <= k < end ==> #[trigger] list@[k] != COMMA,
            decreases list.len() - end,
        {
            end += 1;
        }
        assert(is_field(list@, start as int, end as int));
        let (lo, hi) = trim_bounds(list, start, end);
        if range_matches(list, lo, hi, name) {
            return true;
        }
        assert forall|i: int, j: int|
            #[trigger] is_field(list@, i, j) && i <= end implies !same_name(
            trim(list@.subrange(i, j)),
            name@,
        ) by {
            if i >= start {
                if i > start {
                    assert(list@[i - 1] == COMMA);
                }
                assert(i == start);
                if j < end {
                    assert(list@[j] == COMMA);
                }
                if j > end {
                    assert(list@[end as int] == COMMA);
                }
                assert(j == end);
            }
        }
        if end == list.len() {
            assert forall|i: int, j: int| #[trigger] is_field(list@, i, j) implies !same_name(
                trim(list@.subrange(i, j)),
                name@,
            ) by {}
            return false;
        }
        start = end + 1;
    }
}

} // verus!
