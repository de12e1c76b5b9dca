//! Backend URLs as text: joining a base with a request target, collapsing
//! doubled slashes, and handing the result to the URL parser.

use crate::text::{COLON, SLASH};
use vstd::prelude::*;

verus! {

/// `s` with each `//` replaced by `/`, scanning from the left and never
/// looking at a slash twice.
pub open spec fn collapse(s: Seq<u8>) -> Seq<u8>
    decreases s.len(),
{
    if s.len() == 0 {
        s
    } else if s.len() >= 2 && s[0] == SLASH && s[1] == SLASH {
        seq![SLASH] + collapse(s.skip(2))
    } else {
        seq![s[0]] + collapse(s.skip(1))
    }
}

/// The index of the first slash of `s`, or the length of `s` if it has none.
pub open spec fn first_slash(s: Seq<u8>) -> int
    decreases s.len(),
{
    if s.len() == 0 || s[0] == SLASH {
        0
    } else {
        1 + first_slash(s.skip(1))
    }
}

/// The length of the scheme prefix of `s`, its `://` included: the text up
/// to the first slash, where that slash belongs to a `://`. Zero where the
/// first slash does not.
pub open spec fn scheme_len(s: Seq<u8>) -> int {
    let p = first_slash(s);
    if 1 <= p && p + 1 < s.len() && s[p - 1] == COLON && s[p + 1] == SLASH {
        p + 2
    } else {
        0
    }
}

/// `s` with its doubled slashes collapsed, except the one in the `://` that
/// ends its scheme.
pub open spec fn collapse_url(s: Seq<u8>) -> Seq<u8> {
    s.take(scheme_len(s)) + collapse(s.skip(scheme_len(s)))
}

/// What the URL parser makes of a text: the URL in its normal form, or
/// nothing where the text is no absolute URL.
pub uninterp spec fn url_parse(text: Seq<u8>) -> Option<Seq<u8>>;

/// Calls `url::Url::parse` on the text, decoded as UTF-8 with the
/// replacement character for what is not, and hands back the serialization
/// of the URL. The contract only names the parser's answer.
#[verifier::external_body]
pub(crate) fn parse_url(text: &[u8]) -> (r: Option<Vec<u8>>)
    ensures
        match r {
            Some(url) => url_parse(text@) == Some(url@),
            None => url_parse(text@) is None,
        },
{
    match url::Url::parse(&String::from_utf8_lossy(text)) {
        Ok(url) => Some(String::from(url).into_bytes()),
        Err(_) => None,
    }
}

fn find_first_slash(s: &[u8]) -> (p: usize)
    ensures
        p == first_slash(s@),
        p <= s.len(),
{
    let mut i: usize = 0;
    assert(s@.skip(0) =~= s@);
    while i < s.len() && s[i] != SLASH
        invariant
            i <= s.len(),
            first_slash(s@) == i + first_slash(s@.skip(i as int)),
        decreases s.len() - i,
    {
        assert(s@.skip(i as int).skip(1) =~= s@.skip(i + 1));
        i += 1;
    }
    i
}

/// Collapses the doubled slashes of a URL text, sparing the `://` of its
/// scheme.
pub fn collapse_slashes(s: &[u8]) -> (r: Vec<u8>)
    ensures
        r@ == collapse_url(s@),
{
    let p = find_first_slash(s);
    let keep: usize = if 1 <= p && p < s.len() - 1 && s[p - 1] == COLON && s[p + 1] == SLASH {
        p + 2
    } else {
        0
    };
    let mut out: Vec<u8> = Vec::with_capacity(s.len());
    let mut i: usize = 0;
    while i < keep
        invariant
            i <= keep <= s.len(),
            out@ == s@.take(i as int),
        decreases keep - i,
    {
        out.push(s[i]);
        assert(s@.take(i + 1) =~= s@.take(i as int).push(s@[i as int]));
        i += 1;
    }
    while i < s.len()
        invariant
            keep <= i <= s.len(),
            out@ + collapse(s@.skip(i as int)) == s@.take(keep as int) + collapse(
                s@.skip(keep as int),
            ),
        decreases s.len() - i,
    {
        let ghost rest = s@.skip(i as int);
        let ghost before = out@;
        if i + 1 < s.len() && s[i] == SLASH && s[i + 1] == SLASH {
            out.push(SLASH);
            proof {
                assert(rest.skip(2) =~= s@.skip(i + 2));
                assert(out@ + collapse(s@.skip(i + 2)) =~= before + collapse(rest));
            }
            i += 2;
        } else {
            out.push(s[i]);
            proof {
                assert(rest.skip(1) =~= s@.skip(i + 1));
                assert(out@ + collapse(s@.skip(i + 1)) =~= before + collapse(rest));
            }
            i += 1;
        }
    }
    assert(out@ =~= out@ + collapse(s@.skip(s.len() as int)));
    out
}

} // verus!
