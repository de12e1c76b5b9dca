//! Header lists: an ordered multi-map from case-insensitive names to byte
//! values, with the selection and matching rules that `Vary` calls for.

use crate::text::{bytes_equal, copy_bytes, list_names, lists_name, names_match, same_name};
use vstd::prelude::*;

verus! {

/// One header field. The name is matched without regard to ASCII case, the
/// value byte for byte.
#[derive(Clone, Debug, PartialEq, Eq)]
pub struct Header {
    pub name: Vec<u8>,
    pub value: Vec<u8>,
}

/// What a header field is to the contracts: its two byte strings.
pub struct HeaderView {
    pub name: Seq<u8>,
    pub value: Seq<u8>,
}

impl View for Header {
    type V = HeaderView;

    open spec fn view(&self) -> HeaderView {
        HeaderView { name: self.name@, value: self.value@ }
    }
}

/// The fields of a header list, in order.
pub open spec fn model(headers: Seq<Header>) -> Seq<HeaderView> {
    headers.map_values(|h: Header| h@)
}

/// The value of the first field called `name`, if there is one.
pub open spec fn first_value(headers: Seq<HeaderView>, name: Seq<u8>) -> Option<Seq<u8>>
    decreases headers.len(),
{
    if headers.len() == 0 {
        None
    } else if same_name(headers[0].name, name) {
        Some(headers[0].value)
    } else {
        first_value(headers.skip(1), name)
    }
}

/// `headers` holds a field with the name of `h` and exactly its value.
pub open spec fn carries(headers: Seq<HeaderView>, h: HeaderView) -> bool {
    exists|j: int|
        0 <= j < headers.len() && same_name((#[trigger] headers[j]).name, h.name)
            && headers[j].value == h.value
}

/// Every field recorded in `selector` is carried by `request`.
pub open spec fn subsumes(request: Seq<HeaderView>, selector: Seq<HeaderView>) -> bool {
    forall|i: int| 0 <= i < selector.len() ==> carries(request, #[trigger] selector[i])
}

/// The test that keeps the fields whose name the list `vary` names.
pub open spec fn named_by(vary: Seq<u8>) -> spec_fn(HeaderView) -> bool {
    |h: HeaderView| lists_name(vary, h.name)
}

/// The fields of `request` whose name the list `vary` names, in order.
pub open spec fn select(request: Seq<HeaderView>, vary: Seq<u8>) -> Seq<HeaderView> {
    request.filter(named_by(vary))
}

/// The test that keeps the fields not called `name`.
pub open spec fn not_named(name: Seq<u8>) -> spec_fn(HeaderView) -> bool {
    |h: HeaderView| !same_name(h.name, name)
}

/// `headers` with every field called `name` replaced by one field that holds
/// `value`, placed last.
pub open spec fn replaced(headers: Seq<HeaderView>, name: Seq<u8>, value: Seq<u8>) -> Seq<
    HeaderView,
> {
    headers.filter(not_named(name)).push(HeaderView { name, value })
}

impl Header {
    /// A field of its own with the same name and value.
    pub fn duplicate(&self) -> (r: Header)
        ensures
            r@ == self@,
    {
        Header { name: copy_bytes(self.name.as_slice()), value: copy_bytes(self.value.as_slice()) }
    }
}

/// Looks a header up by name: the value of the first field so called.
pub fn header_value<'a>(headers: &'a Vec<Header>, name: &[u8]) -> (r: Option<&'a Vec<u8>>)
    ensures
        match r {
            Some(v) => first_value(model(headers@), name@) == Some(v@),
            None => first_value(model(headers@), name@) is None,
        },
{
    let mut i: usize = 0;
    assert(model(headers@).skip(0) =~= model(headers@));
    while i < headers.len()
        invariant
            i <= headers.len(),
            first_value(model(headers@), name@) == first_value(
                model(headers@).skip(i as int),
                name@,
            ),
        decreases headers.len() - i,
    {
        assert(model(headers@).skip(i as int)[0] == headers@[i as int]@);
        if names_match(headers[i].name.as_slice(), name) {
            return Some(&headers[i].value);
        }
        assert(model(headers@).skip(i as int).skip(1) =~= model(headers@).skip(i + 1));
        i += 1;
    }
    None
}

/// Tells whether `headers` carries the field `h`.
pub fn has_header(headers: &Vec<Header>, h: &Header) -> (r: bool)
    ensures
        r == carries(model(headers@), h@),
{
    let mut j: usize = 0;
    while j < headers.len()
        invariant
            j <= headers.len(),
            forall|k: int|
                0 <= k < j ==> !(same_name((#[trigger] model(headers@)[k]).name, h@.name) && model(
                    headers@,
                )[k].value == h@.value),
        decreases headers.len() - j,
    {
        assert(model(headers@)[j as int] == headers@[j as int]@);
        if names_match(headers[j].name.as_slice(), h.name.as_slice()) && bytes_equal(
            headers[j].value.as_slice(),
            h.value.as_slice(),
        ) {
            return true;
        }
        j += 1;
    }
    false
}

/// Tells whether the request headers carry every field of `selector`.
pub fn headers_subsume(request: &Vec<Header>, selector: &Vec<Header>) -> (r: bool)
    ensures
        r == subsumes(model(request@), model(selector@)),
{
    let mut i: usize = 0;
    while i < selector.len()
        invariant
            i <= selector.len(),
            forall|k: int| 0 <= k < i ==> carries(model(request@), #[trigger] model(selector@)[k]),
        decreases selector.len() - i,
    {
        assert(model(selector@)[i as int] == selector@[i as int]@);
        if !has_header(request, &selector[i]) {
            return false;
        }
        i += 1;
    }
    true
}

/// Keeps the fields of `request` whose name the comma-separated list `vary`
/// names.
pub fn select_named(request: &Vec<Header>, vary: &[u8]) -> (r: Vec<Header>)
    ensures
        model(r@) == select(model(request@), vary@),
{
    let mut out: Vec<Header> = Vec::new();
    let mut i: usize = 0;
    assert(model(request@).take(0) =~= Seq::<HeaderView>::empty());
    assert(model(out@) =~= Seq::<HeaderView>::empty());
    proof {
        reveal(Seq::filter);
    }
    while i < request.len()
        invariant
            i <= request.len(),
            model(out@) == model(request@).take(i as int).filter(named_by(vary@)),
        decreases request.len() - i,
    {
        let ghost before = model(out@);
        proof {
            let head = model(request@).take(i as int);
            assert(model(request@).take(i + 1) =~= head.push(request@[i as int]@));
            head.lemma_filter_push(request@[i as int]@, named_by(vary@));
        }
        if list_names(vary, request[i].name.as_slice()) {
            out.push(request[i].duplicate());
            assert(model(out@) =~= before.push(request@[i as int]@));
        }
        i += 1;
    }
    assert(model(request@).take(request.len() as int) =~= model(request@));
    out
}

/// Sets a header: drops every field called `name` and appends one that holds
/// `value`.
pub fn set_header(headers: Vec<Header>, name: Vec<u8>, value: Vec<u8>) -> (r: Vec<Header>)
    ensures
        model(r@) == replaced(model(headers@), name@, value@),
{
    let ghost all = model(headers@);
    let mut out: Vec<Header> = Vec::new();
    assert(all.take(0) =~= Seq::<HeaderView>::empty());
    assert(model(out@) =~= Seq::<HeaderView>::empty());
    proof {
        reveal(Seq::filter);
    }
    for h in it: headers.into_iter()
        invariant
            it.seq() == headers@,
            all == model(headers@),
            model(out@) == all.take(it.index() as int).filter(not_named(name@)),
    {
        let ghost before = model(out@);
        let ghost i = it.index() as int;
        proof {
            let head = all.take(i);
            assert(all.take(i + 1) =~= head.push(h@));
            head.lemma_filter_push(h@, not_named(name@));
        }
        if !names_match(h.name.as_slice(), name.as_slice()) {
            out.push(h);
            assert(model(out@) =~= before.push(h@));
        }
    }
    assert(all.take(all.len() as int) =~= all);
    let ghost kept = model(out@);
    let ghost last = HeaderView { name: name@, value: value@ };
    out.push(Header { name, value });
    assert(model(out@) =~= kept.push(last));
    out
}

/// A request carries every field that was selected from it.
pub proof fn lemma_select_subsumed(request: Seq<HeaderView>, vary: Seq<u8>)
    ensures
        subsumes(request, select(request, vary)),
{
    let chosen = select(request, vary);
    assert forall|i: int| 0 <= i < chosen.len() implies carries(request, #[trigger] chosen[i]) by {
        request.lemma_filter_contains_rev(named_by(vary), chosen[i]);
        assert(chosen.contains(chosen[i]));
        assert(request.contains(chosen[i]));
        let j = choose|j: int| 0 <= j < request.len() && request[j] == chosen[i];
        assert(same_name(request[j].name, chosen[i].name));
    }
}

} // verus!
