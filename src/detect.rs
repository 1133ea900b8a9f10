//! Deciding whether a proposed jet changes what history records.
use vstd::prelude::*;
use crate::model::{opt_view, strings_view};

verus! {

/// Header lists compare as the store has always compared them: equal length,
/// and each existing header present somewhere among the proposed ones. The
/// reverse containment is not checked.
pub open spec fn same_headers(existing: Seq<Seq<char>>, proposed: Seq<Seq<char>>) -> bool {
    &&& existing.len() == proposed.len()
    &&& forall|i: int| 0 <= i < existing.len() ==> proposed.contains(#[trigger] existing[i])
}

/// Whether `h` occurs in `v`.
fn contains_header(v: &Vec<String>, h: &String) -> (r: bool)
    ensures
        r == strings_view(v@).contains(h@),
{
    let mut i: usize = 0;
    while i < v.len()
        invariant
            i <= v.len(),
            forall|k: int| 0 <= k < i ==> v@[k]@ != h@,
        decreases v.len() - i,
    {
        if v[i] == *h {
            assert(strings_view(v@)[i as int] == h@);
            return true;
        }
        i = i + 1;
    }
    proof {
        if strings_view(v@).contains(h@) {
            let k = choose|k: int| 0 <= k < strings_view(v@).len() && strings_view(v@)[k] == h@;
            assert(v@[k]@ == h@);
        }
    }
    false
}

/// The header half of change detection.
pub fn headers_same(existing: &Vec<String>, proposed: &Vec<String>) -> (r: bool)
    ensures
        r == same_headers(strings_view(existing@), strings_view(proposed@)),
{
    let ghost e = strings_view(existing@);
    let ghost p = strings_view(proposed@);
    if existing.len() != proposed.len() {
        return false;
    }
    let mut i: usize = 0;
    while i < existing.len()
        invariant
            i <= existing.len(),
            e == strings_view(existing@),
            p == strings_view(proposed@),
            forall|k: int| 0 <= k < i ==> p.contains(#[trigger] e[k]),
        decreases existing.len() - i,
    {
        if !contains_header(proposed, &existing[i]) {
            assert(!p.contains(e[i as int]));
            return false;
        }
        i = i + 1;
    }
    true
}

/// The body half of change detection: exact equality, absence included.
pub fn bodies_same(existing: &Option<String>, proposed: &Option<String>) -> (r: bool)
    ensures
        r == (opt_view(*existing) == opt_view(*proposed)),
{
    match (existing, proposed) {
        (Some(a), Some(b)) => *a == *b,
        (None, None) => true,
        _ => false,
    }
}

} // verus!
