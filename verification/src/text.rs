//! Copies of texts.
use vstd::prelude::*;

verus! {

/// The text in an optional string.
pub open spec fn opt_text(text: Option<String>) -> Option<Seq<char>> {
    match text {
        Some(s) => Some(s@),
        None => None,
    }
}

/// A copy of an optional string.
pub fn copy_opt(text: &Option<String>) -> (copy: Option<String>)
    ensures
        opt_text(copy) == opt_text(*text),
{
    match text {
        Some(s) => Some(s.clone()),
        None => None,
    }
}

/// A copy of a list of strings.
pub fn copy_texts(strings: &Vec<String>) -> (copy: Vec<String>)
    ensures
        crate::columns::texts(copy@) == crate::columns::texts(strings@),
{
    let mut copy: Vec<String> = Vec::new();
    let mut i: usize = 0;
    while i < strings.len()
        invariant
            i <= strings@.len(),
            copy@.len() == i,
            forall|j: int| 0 <= j < i ==> (#[trigger] copy@[j])@ == strings@[j]@,
        decreases strings@.len() - i,
    {
        copy.push(strings[i].clone());
        i = i + 1;
    }
    assert(crate::columns::texts(copy@) =~= crate::columns::texts(strings@));
    copy
}

} // verus!
