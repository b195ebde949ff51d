//! Which files in the configuration directory are installed filters.
use vstd::prelude::*;
use crate::text::{has_infix, str_has_infix};

verus! {

/// The product name that every installed filter file carries.
pub const PRODUCT_MARKER: &'static str = "NeverSink";

/// The file-name part that marks a filter file.
pub const EXTENSION_MARKER: &'static str = ".filter";

pub open spec fn product_marker() -> Seq<char> {
    seq!['N', 'e', 'v', 'e', 'r', 'S', 'i', 'n', 'k']
}

pub open spec fn extension_marker() -> Seq<char> {
    seq!['.', 'f', 'i', 'l', 't', 'e', 'r']
}

/// A file name belongs to an installed filter when it holds both markers.
pub open spec fn is_filter_name(name: Seq<char>) -> bool {
    has_infix(name, product_marker()) && has_infix(name, extension_marker())
}

/// Whether a directory entry named `name` is an installed filter file.
pub fn is_filter_file_name(name: &str) -> (r: bool)
    ensures
        r == is_filter_name(name@),
{
    proof {
        reveal_strlit("NeverSink");
        reveal_strlit(".filter");
    }
    assert(PRODUCT_MARKER@ =~= product_marker());
    assert(EXTENSION_MARKER@ =~= extension_marker());
    str_has_infix(name, PRODUCT_MARKER) && str_has_infix(name, EXTENSION_MARKER)
}


/// The names of `v`, as character sequences.
pub open spec fn names_view(v: Seq<String>) -> Seq<Seq<char>> {
    v.map_values(|s: String| s@)
}

/// Index of the first filter file among `names`, looking from index `i` on.
pub open spec fn first_filter_from(names: Seq<Seq<char>>, i: int) -> Option<int>
    decreases names.len() - i,
{
    if i < 0 || i >= names.len() {
        None
    } else if is_filter_name(names[i]) {
        Some(i)
    } else {
        first_filter_from(names, i + 1)
    }
}

/// Index of the first filter file in a directory listing.
pub open spec fn first_filter(names: Seq<Seq<char>>) -> Option<int> {
    first_filter_from(names, 0)
}

/// The filter files of a directory listing, in listing order.
pub open spec fn filter_names(names: Seq<Seq<char>>) -> Seq<Seq<char>>
    decreases names.len(),
{
    if names.len() == 0 {
        seq![]
    } else if is_filter_name(names.last()) {
        filter_names(names.drop_last()).push(names.last())
    } else {
        filter_names(names.drop_last())
    }
}

/// The index of the first entry of a directory listing that is an installed
/// filter file; the one whose version is probed.
pub fn first_filter_file(names: &Vec<String>) -> (r: Option<usize>)
    ensures
        match first_filter(names_view(names@)) {
            Some(i) => r is Some && r->0 as int == i,
            None => r is None,
        },
        r is Some ==> r->0 < names@.len(),
{
    let ghost v = names_view(names@);
    let mut i: usize = 0;
    while i < names.len()
        invariant
            v == names_view(names@),
            i <= names.len(),
            first_filter_from(v, 0) == first_filter_from(v, i as int),
        decreases names.len() - i,
    {
        if is_filter_file_name(names[i].as_str()) {
            return Some(i);
        }
        i = i + 1;
    }
    None
}

/// The entries of a directory listing that are installed filter files, in
/// listing order: the files that are removed before a new set is installed.
pub fn stale_filter_files(names: &Vec<String>) -> (r: Vec<String>)
    ensures
        names_view(r@) == filter_names(names_view(names@)),
{
    let mut out: Vec<String> = Vec::new();
    let mut i: usize = 0;
    while i < names.len()
        invariant
            i <= names.len(),
            names_view(out@) == filter_names(names_view(names@.subrange(0, i as int))),
        decreases names.len() - i,
    {
        let ghost before = names@.subrange(0, i as int);
        let ghost after = names@.subrange(0, i + 1);
        assert(names_view(after).drop_last() =~= names_view(before));
        assert(names_view(after).last() == names@[i as int]@);
        if is_filter_file_name(names[i].as_str()) {
            out.push(names[i].clone());
            assert(names_view(out@) =~= filter_names(names_view(after)));
        } else {
            assert(names_view(out@) =~= filter_names(names_view(after)));
        }
        i = i + 1;
    }
    assert(names@.subrange(0, names.len() as int) =~= names@);
    out
}


proof fn lemma_no_filter_from(names: Seq<Seq<char>>, i: int)
    requires
        forall|k: int| 0 <= k < names.len() ==> !is_filter_name(#[trigger] names[k]),
    ensures
        first_filter_from(names, i) is None,
    decreases names.len() - i,
{
    if 0 <= i < names.len() {
        lemma_no_filter_from(names, i + 1);
    }
}

/// A listing that holds no installed filter file has no file to probe.
pub proof fn lemma_no_filter_found(names: Seq<Seq<char>>)
    requires
        forall|k: int| 0 <= k < names.len() ==> !is_filter_name(#[trigger] names[k]),
    ensures
        first_filter(names) is None,
{
    lemma_no_filter_from(names, 0);
}

} // verus!
