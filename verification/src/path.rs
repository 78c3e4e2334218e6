//! Paths of watched files: the name of a document and whether a file is one.

use crate::text::{chars_of, string_of};
use vstd::prelude::*;

verus! {

/// The final segment of a path: what follows its last slash, or all of it
/// where there is none.
pub open spec fn final_segment(path: Seq<char>) -> Seq<char>
    decreases path.len(),
{
    if path.len() == 0 || path.last() == '/' {
        Seq::empty()
    } else {
        final_segment(path.drop_last()).push(path.last())
    }
}

/// The extension of the accepted document type, with its dot.
pub open spec fn document_suffix() -> Seq<char> {
    seq!['.', 'p', 'd', 'f']
}

/// Whether a file name has the accepted extension: it ends in `.pdf` and
/// has at least one character before that.
pub open spec fn has_document_extension(name: Seq<char>) -> bool {
    name.len() > 4 && name.subrange(name.len() - 4, name.len() as int) == document_suffix()
}

/// Whether the file at `path` is of the accepted document type.
pub open spec fn is_document(path: Seq<char>) -> bool {
    has_document_extension(final_segment(path))
}

/// The final segment starts behind the last slash.
proof fn lemma_final_segment_is_suffix(path: Seq<char>, start: int)
    requires
        0 <= start <= path.len(),
        start > 0 ==> path[start - 1] == '/',
        forall|j: int| start <= j < path.len() ==> path[j] != '/',
    ensures
        final_segment(path) == path.subrange(start, path.len() as int),
    decreases path.len(),
{
    if start == path.len() {
        assert(path.subrange(start, path.len() as int) == Seq::<char>::empty());
    } else {
        let init = path.drop_last();
        lemma_final_segment_is_suffix(init, start);
        assert(init.subrange(start, init.len() as int).push(path.last()) == path.subrange(
            start,
            path.len() as int,
        ));
    }
}

/// The characters of the final segment of a path.
fn final_chars(path: &str) -> (name: Vec<char>)
    ensures
        name@ == final_segment(path@),
{
    let chars = chars_of(path);
    let mut start: usize = chars.len();
    while start > 0 && chars[start - 1] != '/'
        invariant
            start <= chars.len(),
            forall|j: int| start <= j < chars.len() ==> chars@[j] != '/',
        decreases start,
    {
        start -= 1;
    }
    let mut name: Vec<char> = Vec::new();
    let mut i: usize = start;
    while i < chars.len()
        invariant
            start <= i <= chars.len(),
            name@ == chars@.subrange(start as int, i as int),
        decreases chars.len() - i,
    {
        name.push(chars[i]);
        i += 1;
        assert(chars@.subrange(start as int, i as int) == chars@.subrange(
            start as int,
            i - 1,
        ).push(chars@[i - 1]));
    }
    proof {
        lemma_final_segment_is_suffix(chars@, start as int);
    }
    name
}

/// The name of the document at `path`: the final segment of the path.
pub fn document_name(path: &str) -> (name: String)
    ensures
        name@ == final_segment(path@),
{
    let name = final_chars(path);
    string_of(&name)
}

/// Decides [`is_document`].
pub fn accepted(path: &str) -> (r: bool)
    ensures
        r == is_document(path@),
{
    let name = final_chars(path);
    let n: usize = name.len();
    if n <= 4 {
        return false;
    }
    let r = name[n - 4] == '.' && name[n - 3] == 'p' && name[n - 2] == 'd' && name[n - 1] == 'f';
    proof {
        let tail = name@.subrange(n - 4, n as int);
        assert(tail[0] == name@[n - 4]);
        assert(tail[1] == name@[n - 3]);
        assert(tail[2] == name@[n - 2]);
        assert(tail[3] == name@[n - 1]);
        if r {
            assert(tail =~= document_suffix());
        }
    }
    r
}

} // verus!
