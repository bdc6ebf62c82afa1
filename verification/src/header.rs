//! The line that keeps a name at the head of a geometry file, and the label
//! that a file goes by where it keeps none.
//!
//! A stored name is written behind a marker character on the first line of
//! the file. The text behind the marker is handed out as it stands: to turn
//! it into a name, and a name into it, is left to the caller. Paths are
//! read as text whose components are parted by `/`.
use crate::model::valid;
use crate::name::Name;
use crate::regime::NameType;
use vstd::prelude::*;
use vstd::string::*;

verus! {

/// The character that marks a line as holding a name.
pub const MARKER: char = '#';

/// The place behind the last `/` of a path, or 0 where it has none.
pub open spec fn after_last_slash(path: Seq<char>) -> int
    decreases path.len(),
{
    if path.len() == 0 {
        0
    } else if path.last() == '/' {
        path.len() as int
    } else {
        after_last_slash(path.drop_last())
    }
}

/// The last component of a path: what stands behind its last `/`.
pub open spec fn last_component(path: Seq<char>) -> Seq<char> {
    path.subrange(after_last_slash(path), path.len() as int)
}

/// The text that a first line stores behind the marker, if the line starts
/// with the marker and goes on behind it.
pub open spec fn stored_text(line: Seq<char>) -> Option<Seq<char>> {
    if line.len() >= 2 && line[0] == MARKER {
        Some(line.subrange(1, line.len() as int))
    } else {
        None
    }
}

/// The first line that stores `text`: the marker, then the text.
pub open spec fn header_of(text: Seq<char>) -> Seq<char> {
    seq![MARKER] + text
}

/// The place behind the last `/` is known from the characters behind it,
/// none of which is a `/`.
pub proof fn lemma_after_last_slash_is(path: Seq<char>, k: int)
    requires
        0 <= k <= path.len(),
        k > 0 ==> path[k - 1] == '/',
        forall|j: int| k <= j < path.len() ==> path[j] != '/',
    ensures
        after_last_slash(path) == k,
    decreases path.len(),
{
    if path.len() > k {
        lemma_after_last_slash_is(path.drop_last(), k);
    }
}

/// A header hands back the text that it was made of, as long as there is
/// any.
pub proof fn lemma_header_round_trip(text: Seq<char>)
    requires
        text.len() >= 1,
    ensures
        stored_text(header_of(text)) == Some(text),
{
    assert(header_of(text).subrange(1, header_of(text).len() as int) =~= text);
}

/// The name that a file or a folder goes by: the last component of its
/// path.
pub fn path_to_str(path: &str) -> (r: String)
    ensures
        r@ == last_component(path@),
{
    let n = path.unicode_len();
    let mut i = n;
    while i > 0 && path.get_char(i - 1) != '/'
        invariant
            i <= n,
            n == path@.len(),
            forall|j: int| i <= j < n ==> path@[j] != '/',
        decreases i,
    {
        i = i - 1;
    }
    proof {
        lemma_after_last_slash_is(path@, i as int);
    }
    String::from_str(path.substring_char(i, n))
}

/// The text that the first line of a file stores behind the marker, or
/// `None` where the line stores none.
pub fn stored_name(first_line: &str) -> (r: Option<&str>)
    ensures
        match r {
            Some(text) => stored_text(first_line@) == Some(text@),
            None => stored_text(first_line@) is None,
        },
{
    let n = first_line.unicode_len();
    if n >= 2 && first_line.get_char(0) == MARKER {
        Some(first_line.substring_char(1, n))
    } else {
        None
    }
}

/// The first line that stores `text` behind the marker.
pub fn header_line(text: &str) -> (r: String)
    ensures
        r@ == header_of(text@),
{
    proof {
        reveal_strlit("#");
        assert("#"@ =~= seq![MARKER]);
    }
    String::from_str("#").concat(text)
}

impl<T: NameType> Name<T> {
    /// Takes a name that was read back from a file: it stands only if it
    /// is valid.
    pub fn accept(self) -> (r: Option<Self>)
        ensures
            r == if valid(self@) {
                Some(self)
            } else {
                None
            },
    {
        if self.is_valid() {
            Some(self)
        } else {
            None
        }
    }
}

} // verus!
