//! Paths as the bytes they are written in: the name of the file that a path
//! ends in, and the test for a suffix.

use vstd::prelude::*;
use vstd::slice::slice_subrange;

verus! {

/// The byte that parts the components of a path, `/`.
pub const SLASH: u8 = 47;

/// The byte `.`, which by itself names the directory it stands in and, twice,
/// the directory above.
pub const DOT: u8 = 46;

/// The bytes of a text in UTF-8.
pub open spec fn bytes_of(s: Seq<char>) -> Seq<u8> {
    vstd::utf8::encode_utf8(s)
}

/// Where the component that ends just before `end` starts: after the nearest
/// slash before `end`, or at the start of the path.
pub open spec fn segment_start(path: Seq<u8>, end: int) -> int
    decreases end,
{
    if 0 < end <= path.len() && path[end - 1] != SLASH {
        segment_start(path, end - 1)
    } else {
        end
    }
}

/// The stretch of `path` that holds the name of the file which the first
/// `end` bytes of the path end in. Slashes at the end are passed over, and so
/// is a last component `.`; a path that is empty or ends in `..` names no
/// file.
pub open spec fn file_name_before(path: Seq<u8>, end: int) -> Option<(int, int)>
    decreases end,
{
    if end <= 0 || end > path.len() {
        None
    } else if path[end - 1] == SLASH {
        file_name_before(path, end - 1)
    } else {
        let start = segment_start(path, end);
        if start == end - 1 && path[start] == DOT {
            file_name_before(path, end - 1)
        } else if start == end - 2 && path[start] == DOT && path[start + 1] == DOT {
            None
        } else {
            Some((start, end))
        }
    }
}

/// The name of the file that a path ends in: its last component.
pub open spec fn file_name(path: Seq<u8>) -> Option<Seq<u8>> {
    match file_name_before(path, path.len() as int) {
        Some((start, end)) => Some(path.subrange(start, end)),
        None => None,
    }
}

/// `s` ends in `suffix`.
pub open spec fn ends_with(s: Seq<u8>, suffix: Seq<u8>) -> bool {
    s.len() >= suffix.len() && s.subrange(s.len() - suffix.len(), s.len() as int) == suffix
}

proof fn lemma_segment_start(path: Seq<u8>, end: int)
    requires
        0 <= end <= path.len(),
    ensures
        0 <= segment_start(path, end) <= end,
        forall|k: int| segment_start(path, end) <= k < end ==> path[k] != SLASH,
        segment_start(path, end) == 0 || path[segment_start(path, end) - 1] == SLASH,
    decreases end,
{
    if 0 < end && path[end - 1] != SLASH {
        lemma_segment_start(path, end - 1);
    }
}

proof fn lemma_file_name_before(path: Seq<u8>, end: int)
    requires
        0 <= end <= path.len(),
    ensures
        file_name_before(path, end) matches Some((a, b)) ==> {
            &&& 0 <= a < b <= end
            &&& forall|k: int| a <= k < b ==> path[k] != SLASH
            &&& a == 0 || path[a - 1] == SLASH
            &&& !(b == a + 1 && path[a] == DOT)
            &&& !(b == a + 2 && path[a] == DOT && path[a + 1] == DOT)
        },
    decreases end,
{
    if end > 0 {
        lemma_segment_start(path, end);
        lemma_file_name_before(path, end - 1);
    }
}

/// The name of the file that a path ends in is one component of the path:
/// it stands in the path after a slash or at its start, it is not empty and
/// holds no slash, and it is neither `.` nor `..`.
pub proof fn law_file_name_is_a_component(path: Seq<u8>)
    requires
        file_name(path) is Some,
    ensures
        ({
            let name = file_name(path)->0;
            &&& name.len() > 0
            &&& !name.contains(SLASH)
            &&& name != seq![DOT]
            &&& name != seq![DOT, DOT]
            &&& exists|start: int|
                0 <= start && start + name.len() <= path.len() && #[trigger] path.subrange(
                    start,
                    start + name.len(),
                ) == name && (start == 0 || path[start - 1] == SLASH)
        }),
{
    lemma_file_name_before(path, path.len() as int);
    let (a, b) = file_name_before(path, path.len() as int)->0;
    let name = path.subrange(a, b);
    assert forall|k: int| 0 <= k < name.len() implies name[k] != SLASH by {
        assert(name[k] == path[a + k]);
    }
    assert(name[0] == path[a]);
    if name.len() == 2 {
        assert(name[1] == path[a + 1]);
    }
    assert(seq![DOT][0] == DOT);
    assert(seq![DOT, DOT][0] == DOT && seq![DOT, DOT][1] == DOT);
    assert(path.subrange(a, a + name.len()) == name);
}

/// Finds where the component that ends just before `end` starts.
pub fn segment_begin(path: &[u8], end: usize) -> (start: usize)
    requires
        end <= path.len(),
    ensures
        start == segment_start(path@, end as int),
        start <= end,
{
    let mut start: usize = end;
    while start > 0 && path[start - 1] != SLASH
        invariant
            start <= end <= path.len(),
            segment_start(path@, start as int) == segment_start(path@, end as int),
        decreases start,
    {
        start = start - 1;
    }
    start
}

/// Finds the name of the file that a path ends in.
pub fn file_name_of(path: &[u8]) -> (r: Option<&[u8]>)
    ensures
        match r {
            Some(name) => file_name(path@) == Some(name@),
            None => file_name(path@) is None,
        },
{
    let mut end: usize = path.len();
    while end > 0
        invariant
            end <= path.len(),
            file_name_before(path@, end as int) == file_name_before(path@, path.len() as int),
        decreases end,
    {
        let last: u8 = path[end - 1];
        if last == SLASH {
            end = end - 1;
        } else {
            let start: usize = segment_begin(path, end);
            if start == end - 1 && last == DOT {
                end = end - 1;
            } else if end >= 2 && start == end - 2 && path[start] == DOT && last == DOT {
                return None;
            } else {
                return Some(slice_subrange(path, start, end));
            }
        }
    }
    None
}

/// Tells whether `s` ends in `suffix`.
pub fn has_suffix(s: &[u8], suffix: &[u8]) -> (r: bool)
    ensures
        r == ends_with(s@, suffix@),
{
    if suffix.len() > s.len() {
        return false;
    }
    let offset: usize = s.len() - suffix.len();
    let ghost tail = s@.subrange(offset as int, s.len() as int);
    let mut k: usize = 0;
    while k < suffix.len()
        invariant
            k <= suffix.len(),
            offset + suffix.len() == s.len(),
            tail == s@.subrange(offset as int, s.len() as int),
            forall|j: int| 0 <= j < k ==> s@[offset + j] == suffix@[j],
        decreases suffix.len() - k,
    {
        if s[offset + k] != suffix[k] {
            assert(tail[k as int] == s@[offset + k]);
            return false;
        }
        k = k + 1;
    }
    assert(tail =~= suffix@);
    true
}

/// Tells whether two stretches of bytes are the same.
pub fn same_bytes(a: &[u8], b: &[u8]) -> (r: bool)
    ensures
        r == (a@ == b@),
{
    if a.len() != b.len() {
        return false;
    }
    let mut k: usize = 0;
    while k < a.len()
        invariant
            k <= a.len(),
            a.len() == b.len(),
            forall|j: int| 0 <= j < k ==> a@[j] == b@[j],
        decreases a.len() - k,
    {
        if a[k] != b[k] {
            return false;
        }
        k = k + 1;
    }
    assert(a@ =~= b@);
    true
}

} // verus!
