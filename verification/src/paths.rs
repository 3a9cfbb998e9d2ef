//! File names within paths, the way `std::path::Path` reads them on Windows
//! (both `/` and `\` separate components; `.` components are skipped; a
//! leading drive prefix such as `C:` is a component of its own, never a file
//! name). Network and verbatim prefixes (`\\server\share`, `\\?\...`)
//! are not told apart from ordinary components.

use vstd::prelude::*;

use crate::text::{chars_eq, chars_of, copy_range};

verus! {

/// A path separator.
pub open spec fn is_separator(c: char) -> bool {
    c == '/' || c == '\\'
}

/// The characters after the last separator.
pub open spec fn tail_segment(s: Seq<char>) -> Seq<char>
    decreases s.len(),
{
    if s.len() == 0 || is_separator(s.last()) {
        seq![]
    } else {
        tail_segment(s.drop_last()).push(s.last())
    }
}

/// The last normal component of a path without prefix: trailing separators
/// and `.` components are passed over; there is none when the path ends in
/// `..` or has no component.
pub open spec fn last_component(s: Seq<char>) -> Option<Seq<char>>
    decreases s.len(),
{
    if s.len() == 0 {
        None
    } else if is_separator(s.last()) {
        last_component(s.drop_last())
    } else if tail_segment(s) == "."@ {
        last_component(s.drop_last())
    } else if tail_segment(s) == ".."@ {
        None
    } else {
        Some(tail_segment(s))
    }
}

/// The path begins with a drive prefix: an ASCII letter and `:`.
pub open spec fn has_drive_prefix(s: Seq<char>) -> bool {
    s.len() >= 2 && s[1] == ':' && (('a' <= s[0] && s[0] <= 'z') || ('A' <= s[0] && s[0] <= 'Z'))
}

/// The last component of a path (`Path::file_name` on Windows): a leading
/// drive prefix is set aside, then the last normal component is taken.
pub open spec fn file_name(s: Seq<char>) -> Option<Seq<char>> {
    if has_drive_prefix(s) {
        last_component(s.subrange(2, s.len() as int))
    } else {
        last_component(s)
    }
}

/// Position of the last `.` in `s`, or -1.
pub open spec fn last_dot(s: Seq<char>) -> int
    decreases s.len(),
{
    if s.len() == 0 {
        -1
    } else if s.last() == '.' {
        s.len() - 1
    } else {
        last_dot(s.drop_last())
    }
}

/// The stem of a file name (`Path::file_stem`): the whole name when it has no
/// `.` other than a leading one, otherwise the part before the last `.`.
pub open spec fn stem_of(name: Seq<char>) -> Seq<char> {
    if last_dot(name) <= 0 {
        name
    } else {
        name.subrange(0, last_dot(name))
    }
}

proof fn lemma_last_dot_bounds(s: Seq<char>)
    ensures
        -1 <= last_dot(s) < s.len(),
        last_dot(s) >= 0 ==> s[last_dot(s)] == '.',
        forall|j: int| last_dot(s) < j < s.len() ==> s[j] != '.',
    decreases s.len(),
{
    if s.len() > 0 && s.last() != '.' {
        lemma_last_dot_bounds(s.drop_last());
        assert forall|j: int| last_dot(s) < j < s.len() implies s[j] != '.' by {
            if j < s.len() - 1 {
                assert(s.drop_last()[j] == s[j]);
            }
        }
    }
}

/// Start of the last segment of `v[0..end]`.
fn segment_start(v: &[char], end: usize) -> (k: usize)
    requires
        end <= v@.len(),
    ensures
        k <= end,
        v@.subrange(k as int, end as int) == tail_segment(v@.subrange(0, end as int)),
{
    let mut k = end;
    while k > 0 && v[k - 1] != '/' && v[k - 1] != '\\'
        invariant
            k <= end <= v@.len(),
            tail_segment(v@.subrange(0, end as int)) == tail_segment(v@.subrange(0, k as int))
                + v@.subrange(k as int, end as int),
        decreases k,
    {
        let ghost pre = v@.subrange(0, k as int);
        assert(pre.drop_last() =~= v@.subrange(0, k - 1));
        assert(tail_segment(pre) == tail_segment(pre.drop_last()).push(v@[k - 1]));
        assert(seq![v@[k - 1]] + v@.subrange(k as int, end as int) =~= v@.subrange(
            k - 1,
            end as int,
        ));
        assert(tail_segment(pre.drop_last()).push(v@[k - 1]) + v@.subrange(k as int, end as int)
            =~= tail_segment(pre.drop_last()) + v@.subrange(k - 1, end as int));
        k = k - 1;
    }
    assert(tail_segment(v@.subrange(0, k as int)) =~= Seq::<char>::empty());
    assert(tail_segment(v@.subrange(0, end as int)) =~= v@.subrange(k as int, end as int));
    k
}

/// The last component of a path, if any.
pub fn path_file_name(path: &[char]) -> (r: Option<Vec<char>>)
    ensures
        match r {
            Some(n) => file_name(path@) == Some(n@),
            None => file_name(path@) is None,
        },
{
    let drive = path.len() >= 2 && path[1] == ':' && (('a' <= path[0] && path[0] <= 'z') || (
    'A' <= path[0] && path[0] <= 'Z'));
    if drive {
        let rest = copy_range(path, 2, path.len());
        last_component_of(rest.as_slice())
    } else {
        last_component_of(path)
    }
}

fn last_component_of(path: &[char]) -> (r: Option<Vec<char>>)
    ensures
        match r {
            Some(n) => last_component(path@) == Some(n@),
            None => last_component(path@) is None,
        },
{
    let dot = chars_of(".");
    let dotdot = chars_of("..");
    let mut end = path.len();
    assert(path@.subrange(0, end as int) =~= path@);
    while end > 0
        invariant
            end <= path@.len(),
            dot@ == "."@,
            dotdot@ == ".."@,
            last_component(path@) == last_component(path@.subrange(0, end as int)),
        decreases end,
    {
        let ghost pre = path@.subrange(0, end as int);
        assert(pre.drop_last() =~= path@.subrange(0, end - 1));
        let c = path[end - 1];
        if c == '/' || c == '\\' {
            end = end - 1;
        } else {
            let k = segment_start(path, end);
            let seg = copy_range(path, k, end);
            if chars_eq(seg.as_slice(), dot.as_slice()) {
                end = end - 1;
            } else if chars_eq(seg.as_slice(), dotdot.as_slice()) {
                return None;
            } else {
                return Some(seg);
            }
        }
    }
    None
}

/// The stem of a file name.
pub fn file_stem_of(name: &[char]) -> (r: Vec<char>)
    ensures
        r@ == stem_of(name@),
{
    let mut k = name.len();
    assert(name@.subrange(0, k as int) =~= name@);
    while k > 0 && name[k - 1] != '.'
        invariant
            k <= name@.len(),
            last_dot(name@) == last_dot(name@.subrange(0, k as int)),
        decreases k,
    {
        assert(name@.subrange(0, k as int).drop_last() =~= name@.subrange(0, k - 1));
        k = k - 1;
    }
    proof {
        lemma_last_dot_bounds(name@);
    }
    if k <= 1 {
        copy_range(name, 0, name.len())
    } else {
        copy_range(name, 0, k - 1)
    }
}

} // verus!
