//! Path and listing rules of the device file service: which directories a
//! recursive creation makes, where a child entry lives, which entries of a
//! listing are shown, and how the size of a file is read from its info.

use vstd::prelude::*;

use crate::text::{
    chars_eq, chars_of, copy_range, pairs_view, push_chars, push_str, string_of, strings_view,
};

verus! {

/// Deepest level a recursive removal descends to.
pub const MAX_REMOVE_DEPTH: usize = 32;

/// The non-empty `/`-separated parts of a path, in order.
pub open spec fn path_parts(s: Seq<char>) -> Seq<Seq<char>>
    decreases s.len(),
{
    if s.len() == 0 {
        seq![]
    } else if s.last() == '/' {
        path_parts(s.drop_last())
    } else if s.len() == 1 || s[s.len() - 2] == '/' {
        path_parts(s.drop_last()).push(seq![s.last()])
    } else {
        let p = path_parts(s.drop_last());
        p.update(p.len() - 1, p.last().push(s.last()))
    }
}

/// Parts joined with `/`.
pub open spec fn join_parts(ps: Seq<Seq<char>>) -> Seq<char>
    decreases ps.len(),
{
    if ps.len() == 0 {
        seq![]
    } else if ps.len() == 1 {
        ps[0]
    } else {
        join_parts(ps.drop_last()) + "/"@ + ps.last()
    }
}

/// The directories a recursive creation of `path` makes, outermost first:
/// the first part, the first two parts joined, and so on.
pub open spec fn directory_chain(path: Seq<char>) -> Seq<Seq<char>> {
    let ps = path_parts(path);
    Seq::new(ps.len(), |i: int| join_parts(ps.take(i + 1)))
}

proof fn lemma_parts_nonempty(s: Seq<char>)
    requires
        s.len() > 0,
        s.last() != '/',
    ensures
        path_parts(s).len() > 0,
    decreases s.len(),
{
    if s.len() > 1 && s[s.len() - 2] != '/' {
        lemma_parts_nonempty(s.drop_last());
    }
}

proof fn lemma_parts_each_nonempty(s: Seq<char>)
    ensures
        forall|i: int| 0 <= i < path_parts(s).len() ==> (#[trigger] path_parts(s)[i]).len() > 0,
    decreases s.len(),
{
    if s.len() > 0 {
        lemma_parts_each_nonempty(s.drop_last());
        if s.last() != '/' && s.len() > 1 && s[s.len() - 2] != '/' {
            lemma_parts_nonempty(s.drop_last());
        }
    }
}

fn parts_of(path: &[char]) -> (r: Vec<Vec<char>>)
    ensures
        r@.len() == path_parts(path@).len(),
        forall|i: int| 0 <= i < r@.len() ==> (#[trigger] r@[i])@ == path_parts(path@)[i],
{
    let mut r: Vec<Vec<char>> = Vec::new();
    let mut i: usize = 0;
    while i < path.len()
        invariant
            i <= path@.len(),
            r@.len() == path_parts(path@.take(i as int)).len(),
            forall|k: int|
                0 <= k < r@.len() ==> (#[trigger] r@[k])@ == path_parts(path@.take(i as int))[k],
        decreases path@.len() - i,
    {
        let c = path[i];
        let ghost s = path@.take(i as int + 1);
        assert(s.drop_last() =~= path@.take(i as int));
        if c == '/' {
        } else if i == 0 || path[i - 1] == '/' {
            let mut part: Vec<char> = Vec::new();
            part.push(c);
            r.push(part);
            assert(part@ =~= seq![c]);
        } else {
            proof {
                lemma_parts_nonempty(path@.take(i as int));
            }
            let last = r.len() - 1;
            let mut part = r.remove(last);
            part.push(c);
            r.push(part);
        }
        i = i + 1;
        assert(path@.take(i as int) == s);
    }
    assert(path@.take(path@.len() as int) =~= path@);
    r
}

/// The directories a recursive creation makes, outermost first.
pub fn directory_prefixes(path: &str) -> (r: Vec<String>)
    ensures
        strings_view(r@) == directory_chain(path@),
{
    let ps = parts_of(chars_of(path).as_slice());
    let ghost parts = path_parts(path@);
    let mut current: Vec<char> = Vec::new();
    let mut r: Vec<String> = Vec::new();
    let mut i: usize = 0;
    while i < ps.len()
        invariant
            i <= ps@.len(),
            parts == path_parts(path@),
            ps@.len() == parts.len(),
            forall|k: int| 0 <= k < ps@.len() ==> (#[trigger] ps@[k])@ == parts[k],
            current@ == join_parts(parts.take(i as int)),
            r@.len() == i,
            forall|k: int| 0 <= k < i ==> (#[trigger] r@[k])@ == join_parts(parts.take(k + 1)),
        decreases ps@.len() - i,
    {
        assert(parts.take(i as int + 1).drop_last() =~= parts.take(i as int));
        if i > 0 {
            push_str(&mut current, "/");
        }
        push_chars(&mut current, ps[i].as_slice());
        proof {
            if i > 0 {
                assert(current@ =~= join_parts(parts.take(i as int)) + "/"@ + parts[i as int]);
            } else {
                assert(current@ =~= parts[0]);
            }
        }
        r.push(string_of(current.as_slice()));
        i = i + 1;
    }
    assert(strings_view(r@) =~= directory_chain(path@));
    r
}

/// The path without its trailing `/` characters (`trim_end_matches('/')`).
pub open spec fn trim_trailing_slashes(s: Seq<char>) -> Seq<char>
    decreases s.len(),
{
    if s.len() > 0 && s.last() == '/' {
        trim_trailing_slashes(s.drop_last())
    } else {
        s
    }
}

/// Where an entry of a directory lives.
pub open spec fn child_path_spec(dir: Seq<char>, child: Seq<char>) -> Seq<char> {
    trim_trailing_slashes(dir) + "/"@ + child
}

/// Where an entry of a directory lives: the directory without trailing
/// slashes, a slash, and the entry.
pub fn child_path(dir: &str, child: &str) -> (r: String)
    ensures
        r@ == child_path_spec(dir@, child@),
{
    let d = chars_of(dir);
    let mut n: usize = d.len();
    assert(d@.take(n as int) =~= d@);
    while n > 0 && d[n - 1] == '/'
        invariant
            n <= d@.len(),
            trim_trailing_slashes(d@) == trim_trailing_slashes(d@.take(n as int)),
        decreases n,
    {
        assert(d@.take(n as int).drop_last() =~= d@.take(n as int - 1));
        n = n - 1;
    }
    let mut out = copy_range(d.as_slice(), 0, n);
    assert(out@ =~= d@.take(n as int));
    push_str(&mut out, "/");
    push_str(&mut out, child);
    string_of(out.as_slice())
}

/// An entry a listing shows: anything but `.` and `..`.
pub open spec fn shown_entry(name: Seq<char>) -> bool {
    name != "."@ && name != ".."@
}

/// The entries of a listing that are shown, in order.
pub open spec fn shown_entries(names: Seq<Seq<char>>) -> Seq<Seq<char>>
    decreases names.len(),
{
    if names.len() == 0 {
        seq![]
    } else if shown_entry(names.last()) {
        shown_entries(names.drop_last()).push(names.last())
    } else {
        shown_entries(names.drop_last())
    }
}

/// The entries of a listing that are shown: `.` and `..` are left out.
pub fn visible_entries(names: &[String]) -> (r: Vec<String>)
    ensures
        strings_view(r@) == shown_entries(strings_view(names@)),
{
    let ghost all = strings_view(names@);
    let mut r: Vec<String> = Vec::new();
    let mut i: usize = 0;
    while i < names.len()
        invariant
            i <= names@.len(),
            all == strings_view(names@),
            strings_view(r@) == shown_entries(all.take(i as int)),
        decreases names@.len() - i,
    {
        assert(all.take(i as int + 1).drop_last() =~= all.take(i as int));
        assert(all.take(i as int + 1).last() == names@[i as int]@);
        let n = chars_of(names[i].as_str());
        let dot = chars_eq(n.as_slice(), chars_of(".").as_slice());
        let dots = chars_eq(n.as_slice(), chars_of("..").as_slice());
        if !dot && !dots {
            let ghost before = strings_view(r@);
            r.push(names[i].clone());
            assert(strings_view(r@) =~= before.push(names@[i as int]@));
        }
        i = i + 1;
    }
    assert(all.take(names@.len() as int) =~= all);
    r
}

/// A decimal digit.
pub open spec fn is_digit(c: char) -> bool {
    '0' <= c && c <= '9'
}

/// The number a string of decimal digits stands for.
pub open spec fn digits_value(d: Seq<char>) -> nat
    decreases d.len(),
{
    if d.len() == 0 {
        0
    } else {
        digits_value(d.drop_last()) * 10 + ((d.last() as int - '0' as int) as nat)
    }
}

/// Every character is a decimal digit.
pub open spec fn all_digits(d: Seq<char>) -> bool {
    forall|i: int| 0 <= i < d.len() ==> is_digit(#[trigger] d[i])
}

/// The digits of a number text: the text after a leading `+`, if any.
pub open spec fn unsigned_digits(s: Seq<char>) -> Seq<char> {
    if s.len() >= 2 && s[0] == '+' {
        s.drop_first()
    } else {
        s
    }
}

/// What `str::parse::<usize>` gives: an optional `+` and at least one
/// decimal digit, whose value fits in `usize`.
pub open spec fn parse_usize(s: Seq<char>) -> Option<nat> {
    let d = unsigned_digits(s);
    if d.len() > 0 && all_digits(d) && digits_value(d) <= usize::MAX {
        Some(digits_value(d))
    } else {
        None
    }
}

proof fn lemma_digits_value_grows(d: Seq<char>, i: int)
    requires
        0 <= i <= d.len(),
        all_digits(d),
    ensures
        digits_value(d.take(i)) <= digits_value(d),
    decreases d.len() - i,
{
    if i < d.len() {
        lemma_digits_value_grows(d, i + 1);
        assert(d.take(i + 1).drop_last() =~= d.take(i));
    } else {
        assert(d.take(i) =~= d);
    }
}

fn parse_usize_exec(s: &[char]) -> (r: Option<usize>)
    ensures
        match r {
            Some(n) => parse_usize(s@) == Some(n as nat),
            None => parse_usize(s@) is None,
        },
{
    let start: usize = if s.len() >= 2 && s[0] == '+' {
        1
    } else {
        0
    };
    let ghost d = unsigned_digits(s@);
    assert(d =~= s@.subrange(start as int, s@.len() as int));
    if start >= s.len() {
        return None;
    }
    let mut value: usize = 0;
    let mut i: usize = start;
    while i < s.len()
        invariant
            start <= i <= s@.len(),
            start == 0 || start == 1,
            start == 1 <==> (s@.len() >= 2 && s@[0] == '+'),
            d == unsigned_digits(s@),
            d =~= s@.subrange(start as int, s@.len() as int),
            forall|k: int| 0 <= k < i - start ==> is_digit(#[trigger] d[k]),
            value as nat == digits_value(d.take(i - start)),
        decreases s@.len() - i,
    {
        let c = s[i];
        if !('0' <= c && c <= '9') {
            assert(!is_digit(d[i - start]));
            assert(!all_digits(d));
            return None;
        }
        let ghost j = i - start;
        assert(d.take(j + 1).drop_last() =~= d.take(j));
        assert(d.take(j + 1).last() == c);
        let digit: usize = ((c as u32) - ('0' as u32)) as usize;
        assert forall|k: int| start <= k <= i implies is_digit(#[trigger] s@[k]) by {
            if k < i {
                assert(d[k - start] == s@[k]);
            }
        }
        assert(d.take(j) =~= s@.subrange(start as int, i as int));
        let m = value.checked_mul(10);
        match m {
            None => {
                proof {
                    lemma_too_large(s@, start as int, i as int, value as nat);
                }
                return None;
            },
            Some(m) => {
                match m.checked_add(digit) {
                    None => {
                        proof {
                            lemma_too_large(s@, start as int, i as int, value as nat);
                        }
                        return None;
                    },
                    Some(v) => {
                        value = v;
                    },
                }
            },
        }
        i = i + 1;
    }
    assert(d.take(d.len() as int) =~= d);
    Some(value)
}

/// Once the digits read so far, with the next one, exceed `usize`, no
/// value comes out: either a later character is not a digit, or the whole
/// number is larger still.
proof fn lemma_too_large(s: Seq<char>, start: int, i: int, value: nat)
    requires
        start <= i < s.len(),
        start == 0 || start == 1,
        start == 1 <==> (s.len() >= 2 && s[0] == '+'),
        forall|k: int| start <= k <= i ==> is_digit(#[trigger] s[k]),
        value == digits_value(s.subrange(start, i)),
        value * 10 + (s[i] as int - '0' as int) > usize::MAX,
    ensures
        parse_usize(s) is None,
{
    let d = s.subrange(start, s.len() as int);
    let j = i - start;
    if s.len() >= 2 && s[0] == '+' {
        assert(d =~= s.drop_first());
    } else {
        assert(d =~= s);
    }
    assert(d.take(j) =~= s.subrange(start, i));
    assert(d.take(j + 1).drop_last() =~= d.take(j));
    assert(d.take(j + 1).last() == s[i]);
    assert(digits_value(d.take(j + 1)) > usize::MAX);
    assert(d == unsigned_digits(s));
    if all_digits(d) {
        lemma_digits_value_grows(d, j + 1);
        assert(digits_value(d) > usize::MAX);
    }
}

/// The size in a file's info: the value of the first `st_size` entry that
/// reads as a number.
pub open spec fn info_size(info: Seq<(Seq<char>, Seq<char>)>) -> Option<nat>
    decreases info.len(),
{
    if info.len() == 0 {
        None
    } else if info[0].0 == "st_size"@ && parse_usize(info[0].1) is Some {
        parse_usize(info[0].1)
    } else {
        info_size(info.drop_first())
    }
}

/// The size of a file from the key/value pairs of its info, as read.
pub fn size_from_info(info: &[(String, String)]) -> (r: Option<usize>)
    ensures
        match r {
            Some(n) => info_size(pairs_view(info@)) == Some(n as nat),
            None => info_size(pairs_view(info@)) is None,
        },
{
    let ghost all = pairs_view(info@);
    let mut i: usize = 0;
    assert(all.skip(0) =~= all);
    while i < info.len()
        invariant
            i <= info@.len(),
            all == pairs_view(info@),
            info_size(all) == info_size(all.skip(i as int)),
        decreases info@.len() - i,
    {
        assert(all.skip(i as int)[0] == all[i as int]);
        assert(all.skip(i as int).drop_first() =~= all.skip(i as int + 1));
        let k = chars_of(info[i].0.as_str());
        if chars_eq(k.as_slice(), chars_of("st_size").as_slice()) {
            let v = chars_of(info[i].1.as_str());
            match parse_usize_exec(v.as_slice()) {
                Some(n) => {
                    return Some(n);
                },
                None => {},
            }
        }
        i = i + 1;
    }
    None
}

} // verus!
