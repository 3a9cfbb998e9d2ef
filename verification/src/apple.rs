//! Where Apple Mobile Device Support is installed, and the report of a
//! successful check. Whether a file exists is asked by the caller; this
//! module decides which files to ask about and what the answers mean.

use vstd::prelude::*;

use crate::text::{chars_eq, chars_of, push_chars, push_str, string_of, strings_view};

verus! {

/// The directories where an installation is looked for, in order.
pub open spec fn support_dirs() -> Seq<Seq<char>> {
    seq![
        "C:\\Program Files\\Common Files\\Apple\\Mobile Device Support"@,
        "C:\\Program Files (x86)\\Common Files\\Apple\\Mobile Device Support"@,
    ]
}

/// The libraries an installation must hold.
pub open spec fn support_libraries() -> Seq<Seq<char>> {
    seq!["CoreFoundation.dll"@, "MobileDevice.dll"@, "AirTrafficHost.dll"@]
}

/// A file of a directory (`Path::join` on Windows, for a directory that does
/// not end in a separator).
pub open spec fn joined(dir: Seq<char>, name: Seq<char>) -> Seq<char> {
    dir + "\\"@ + name
}

/// Every library of the directory is among the existing files.
pub open spec fn complete_dir(dir: Seq<char>, existing: Seq<Seq<char>>) -> bool {
    forall|j: int| 0 <= j < support_libraries().len() ==> existing.contains(
        #[trigger] joined(dir, support_libraries()[j]),
    )
}

/// The first of the candidate directories from `k` on that is complete.
pub open spec fn first_complete_from(k: nat, existing: Seq<Seq<char>>) -> Option<Seq<char>>
    decreases support_dirs().len() - k,
{
    if k >= support_dirs().len() {
        None
    } else if complete_dir(support_dirs()[k as int], existing) {
        Some(support_dirs()[k as int])
    } else {
        first_complete_from(k + 1, existing)
    }
}

/// The directory of the installation: the first candidate that holds all
/// three libraries.
pub open spec fn located_dir(existing: Seq<Seq<char>>) -> Option<Seq<char>> {
    first_complete_from(0, existing)
}

fn support_dir_list() -> (v: Vec<Vec<char>>)
    ensures
        v@.len() == support_dirs().len(),
        forall|i: int| 0 <= i < v@.len() ==> (#[trigger] v@[i])@ == support_dirs()[i],
{
    let mut v: Vec<Vec<char>> = Vec::new();
    v.push(chars_of("C:\\Program Files\\Common Files\\Apple\\Mobile Device Support"));
    v.push(chars_of("C:\\Program Files (x86)\\Common Files\\Apple\\Mobile Device Support"));
    v
}

fn support_library_list() -> (v: Vec<Vec<char>>)
    ensures
        v@.len() == support_libraries().len(),
        forall|i: int| 0 <= i < v@.len() ==> (#[trigger] v@[i])@ == support_libraries()[i],
{
    let mut v: Vec<Vec<char>> = Vec::new();
    v.push(chars_of("CoreFoundation.dll"));
    v.push(chars_of("MobileDevice.dll"));
    v.push(chars_of("AirTrafficHost.dll"));
    v
}

fn joined_exec(dir: &[char], name: &[char]) -> (r: Vec<char>)
    ensures
        r@ == joined(dir@, name@),
{
    let mut r: Vec<char> = Vec::new();
    push_chars(&mut r, dir);
    push_str(&mut r, "\\");
    push_chars(&mut r, name);
    r
}

/// The files whose existence decides where the installation is: for each
/// candidate directory in turn, its three libraries.
pub open spec fn support_files() -> Seq<Seq<char>> {
    Seq::new(
        6,
        |i: int| joined(support_dirs()[i / 3], support_libraries()[i % 3]),
    )
}

/// The files to look for, in the order of `support_files`.
pub fn support_file_paths() -> (v: Vec<String>)
    ensures
        strings_view(v@) == support_files(),
{
    let dirs = support_dir_list();
    let libs = support_library_list();
    let mut v: Vec<String> = Vec::new();
    let mut i: usize = 0;
    while i < 2
        invariant
            i <= 2,
            dirs@.len() == 2,
            libs@.len() == 3,
            forall|k: int| 0 <= k < 2 ==> (#[trigger] dirs@[k])@ == support_dirs()[k],
            forall|k: int| 0 <= k < 3 ==> (#[trigger] libs@[k])@ == support_libraries()[k],
            v@.len() == 3 * i,
            forall|k: int| 0 <= k < v@.len() ==> (#[trigger] v@[k])@ == support_files()[k],
        decreases 2 - i,
    {
        let mut j: usize = 0;
        while j < 3
            invariant
                i < 2,
                j <= 3,
                dirs@.len() == 2,
                libs@.len() == 3,
                forall|k: int| 0 <= k < 2 ==> (#[trigger] dirs@[k])@ == support_dirs()[k],
                forall|k: int| 0 <= k < 3 ==> (#[trigger] libs@[k])@ == support_libraries()[k],
                v@.len() == 3 * i + j,
                forall|k: int| 0 <= k < v@.len() ==> (#[trigger] v@[k])@ == support_files()[k],
            decreases 3 - j,
        {
            let p = joined_exec(dirs[i].as_slice(), libs[j].as_slice());
            let ghost k = v@.len() as int;
            assert(k / 3 == i as int && k % 3 == j as int) by (nonlinear_arith)
                requires
                    k == 3 * i + j,
                    0 <= j < 3,
            ;
            v.push(string_of(p.as_slice()));
            j = j + 1;
        }
        i = i + 1;
    }
    assert(strings_view(v@) =~= support_files());
    v
}

fn contains_path(existing: &[String], p: &[char]) -> (b: bool)
    ensures
        b == strings_view(existing@).contains(p@),
{
    let mut i: usize = 0;
    while i < existing.len()
        invariant
            i <= existing@.len(),
            forall|k: int| 0 <= k < i ==> (#[trigger] existing@[k])@ != p@,
        decreases existing@.len() - i,
    {
        let e = chars_of(existing[i].as_str());
        if chars_eq(e.as_slice(), p) {
            assert(strings_view(existing@)[i as int] == p@);
            return true;
        }
        i = i + 1;
    }
    assert forall|k: int| 0 <= k < strings_view(existing@).len() implies strings_view(
        existing@,
    )[k] != p@ by {
        assert(strings_view(existing@)[k] == existing@[k]@);
    }
    false
}

/// Finds the installation among the candidate directories, given the
/// files that exist (the answers for `support_file_paths`, or any list of
/// existing files): the first directory holding all three libraries.
pub fn locate_support_dir(existing: &[String]) -> (r: Option<String>)
    ensures
        crate::text::opt_chars(r) == located_dir(strings_view(existing@)),
{
    let dirs = support_dir_list();
    let libs = support_library_list();
    let ghost ex = strings_view(existing@);
    let mut i: usize = 0;
    while i < 2
        invariant
            i <= 2,
            dirs@.len() == 2,
            libs@.len() == 3,
            ex == strings_view(existing@),
            forall|k: int| 0 <= k < 2 ==> (#[trigger] dirs@[k])@ == support_dirs()[k],
            forall|k: int| 0 <= k < 3 ==> (#[trigger] libs@[k])@ == support_libraries()[k],
            located_dir(ex) == first_complete_from(i as nat, ex),
        decreases 2 - i,
    {
        let mut complete = true;
        let mut j: usize = 0;
        while j < 3
            invariant
                i < 2,
                j <= 3,
                dirs@.len() == 2,
                libs@.len() == 3,
                ex == strings_view(existing@),
                forall|k: int| 0 <= k < 2 ==> (#[trigger] dirs@[k])@ == support_dirs()[k],
                forall|k: int| 0 <= k < 3 ==> (#[trigger] libs@[k])@ == support_libraries()[k],
                complete <==> forall|k: int| 0 <= k < j ==> ex.contains(
                    #[trigger] joined(support_dirs()[i as int], support_libraries()[k]),
                ),
            decreases 3 - j,
        {
            let p = joined_exec(dirs[i].as_slice(), libs[j].as_slice());
            if !contains_path(existing, p.as_slice()) {
                complete = false;
            }
            j = j + 1;
        }
        if complete {
            return Some(string_of(dirs[i].as_slice()));
        }
        i = i + 1;
    }
    None
}

/// The report of a successful check: the directory, empty when it could
/// not be told.
pub open spec fn support_report(dir: Option<Seq<char>>) -> Seq<char> {
    "Apple Mobile Device Support ready: "@ + match dir {
        Some(d) => d,
        None => Seq::empty(),
    }
}

/// The outcome of the support check: the error of loading the libraries,
/// if any, passed on; otherwise the report naming the directory.
pub fn verify_support(loaded: Result<(), String>, dir: Option<&str>) -> (r: Result<String, String>)
    ensures
        match loaded {
            Err(e) => r matches Err(m) && m@ == e@,
            Ok(_) => r matches Ok(t) && t@ == support_report(
                match dir {
                    Some(d) => Some(d@),
                    None => None,
                },
            ),
        },
{
    match loaded {
        Err(e) => Err(e),
        Ok(_) => {
            let mut v: Vec<char> = Vec::new();
            push_str(&mut v, "Apple Mobile Device Support ready: ");
            match dir {
                Some(d) => push_str(&mut v, d),
                None => {},
            }
            Ok(string_of(v.as_slice()))
        },
    }
}

} // verus!
