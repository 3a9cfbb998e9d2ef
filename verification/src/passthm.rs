//! Reading `.passthm` passcode-keypad theme archives: which images of the
//! archive become keypad buttons, and under which file names they are
//! written to the device so that every keypad language finds them.

use vstd::prelude::*;

use std::io::Read;

use crate::paths::{file_name, file_stem_of, is_separator, path_file_name, stem_of};
use crate::pattern::{capture_group, regex_capture, regex_replace_first, replace_first};
use crate::text::{
    chars_eq, chars_of, contains_str, copy_bytes, ends_with_str, lowercase_chars, opt_chars,
    push_chars, push_str, seq_contains, seq_ends_with, seq_starts_with, starts_with_str,
    string_of, strings_view, trim_chars, trim_class, lowercase, CharClass,
};

verus! {

// ---------------------------------------------------------------------------
// The zip archive (the `zip` crate)
// ---------------------------------------------------------------------------

#[verifier::external_type_specification]
#[verifier::external_body]
pub struct ExZipError(zip::result::ZipError);

/// Number of entries of the archive (`ZipArchive::new`, then `len`);
/// `None` when the bytes are not read as a zip archive.
pub uninterp spec fn zip_entry_count(archive: Seq<u8>) -> Option<nat>;

/// Name of entry `index` (`ZipArchive::by_index`, then `name`); `None` when
/// the archive or the entry cannot be read.
pub uninterp spec fn zip_entry_name(archive: Seq<u8>, index: nat) -> Option<Seq<char>>;

/// Contents of the entry called `name` (`ZipArchive::by_name`, then
/// `read_to_end`); `None` when it cannot be found or read.
pub uninterp spec fn zip_entry_data(archive: Seq<u8>, name: Seq<char>) -> Option<Seq<u8>>;

/// Calls `zip::ZipArchive::new` on the bytes and `ZipArchive::len`. Trusted:
/// the count is taken to be `zip_entry_count(archive)`.
#[verifier::external_body]
fn zip_count(archive: &[u8]) -> (r: Result<usize, zip::result::ZipError>)
    ensures
        match r {
            Ok(n) => zip_entry_count(archive@) == Some(n as nat),
            Err(_) => zip_entry_count(archive@) is None,
        },
{
    let z = zip::ZipArchive::new(std::io::Cursor::new(archive))?;
    Ok(z.len())
}

/// Calls `zip::ZipArchive::new`, `ZipArchive::by_index` and `ZipFile::name`.
/// Trusted: the name is taken to be `zip_entry_name(archive, index)`.
#[verifier::external_body]
fn zip_name(archive: &[u8], index: usize) -> (r: Result<String, zip::result::ZipError>)
    ensures
        match r {
            Ok(n) => zip_entry_name(archive@, index as nat) == Some(n@),
            Err(_) => zip_entry_name(archive@, index as nat) is None,
        },
{
    let mut z = zip::ZipArchive::new(std::io::Cursor::new(archive))?;
    let entry = z.by_index(index)?;
    Ok(entry.name().to_string())
}

/// Calls `zip::ZipArchive::new`, `ZipArchive::by_name` and
/// `Read::read_to_end` on the entry. Trusted: the bytes are taken to be
/// `zip_entry_data(archive, name)`.
#[verifier::external_body]
fn zip_read(archive: &[u8], name: &str) -> (r: Result<Vec<u8>, zip::result::ZipError>)
    ensures
        match r {
            Ok(d) => zip_entry_data(archive@, name@) == Some(d@),
            Err(_) => zip_entry_data(archive@, name@) is None,
        },
{
    let mut z = zip::ZipArchive::new(std::io::Cursor::new(archive))?;
    let mut entry = z.by_name(name)?;
    let mut data = Vec::new();
    entry.read_to_end(&mut data).map_err(zip::result::ZipError::Io)?;
    Ok(data)
}

/// The message of a zip error (its `Display`).
#[verifier::external_body]
fn zip_error_text(e: &zip::result::ZipError) -> String {
    e.to_string()
}

/// An archive being built in memory (a `zip::ZipWriter` over a growing
/// buffer); what it holds is known only through `written_entries`.
#[verifier::external_body]
pub struct ArchiveWriter {
    inner: zip::ZipWriter<std::io::Cursor<Vec<u8>>>,
}

/// The entries written so far into an archive being built in memory:
/// name, contents and Unix mode of each, in order.
pub uninterp spec fn written_entries(w: ArchiveWriter) -> Seq<
    (Seq<char>, Seq<u8>, u32),
>;

/// The bytes of the finished archive with these entries, each deflated;
/// `None` when finishing fails.
pub uninterp spec fn finished_archive(entries: Seq<(Seq<char>, Seq<u8>, u32)>) -> Option<Seq<u8>>;

/// Whether the writer takes an entry with this name, contents and mode
/// after the entries already written (`ZipWriter::start_file` and
/// `Write::write_all` both succeed).
pub uninterp spec fn entry_accepted(
    written: Seq<(Seq<char>, Seq<u8>, u32)>,
    name: Seq<char>,
    data: Seq<u8>,
    mode: u32,
) -> bool;

/// Calls `zip::ZipWriter::new` on an empty in-memory buffer. Trusted: the
/// new writer holds no entry.
#[verifier::external_body]
fn new_archive_writer() -> (w: ArchiveWriter)
    ensures
        written_entries(w) == Seq::<(Seq<char>, Seq<u8>, u32)>::empty(),
{
    ArchiveWriter { inner: zip::ZipWriter::new(std::io::Cursor::new(Vec::new())) }
}

/// Calls `ZipWriter::start_file` with deflate compression and Unix mode
/// `mode`, then `Write::write_all` with the contents. Trusted: both succeed
/// exactly when `entry_accepted` holds of the entries written before and of
/// the arguments, and then the entry follows those written before; a name that was already
/// written is refused (the writer keeps names unique). What the writer holds
/// after a refusal is left unsaid. Names longer than 65535 bytes are left
/// out: the writer panics on them.
#[verifier::external_body]
fn add_archive_entry(
    w: &mut ArchiveWriter,
    name: &str,
    data: &[u8],
    mode: u32,
) -> (r: Result<(), zip::result::ZipError>)
    requires
        crate::text::utf8_len(name@) <= 65535,
    ensures
        r is Ok <==> entry_accepted(written_entries(*old(w)), name@, data@, mode),
        r is Ok ==> written_entries(*final(w)) == written_entries(*old(w)).push((name@, data@, mode)),
        (exists|i: int|
            0 <= i < written_entries(*old(w)).len() && #[trigger] written_entries(*old(w))[i].0
                == name@) ==> r is Err,
{
    let options = zip::write::SimpleFileOptions::default()
        .compression_method(zip::CompressionMethod::Deflated)
        .unix_permissions(mode);
    w.inner.start_file(name, options)?;
    std::io::Write::write_all(&mut w.inner, data)?;
    Ok(())
}

/// Calls `ZipWriter::finish` and takes the buffer out of the cursor.
/// Trusted: the bytes are taken to be `finished_archive` of the entries
/// written.
#[verifier::external_body]
fn finish_archive(w: ArchiveWriter) -> (r: Result<Vec<u8>, zip::result::ZipError>)
    ensures
        match r {
            Ok(b) => finished_archive(written_entries(w)) == Some(b@),
            Err(_) => finished_archive(written_entries(w)) is None,
        },
{
    let cursor = w.inner.finish()?;
    Ok(cursor.into_inner())
}

/// The Unix mode of the files of an exported theme (`rw-r--r--`).
pub const THEME_FILE_MODE: u32 = 0o644;

/// The entries of an exported theme: each image under its file name.
pub open spec fn export_entries(images: Seq<(Seq<char>, Seq<u8>)>) -> Seq<(Seq<char>, Seq<u8>, u32)> {
    images.map_values(|p: (Seq<char>, Seq<u8>)| (p.0, p.1, THEME_FILE_MODE))
}

/// Two images share a file name.
pub open spec fn has_duplicate_name(images: Seq<(Seq<char>, Seq<u8>)>) -> bool {
    exists|i: int, j: int| 0 <= i < j < images.len() && images[i].0 == images[j].0
}

/// The writer takes every image in turn, each after those before it.
pub open spec fn export_accepted(images: Seq<(Seq<char>, Seq<u8>)>) -> bool {
    forall|i: int|
        0 <= i < images.len() ==> #[trigger] entry_accepted(
            export_entries(images.take(i)),
            images[i].0,
            images[i].1,
            THEME_FILE_MODE,
        )
}

/// Writes images into a `.passthm` archive, in order, each deflated with
/// mode `rw-r--r--`. Two images with the same file name are refused; the
/// archive otherwise holds exactly the images given. It is made exactly
/// when the writer takes every image and then finishes.
pub fn export_passthm_archive(images: &[(String, Vec<u8>)]) -> (r: Result<Vec<u8>, zip::result::ZipError>)
    requires
        forall|i: int| 0 <= i < images@.len() ==> crate::text::utf8_len((#[trigger] images@[i]).0@) <= 65535,
    ensures
        has_duplicate_name(images_view(images@)) ==> r is Err,
        r is Ok <==> (export_accepted(images_view(images@)) && finished_archive(
            export_entries(images_view(images@)),
        ) is Some),
        r matches Ok(b) ==> finished_archive(export_entries(images_view(images@))) == Some(b@),
{
    let ghost iv = images_view(images@);
    let mut w = new_archive_writer();
    let mut i: usize = 0;
    while i < images.len()
        invariant
            i <= images@.len(),
            iv == images_view(images@),
            forall|k: int| 0 <= k < images@.len() ==> crate::text::utf8_len((#[trigger] images@[k]).0@) <= 65535,
            written_entries(w) == export_entries(iv.take(i as int)),
            forall|a: int, b: int| 0 <= a < b < i ==> iv[a].0 != iv[b].0,
            forall|k: int|
                0 <= k < i ==> #[trigger] entry_accepted(
                    export_entries(iv.take(k)),
                    iv[k].0,
                    iv[k].1,
                    THEME_FILE_MODE,
                ),
        decreases images@.len() - i,
    {
        let ghost before = written_entries(w);
        proof {
            if exists|a: int| 0 <= a < i && iv[a].0 == iv[i as int].0 {
                let a = choose|a: int| 0 <= a < i && iv[a].0 == iv[i as int].0;
                assert(before[a].0 == images@[i as int].0@);
            }
        }
        match add_archive_entry(&mut w, images[i].0.as_str(), images[i].1.as_slice(), THEME_FILE_MODE) {
            Ok(()) => {},
            Err(e) => {
                assert(!entry_accepted(
                    export_entries(iv.take(i as int)),
                    iv[i as int].0,
                    iv[i as int].1,
                    THEME_FILE_MODE,
                ));
                return Err(e);
            },
        }
        assert(export_entries(iv.take(i as int + 1)) =~= export_entries(iv.take(i as int)).push(
            (iv[i as int].0, iv[i as int].1, THEME_FILE_MODE),
        ));
        i = i + 1;
    }
    assert(iv.take(images@.len() as int) =~= iv);
    finish_archive(w)
}

/// A list of named images as sequences.
pub open spec fn images_view(v: Seq<(String, Vec<u8>)>) -> Seq<(Seq<char>, Seq<u8>)> {
    v.map_values(|p: (String, Vec<u8>)| (p.0@, p.1@))
}

// ---------------------------------------------------------------------------
// Themes and errors
// ---------------------------------------------------------------------------

/// A parsed keypad theme: its name, the TelephonyUI cache version its file
/// names point to, the files to write (target directory, file name, bytes),
/// and one preview image per key.
pub struct PasscodeTheme {
    pub name: String,
    pub detected_version: String,
    pub items: Vec<(String, String, Vec<u8>)>,
    pub key_previews: Vec<(String, Vec<u8>)>,
}

/// Why a theme archive was refused.
#[derive(Debug)]
pub enum PassthmError {
    /// The bytes are not a zip archive.
    NotAnArchive(zip::result::ZipError),
    /// An entry of the archive could not be read.
    UnreadableEntry(zip::result::ZipError),
    /// No image of the archive is a keypad button.
    NoKeypadImages,
}

impl PassthmError {
    /// The message shown to the user: for an archive that cannot be read,
    /// a fixed sentence followed by the zip error's own message; for an
    /// unreadable entry, the zip error's message.
    pub fn message(&self) -> (m: String)
        ensures
            self is NotAnArchive ==> seq_starts_with(m@, "无法将主题文件作为 zip 归档读取: "@),
            self is NoKeypadImages ==> m@ == "主题归档中未找到有效的键盘图像素材"@,
    {
        match self {
            PassthmError::NotAnArchive(e) => {
                let mut v: Vec<char> = Vec::new();
                push_str(&mut v, "无法将主题文件作为 zip 归档读取: ");
                let ghost head = v@;
                push_str(&mut v, zip_error_text(e).as_str());
                assert(v@.subrange(0, head.len() as int) =~= head);
                string_of(v.as_slice())
            },
            PassthmError::UnreadableEntry(e) => zip_error_text(e),
            PassthmError::NoKeypadImages => "主题归档中未找到有效的键盘图像素材".to_owned(),
        }
    }
}

impl PasscodeTheme {
    /// Does the theme have a preview image for this key?
    pub fn has_key_preview(&self, digit: &str) -> (b: bool)
        ensures
            b == exists|i: int|
                0 <= i < self.key_previews@.len() && #[trigger] self.key_previews@[i].0@ == digit@,
    {
        let d = digit.to_owned();
        let mut i: usize = 0;
        while i < self.key_previews.len()
            invariant
                i <= self.key_previews@.len(),
                d@ == digit@,
                forall|j: int| 0 <= j < i ==> #[trigger] self.key_previews@[j].0@ != digit@,
            decreases self.key_previews@.len() - i,
        {
            if self.key_previews[i].0 == d {
                return true;
            }
            i = i + 1;
        }
        false
    }
}

// ---------------------------------------------------------------------------
// Which entries are keypad images
// ---------------------------------------------------------------------------

/// Entries passed over: directories, macOS metadata, hidden files.
pub open spec fn is_skipped_entry(name: Seq<char>) -> bool {
    ||| (name.len() > 0 && is_separator(name.last()))
    ||| seq_starts_with(name, "__MACOSX"@)
    ||| match file_name(name) {
        Some(f) => seq_starts_with(f, "."@),
        None => false,
    }
}

/// A (lower-cased) name of a PNG or JPEG file.
pub open spec fn has_image_extension(s: Seq<char>) -> bool {
    seq_ends_with(s, ".png"@) || seq_ends_with(s, ".jpg"@) || seq_ends_with(s, ".jpeg"@)
}

/// The TelephonyUI version that a (lower-cased) entry name points to, given
/// the one found so far.
pub open spec fn version_after(v: Seq<char>, low: Seq<char>) -> Seq<char> {
    if seq_contains(low, "telephonyui-8"@) || seq_contains(low, "telephony-8"@) {
        "TelephonyUI-8"@
    } else if seq_contains(low, "telephonyui-9"@) || seq_contains(low, "telephony-9"@) {
        "TelephonyUI-9"@
    } else {
        v
    }
}

/// The version named by the entries, and the image entries, in order.
pub open spec fn scan_entries(names: Seq<Seq<char>>) -> (Seq<char>, Seq<Seq<char>>)
    decreases names.len(),
{
    if names.len() == 0 {
        ("TelephonyUI-10"@, seq![])
    } else {
        let prev = scan_entries(names.drop_last());
        let n = names.last();
        if is_skipped_entry(n) {
            prev
        } else {
            let low = lowercase(n);
            (
                version_after(prev.0, low),
                if has_image_extension(low) {
                    prev.1.push(n)
                } else {
                    prev.1
                },
            )
        }
    }
}

/// The file name under which an image entry is considered, when it is one
/// that can be a keypad button (not hidden, not starting with `_`, ending
/// in `.png`, `.jpg` or `.jpeg`).
pub open spec fn keypad_leaf_spec(entry: Seq<char>) -> Option<Seq<char>> {
    let leaf = match file_name(entry) {
        Some(f) => f,
        None => entry,
    };
    if seq_starts_with(leaf, "."@) || seq_starts_with(leaf, "_"@) || !has_image_extension(leaf) {
        None
    } else {
        Some(leaf)
    }
}

fn is_skipped_entry_exec(name: &[char]) -> (b: bool)
    ensures
        b == is_skipped_entry(name@),
{
    if name.len() > 0 && (name[name.len() - 1] == '/' || name[name.len() - 1] == '\\') {
        return true;
    }
    if starts_with_str(name, "__MACOSX") {
        return true;
    }
    match path_file_name(name) {
        Some(f) => starts_with_str(f.as_slice(), "."),
        None => false,
    }
}

fn has_image_extension_exec(s: &[char]) -> (b: bool)
    ensures
        b == has_image_extension(s@),
{
    ends_with_str(s, ".png") || ends_with_str(s, ".jpg") || ends_with_str(s, ".jpeg")
}

/// Finds the TelephonyUI version named by the archive entries and the
/// entries that are images.
pub fn scan_entry_names(names: &[String]) -> (r: (String, Vec<String>))
    ensures
        (r.0@, strings_view(r.1@)) == scan_entries(strings_view(names@)),
{
    let mut version = "TelephonyUI-10".to_owned();
    let mut images: Vec<String> = Vec::new();
    let mut i: usize = 0;
    while i < names.len()
        invariant
            i <= names@.len(),
            (version@, strings_view(images@)) == scan_entries(strings_view(names@.take(i as int))),
        decreases names@.len() - i,
    {
        let ghost pre = strings_view(names@.take(i as int));
        assert(strings_view(names@.take(i + 1)).drop_last() =~= pre);
        assert(strings_view(names@.take(i + 1)).last() == names@[i as int]@);
        let n = chars_of(names[i].as_str());
        if !is_skipped_entry_exec(n.as_slice()) {
            let low = lowercase_chars(n.as_slice());
            if contains_str(low.as_slice(), "telephonyui-8") || contains_str(
                low.as_slice(),
                "telephony-8",
            ) {
                version = "TelephonyUI-8".to_owned();
            } else if contains_str(low.as_slice(), "telephonyui-9") || contains_str(
                low.as_slice(),
                "telephony-9",
            ) {
                version = "TelephonyUI-9".to_owned();
            }
            if has_image_extension_exec(low.as_slice()) {
                let ghost before = strings_view(images@);
                images.push(names[i].clone());
                assert(strings_view(images@) =~= before.push(names@[i as int]@));
            }
        }
        i = i + 1;
    }
    assert(names@.take(names@.len() as int) =~= names@);
    (version, images)
}

/// The file name of an image entry, when it can be a keypad button.
pub fn keypad_leaf(entry: &str) -> (r: Option<String>)
    ensures
        opt_chars(r) == keypad_leaf_spec(entry@),
{
    let ev = chars_of(entry);
    let leaf = match path_file_name(ev.as_slice()) {
        Some(f) => f,
        None => ev,
    };
    if starts_with_str(leaf.as_slice(), ".") || starts_with_str(leaf.as_slice(), "_")
        || !has_image_extension_exec(leaf.as_slice()) {
        None
    } else {
        Some(string_of(leaf.as_slice()))
    }
}

// ---------------------------------------------------------------------------
// File names for the keypad images
// ---------------------------------------------------------------------------

/// The letters printed under a key on the English keypad.
#[verifier::opaque]
pub open spec fn subtext_en(d: Seq<char>) -> Seq<char> {
    if d.len() != 1 {
        ""@
    } else if d[0] == '0' {
        "+"@
    } else if d[0] == '2' {
        "A B C"@
    } else if d[0] == '3' {
        "D E F"@
    } else if d[0] == '4' {
        "G H I"@
    } else if d[0] == '5' {
        "J K L"@
    } else if d[0] == '6' {
        "M N O"@
    } else if d[0] == '7' {
        "P Q R S"@
    } else if d[0] == '8' {
        "T U V"@
    } else if d[0] == '9' {
        "W X Y Z"@
    } else {
        ""@
    }
}

/// The letters printed under a key on the Russian keypad.
#[verifier::opaque]
pub open spec fn subtext_ru(d: Seq<char>) -> Seq<char> {
    if d.len() != 1 {
        ""@
    } else if d[0] == '0' {
        "+"@
    } else if d[0] == '2' {
        "А Б В Г"@
    } else if d[0] == '3' {
        "Д Е Ж З"@
    } else if d[0] == '4' {
        "И Й К Л"@
    } else if d[0] == '5' {
        "М Н О П"@
    } else if d[0] == '6' {
        "Р С Т У"@
    } else if d[0] == '7' {
        "Ф Х Ц Ч"@
    } else if d[0] == '8' {
        "Ш Щ Ъ Ы"@
    } else if d[0] == '9' {
        "Ь Э Ю Я"@
    } else {
        ""@
    }
}

/// The letters printed under a key on the Ukrainian keypad.
#[verifier::opaque]
pub open spec fn subtext_uk(d: Seq<char>) -> Seq<char> {
    if d.len() != 1 {
        ""@
    } else if d[0] == '0' {
        "+"@
    } else if d[0] == '2' {
        "А Б В Г Ґ"@
    } else if d[0] == '3' {
        "Д Е Є Ж З"@
    } else if d[0] == '4' {
        "И І Ї Й"@
    } else if d[0] == '5' {
        "К Л М Н"@
    } else if d[0] == '6' {
        "О П Р С"@
    } else if d[0] == '7' {
        "Т У Ф Х"@
    } else if d[0] == '8' {
        "Ц Ч Ш Щ"@
    } else if d[0] == '9' {
        "Ь Ю Я"@
    } else {
        ""@
    }
}

/// The keypad tables.
pub enum KeypadTable {
    English,
    Russian,
    Ukrainian,
}

/// The letters under key `d` on the keypad of table `t`.
pub open spec fn subtext_in(t: KeypadTable, d: Seq<char>) -> Seq<char> {
    match t {
        KeypadTable::English => subtext_en(d),
        KeypadTable::Russian => subtext_ru(d),
        KeypadTable::Ukrainian => subtext_uk(d),
    }
}

/// The letters under key `d` in table `t` (empty for keys without letters).
pub fn keypad_subtext(t: KeypadTable, d: &[char]) -> (s: &'static str)
    ensures
        s@ == subtext_in(t, d@),
{
    reveal(subtext_en);
    reveal(subtext_ru);
    reveal(subtext_uk);
    if d.len() != 1 {
        return "";
    }
    let c = d[0];
    match t {
        KeypadTable::English => {
            if c == '0' {
                "+"
            } else if c == '2' {
                "A B C"
            } else if c == '3' {
                "D E F"
            } else if c == '4' {
                "G H I"
            } else if c == '5' {
                "J K L"
            } else if c == '6' {
                "M N O"
            } else if c == '7' {
                "P Q R S"
            } else if c == '8' {
                "T U V"
            } else if c == '9' {
                "W X Y Z"
            } else {
                ""
            }
        },
        KeypadTable::Russian => {
            if c == '0' {
                "+"
            } else if c == '2' {
                "А Б В Г"
            } else if c == '3' {
                "Д Е Ж З"
            } else if c == '4' {
                "И Й К Л"
            } else if c == '5' {
                "М Н О П"
            } else if c == '6' {
                "Р С Т У"
            } else if c == '7' {
                "Ф Х Ц Ч"
            } else if c == '8' {
                "Ш Щ Ъ Ы"
            } else if c == '9' {
                "Ь Э Ю Я"
            } else {
                ""
            }
        },
        KeypadTable::Ukrainian => {
            if c == '0' {
                "+"
            } else if c == '2' {
                "А Б В Г Ґ"
            } else if c == '3' {
                "Д Е Є Ж З"
            } else if c == '4' {
                "И І Ї Й"
            } else if c == '5' {
                "К Л М Н"
            } else if c == '6' {
                "О П Р С"
            } else if c == '7' {
                "Т У Ф Х"
            } else if c == '8' {
                "Ц Ч Ш Щ"
            } else if c == '9' {
                "Ь Ю Я"
            } else {
                ""
            }
        },
    }
}

/// `s` without its spaces.
pub open spec fn remove_spaces(s: Seq<char>) -> Seq<char>
    decreases s.len(),
{
    if s.len() == 0 {
        seq![]
    } else if s.last() == ' ' {
        remove_spaces(s.drop_last())
    } else {
        remove_spaces(s.drop_last()).push(s.last())
    }
}

/// The file names for key `d` with language prefix `p` and letters `sub`:
/// `p-d---white.png` without letters; `p-d-sub--white.png` with letters,
/// and also the same without spaces when `sub` has spaces. `bs` is the
/// suffix of bold themes.
pub open spec fn variant_names(p: Seq<char>, d: Seq<char>, sub: Seq<char>, bs: Seq<char>) -> Seq<
    Seq<char>,
> {
    if sub.len() == 0 {
        seq![p + "-"@ + d + "---white"@ + bs + ".png"@]
    } else {
        let first = p + "-"@ + d + "-"@ + sub + "--white"@ + bs + ".png"@;
        let ns = remove_spaces(sub);
        if ns != sub {
            seq![first, p + "-"@ + d + "-"@ + ns + "--white"@ + bs + ".png"@]
        } else {
            seq![first]
        }
    }
}

/// The variants for letters `sub`, none when there are no letters.
pub open spec fn optional_variants(p: Seq<char>, d: Seq<char>, sub: Seq<char>, bs: Seq<char>) -> Seq<
    Seq<char>,
> {
    if sub.len() > 0 {
        variant_names(p, d, sub, bs)
    } else {
        seq![]
    }
}

/// Which keypads a theme is prepared for.
#[derive(Clone, Copy)]
pub enum KeypadLanguage {
    Russian,
    Ukrainian,
    Japanese,
    English,
    All,
    Unlisted,
}

/// The keypad languages selected by the language setting.
pub open spec fn language_mode(lang: Seq<char>) -> KeypadLanguage {
    let ru = seq_contains(lang, "Russian"@) || seq_contains(lang, "ru"@);
    let uk = seq_contains(lang, "Ukrainian"@) || seq_contains(lang, "uk"@);
    let ja = seq_contains(lang, "Japanese"@) || seq_contains(lang, "ja"@);
    let en = seq_contains(lang, "English"@) || seq_contains(lang, "en"@);
    let all = seq_contains(lang, "All"@) || seq_contains(lang, "Universal"@);
    if ru {
        KeypadLanguage::Russian
    } else if uk {
        KeypadLanguage::Ukrainian
    } else if ja {
        KeypadLanguage::Japanese
    } else if en && !all {
        KeypadLanguage::English
    } else if all {
        KeypadLanguage::All
    } else {
        KeypadLanguage::Unlisted
    }
}

/// The language prefixes that get the file names of a key.
pub open spec fn mode_prefixes(m: KeypadLanguage) -> Seq<Seq<char>> {
    match m {
        KeypadLanguage::Russian => seq!["ru"@, "other"@, "en"@],
        KeypadLanguage::Ukrainian => seq!["uk"@, "other"@, "en"@],
        KeypadLanguage::Japanese => seq!["ja"@, "other"@, "en"@],
        KeypadLanguage::English => seq!["en"@, "other"@],
        KeypadLanguage::All => seq![
            "en"@,
            "other"@,
            "ru"@,
            "uk"@,
            "ja"@,
            "es"@,
            "fr"@,
            "de"@,
            "it"@,
            "pt"@,
            "tr"@,
            "pl"@,
            "ko"@,
            "zh"@,
        ],
        KeypadLanguage::Unlisted => seq![],
    }
}

/// The file names of key `d` under prefix `p`.
pub open spec fn prefix_variants(m: KeypadLanguage, p: Seq<char>, d: Seq<char>, bs: Seq<char>) -> Seq<
    Seq<char>,
> {
    variant_names(p, d, ""@, bs) + match m {
        KeypadLanguage::Russian => optional_variants(p, d, subtext_ru(d), bs) + optional_variants(
            p,
            d,
            subtext_en(d),
            bs,
        ),
        KeypadLanguage::Ukrainian => optional_variants(p, d, subtext_uk(d), bs)
            + optional_variants(p, d, subtext_en(d), bs),
        KeypadLanguage::Japanese => optional_variants(p, d, subtext_en(d), bs),
        KeypadLanguage::English => optional_variants(p, d, subtext_en(d), bs),
        KeypadLanguage::All => (if p == "ru"@ && subtext_ru(d).len() > 0 {
            variant_names(p, d, subtext_ru(d), bs)
        } else if p == "uk"@ && subtext_uk(d).len() > 0 {
            variant_names(p, d, subtext_uk(d), bs)
        } else {
            seq![]
        }) + optional_variants(p, d, subtext_en(d), bs),
        KeypadLanguage::Unlisted => seq![],
    }
}

/// The file names of key `d` under the prefixes `ps`, in order.
pub open spec fn prefixes_variants(
    m: KeypadLanguage,
    ps: Seq<Seq<char>>,
    d: Seq<char>,
    bs: Seq<char>,
) -> Seq<Seq<char>>
    decreases ps.len(),
{
    if ps.len() == 0 {
        seq![]
    } else {
        prefixes_variants(m, ps.drop_last(), d, bs) + prefix_variants(m, ps.last(), d, bs)
    }
}

/// The file names of the letters found in an image's own name.
pub open spec fn subtext_variants(sub: Seq<char>, d: Seq<char>, bs: Seq<char>) -> Seq<Seq<char>>
    decreases 0nat,
{
    variant_names("en"@, d, sub, bs) + variant_names("other"@, d, sub, bs) + variant_names(
        "ru"@,
        d,
        sub,
        bs,
    ) + variant_names("uk"@, d, sub, bs) + variant_names("ja"@, d, sub, bs)
}

/// Every file name under which the image of key `d` is written.
pub open spec fn digit_variants(
    m: KeypadLanguage,
    d: Seq<char>,
    sub: Option<Seq<char>>,
    bs: Seq<char>,
) -> Seq<Seq<char>> {
    prefixes_variants(m, mode_prefixes(m), d, bs) + match sub {
        Some(s) => if s.len() > 0 {
            subtext_variants(s, d, bs)
        } else {
            seq![]
        },
        None => seq![],
    }
}

/// The texts of a list of character buffers.
pub open spec fn chars_seq_view(v: Seq<Vec<char>>) -> Seq<Seq<char>> {
    v.map_values(|x: Vec<char>| x@)
}

fn space_free(s: &[char]) -> (r: Vec<char>)
    ensures
        r@ == remove_spaces(s@),
{
    let mut r: Vec<char> = Vec::new();
    let mut i: usize = 0;
    while i < s.len()
        invariant
            i <= s@.len(),
            r@ == remove_spaces(s@.take(i as int)),
        decreases s@.len() - i,
    {
        assert(s@.take(i + 1).drop_last() =~= s@.take(i as int));
        if s[i] != ' ' {
            r.push(s[i]);
        }
        i = i + 1;
    }
    assert(s@.take(s@.len() as int) =~= s@);
    r
}

fn variant_name(p: &[char], d: &[char], sub: &[char], tail: &str, bs: &[char]) -> (r: Vec<char>)
    ensures
        sub@.len() == 0 ==> r@ == p@ + "-"@ + d@ + tail@ + bs@ + ".png"@,
        sub@.len() > 0 ==> r@ == p@ + "-"@ + d@ + "-"@ + sub@ + tail@ + bs@ + ".png"@,
{
    let mut v: Vec<char> = Vec::new();
    push_chars(&mut v, p);
    push_str(&mut v, "-");
    push_chars(&mut v, d);
    if sub.len() > 0 {
        push_str(&mut v, "-");
        push_chars(&mut v, sub);
    }
    push_str(&mut v, tail);
    push_chars(&mut v, bs);
    push_str(&mut v, ".png");
    v
}

/// Appends the variants of prefix `p`, key `d` and letters `sub`.
fn push_variant_names(out: &mut Vec<Vec<char>>, p: &[char], d: &[char], sub: &[char], bs: &[char])
    ensures
        chars_seq_view(final(out)@) == chars_seq_view(old(out)@) + variant_names(
            p@,
            d@,
            sub@,
            bs@,
        ),
{
    let ghost before = chars_seq_view(out@);
    if sub.len() == 0 {
        out.push(variant_name(p, d, sub, "---white", bs));
    } else {
        out.push(variant_name(p, d, sub, "--white", bs));
        let ns = space_free(sub);
        if !crate::text::chars_eq(ns.as_slice(), sub) {
            if ns.len() == 0 {
                let mut v: Vec<char> = Vec::new();
                push_chars(&mut v, p);
                push_str(&mut v, "-");
                push_chars(&mut v, d);
                push_str(&mut v, "-");
                push_str(&mut v, "--white");
                push_chars(&mut v, bs);
                push_str(&mut v, ".png");
                out.push(v);
            } else {
                out.push(variant_name(p, d, ns.as_slice(), "--white", bs));
            }
        }
    }
    assert(chars_seq_view(out@) =~= before + variant_names(p@, d@, sub@, bs@));
}

fn language_mode_exec(lang: &[char]) -> (m: KeypadLanguage)
    ensures
        m == language_mode(lang@),
{
    let ru = contains_str(lang, "Russian") || contains_str(lang, "ru");
    let uk = contains_str(lang, "Ukrainian") || contains_str(lang, "uk");
    let ja = contains_str(lang, "Japanese") || contains_str(lang, "ja");
    let en = contains_str(lang, "English") || contains_str(lang, "en");
    let all = contains_str(lang, "All") || contains_str(lang, "Universal");
    if ru {
        KeypadLanguage::Russian
    } else if uk {
        KeypadLanguage::Ukrainian
    } else if ja {
        KeypadLanguage::Japanese
    } else if en && !all {
        KeypadLanguage::English
    } else if all {
        KeypadLanguage::All
    } else {
        KeypadLanguage::Unlisted
    }
}

fn push_prefix(v: &mut Vec<Vec<char>>, p: &str)
    ensures
        chars_seq_view(final(v)@) == chars_seq_view(old(v)@).push(p@),
{
    let ghost before = chars_seq_view(v@);
    v.push(chars_of(p));
    assert(chars_seq_view(v@) =~= before.push(p@));
}

fn mode_prefix_list(m: KeypadLanguage) -> (v: Vec<Vec<char>>)
    ensures
        chars_seq_view(v@) == mode_prefixes(m),
{
    let mut v: Vec<Vec<char>> = Vec::new();
    match m {
        KeypadLanguage::Russian => {
            push_prefix(&mut v, "ru");
            push_prefix(&mut v, "other");
            push_prefix(&mut v, "en");
        },
        KeypadLanguage::Ukrainian => {
            push_prefix(&mut v, "uk");
            push_prefix(&mut v, "other");
            push_prefix(&mut v, "en");
        },
        KeypadLanguage::Japanese => {
            push_prefix(&mut v, "ja");
            push_prefix(&mut v, "other");
            push_prefix(&mut v, "en");
        },
        KeypadLanguage::English => {
            push_prefix(&mut v, "en");
            push_prefix(&mut v, "other");
        },
        KeypadLanguage::All => {
            push_prefix(&mut v, "en");
            push_prefix(&mut v, "other");
            push_prefix(&mut v, "ru");
            push_prefix(&mut v, "uk");
            push_prefix(&mut v, "ja");
            push_prefix(&mut v, "es");
            push_prefix(&mut v, "fr");
            push_prefix(&mut v, "de");
            push_prefix(&mut v, "it");
            push_prefix(&mut v, "pt");
            push_prefix(&mut v, "tr");
            push_prefix(&mut v, "pl");
            push_prefix(&mut v, "ko");
            push_prefix(&mut v, "zh");
        },
        KeypadLanguage::Unlisted => {},
    }
    assert(chars_seq_view(v@) =~= mode_prefixes(m));
    v
}

fn push_optional_variants(out: &mut Vec<Vec<char>>, p: &[char], d: &[char], sub: &[char], bs: &[char])
    ensures
        chars_seq_view(final(out)@) == chars_seq_view(old(out)@) + optional_variants(
            p@,
            d@,
            sub@,
            bs@,
        ),
{
    let ghost before = chars_seq_view(out@);
    if sub.len() > 0 {
        push_variant_names(out, p, d, sub, bs);
    }
    assert(chars_seq_view(out@) =~= before + optional_variants(p@, d@, sub@, bs@));
}

#[verifier::rlimit(40)]
#[verifier::spinoff_prover]
fn push_prefix_variants(
    out: &mut Vec<Vec<char>>,
    m: KeypadLanguage,
    p: &[char],
    d: &[char],
    bs: &[char],
)
    ensures
        chars_seq_view(final(out)@) == chars_seq_view(old(out)@) + prefix_variants(m, p@, d@, bs@),
{
    let ghost before = chars_seq_view(out@);
    let empty = chars_of("");
    push_variant_names(out, p, d, empty.as_slice(), bs);
    let ghost mid = chars_seq_view(out@);
    let en = chars_of(keypad_subtext(KeypadTable::English, d));
    let ru = chars_of(keypad_subtext(KeypadTable::Russian, d));
    let uk = chars_of(keypad_subtext(KeypadTable::Ukrainian, d));
    match m {
        KeypadLanguage::Russian => {
            push_optional_variants(out, p, d, ru.as_slice(), bs);
            push_optional_variants(out, p, d, en.as_slice(), bs);
        },
        KeypadLanguage::Ukrainian => {
            push_optional_variants(out, p, d, uk.as_slice(), bs);
            push_optional_variants(out, p, d, en.as_slice(), bs);
        },
        KeypadLanguage::Japanese => {
            push_optional_variants(out, p, d, en.as_slice(), bs);
        },
        KeypadLanguage::English => {
            push_optional_variants(out, p, d, en.as_slice(), bs);
        },
        KeypadLanguage::All => {
            let rup = chars_of("ru");
            let ukp = chars_of("uk");
            if chars_eq(p, rup.as_slice()) && ru.len() > 0 {
                push_variant_names(out, p, d, ru.as_slice(), bs);
            } else if chars_eq(p, ukp.as_slice()) && uk.len() > 0 {
                push_variant_names(out, p, d, uk.as_slice(), bs);
            }
            push_optional_variants(out, p, d, en.as_slice(), bs);
        },
        KeypadLanguage::Unlisted => {},
    }
    assert(chars_seq_view(out@) =~= before + prefix_variants(m, p@, d@, bs@));
}

/// Every file name under which the image of key `d` is written, in order.
pub fn keypad_variant_names(
    m: KeypadLanguage,
    d: &[char],
    sub: Option<&[char]>,
    bs: &[char],
) -> (r: Vec<Vec<char>>)
    ensures
        chars_seq_view(r@) == digit_variants(
            m,
            d@,
            match sub {
                Some(s) => Some(s@),
                None => None,
            },
            bs@,
        ),
{
    let ps = mode_prefix_list(m);
    let mut out: Vec<Vec<char>> = Vec::new();
    let mut j: usize = 0;
    while j < ps.len()
        invariant
            j <= ps@.len(),
            chars_seq_view(ps@) == mode_prefixes(m),
            chars_seq_view(out@) == prefixes_variants(
                m,
                chars_seq_view(ps@).take(j as int),
                d@,
                bs@,
            ),
        decreases ps@.len() - j,
    {
        assert(chars_seq_view(ps@).take(j + 1).drop_last() =~= chars_seq_view(ps@).take(j as int));
        assert(chars_seq_view(ps@).take(j + 1).last() == ps@[j as int]@);
        push_prefix_variants(&mut out, m, ps[j].as_slice(), d, bs);
        j = j + 1;
    }
    assert(chars_seq_view(ps@).take(ps@.len() as int) =~= mode_prefixes(m));
    let ghost base = chars_seq_view(out@);
    match sub {
        Some(s) => {
            if s.len() > 0 {
                let en = chars_of("en");
                let other = chars_of("other");
                let ru = chars_of("ru");
                let uk = chars_of("uk");
                let ja = chars_of("ja");
                push_variant_names(&mut out, en.as_slice(), d, s, bs);
                push_variant_names(&mut out, other.as_slice(), d, s, bs);
                push_variant_names(&mut out, ru.as_slice(), d, s, bs);
                push_variant_names(&mut out, uk.as_slice(), d, s, bs);
                push_variant_names(&mut out, ja.as_slice(), d, s, bs);
                assert(chars_seq_view(out@) =~= base + subtext_variants(s@, d@, bs@));
            }
        },
        None => {},
    }
    out
}

// ---------------------------------------------------------------------------
// Building the theme
// ---------------------------------------------------------------------------

/// Position of the last entry with key `k`, or -1.
pub open spec fn find_key(dict: Seq<(Seq<char>, Seq<u8>)>, k: Seq<char>) -> int
    decreases dict.len(),
{
    if dict.len() == 0 {
        -1
    } else if dict.last().0 == k {
        dict.len() - 1
    } else {
        find_key(dict.drop_last(), k)
    }
}

/// A map insert: the value of key `k` replaced, or a new entry appended.
pub open spec fn dict_insert(dict: Seq<(Seq<char>, Seq<u8>)>, k: Seq<char>, v: Seq<u8>) -> Seq<
    (Seq<char>, Seq<u8>),
> {
    let i = find_key(dict, k);
    if i >= 0 {
        dict.update(i, (k, v))
    } else {
        dict.push((k, v))
    }
}

/// Every name of `names`, in order, inserted with value `v`.
pub open spec fn dict_insert_all(
    dict: Seq<(Seq<char>, Seq<u8>)>,
    names: Seq<Seq<char>>,
    v: Seq<u8>,
) -> Seq<(Seq<char>, Seq<u8>)>
    decreases names.len(),
{
    if names.len() == 0 {
        dict
    } else {
        dict_insert(dict_insert_all(dict, names.drop_last(), v), names.last(), v)
    }
}

/// The first image seen for a key is its preview.
pub open spec fn preview_add(previews: Seq<(Seq<char>, Seq<u8>)>, d: Seq<char>, v: Seq<u8>) -> Seq<
    (Seq<char>, Seq<u8>),
> {
    if find_key(previews, d) >= 0 {
        previews
    } else {
        previews.push((d, v))
    }
}

/// The pattern that reads `[lang-]key[-letters]` from an image name.
pub open spec fn digit_pattern() -> Seq<char> {
    r"(?:^[a-zA-Z]+-)?([0-9*#])(?:-([^-\n]+))?"@
}

/// The pattern that finds any key symbol in an image name.
pub open spec fn simple_digit_pattern() -> Seq<char> {
    r"([0-9*#])"@
}

/// The pattern of the `-white` / `-white-bold` suffix of image names.
pub open spec fn white_suffix_pattern() -> Seq<char> {
    r"(?i)--?white(?:-bold)?$"@
}

/// The suffix of bold image names.
pub open spec fn bold_suffix(bold: bool) -> Seq<char> {
    if bold {
        "-bold"@
    } else {
        ""@
    }
}

/// The stem of an image's file name.
pub open spec fn leaf_stem(leaf: Seq<char>) -> Seq<char> {
    match file_name(leaf) {
        Some(f) => stem_of(f),
        None => leaf,
    }
}

/// The key an image is for, and the letters its name carries.
pub open spec fn image_key(leaf: Seq<char>) -> (Option<Seq<char>>, Option<Seq<char>>) {
    let clean = regex_replace_first(white_suffix_pattern(), leaf_stem(leaf), ""@);
    let sub = match regex_capture(digit_pattern(), clean, 2) {
        Some(s) => Some(trim_class(s, CharClass::WhiteSpace)),
        None => None,
    };
    match regex_capture(digit_pattern(), clean, 1) {
        Some(d) => (Some(d), sub),
        None => (regex_capture(simple_digit_pattern(), leaf, 1), sub),
    }
}

/// One image taken into the file map and the previews.
pub open spec fn theme_step(
    m: KeypadLanguage,
    bs: Seq<char>,
    state: (Seq<(Seq<char>, Seq<u8>)>, Seq<(Seq<char>, Seq<u8>)>),
    img: (Seq<char>, Seq<u8>),
) -> (Seq<(Seq<char>, Seq<u8>)>, Seq<(Seq<char>, Seq<u8>)>) {
    let key = image_key(img.0);
    match key.0 {
        None => state,
        Some(d) => (
            dict_insert_all(state.0, digit_variants(m, d, key.1, bs), img.1),
            preview_add(state.1, d, img.1),
        ),
    }
}

/// The file map and previews for a list of (file name, bytes) images.
pub open spec fn theme_images(
    m: KeypadLanguage,
    bs: Seq<char>,
    imgs: Seq<(Seq<char>, Seq<u8>)>,
) -> (Seq<(Seq<char>, Seq<u8>)>, Seq<(Seq<char>, Seq<u8>)>)
    decreases imgs.len(),
{
    if imgs.len() == 0 {
        (seq![], seq![])
    } else {
        theme_step(m, bs, theme_images(m, bs, imgs.drop_last()), imgs.last())
    }
}

/// The device directory of a TelephonyUI cache version.
pub open spec fn cache_dir(version: Seq<char>) -> Seq<char> {
    "/var/mobile/Library/Caches/"@ + version
}

/// The files of the map, all in directory `tdir`.
pub open spec fn dict_items(tdir: Seq<char>, dict: Seq<(Seq<char>, Seq<u8>)>) -> Seq<
    (Seq<char>, Seq<char>, Seq<u8>),
>
    decreases dict.len(),
{
    if dict.len() == 0 {
        seq![]
    } else {
        dict_items(tdir, dict.drop_last()).push((tdir, dict.last().0, dict.last().1))
    }
}

/// A theme as sequences.
pub struct ThemeView {
    pub name: Seq<char>,
    pub detected_version: Seq<char>,
    pub items: Seq<(Seq<char>, Seq<char>, Seq<u8>)>,
    pub key_previews: Seq<(Seq<char>, Seq<u8>)>,
}

impl View for PasscodeTheme {
    type V = ThemeView;

    open spec fn view(&self) -> ThemeView {
        ThemeView {
            name: self.name@,
            detected_version: self.detected_version@,
            items: self.items@.map_values(|t: (String, String, Vec<u8>)| (t.0@, t.1@, t.2@)),
            key_previews: self.key_previews@.map_values(|p: (String, Vec<u8>)| (p.0@, p.1@)),
        }
    }
}

/// The theme built from the keypad images, or `None` when no image is for a key.
/// Its files are the `_big` marker (which tells iOS to use the large keypad
/// images) followed by the file map, all in the cache directory of `target`.
pub open spec fn built_theme(
    name: Seq<char>,
    detected: Seq<char>,
    target: Seq<char>,
    imgs: Seq<(Seq<char>, Seq<u8>)>,
    lang: Seq<char>,
    bold: bool,
) -> Option<ThemeView> {
    let r = theme_images(language_mode(lang), bold_suffix(bold), imgs);
    if r.0.len() == 0 {
        None
    } else {
        Some(
            ThemeView {
                name,
                detected_version: detected,
                items: seq![(cache_dir(target), "_big"@, seq![])] + dict_items(cache_dir(target), r.0),
                key_previews: r.1,
            },
        )
    }
}

/// A file map as sequences.
pub open spec fn dict_view(d: Seq<(Vec<char>, Vec<u8>)>) -> Seq<(Seq<char>, Seq<u8>)> {
    d.map_values(|e: (Vec<char>, Vec<u8>)| (e.0@, e.1@))
}

fn dict_find(dict: &Vec<(Vec<char>, Vec<u8>)>, k: &[char]) -> (r: Option<usize>)
    ensures
        match r {
            Some(i) => i < dict@.len() && find_key(dict_view(dict@), k@) == i,
            None => find_key(dict_view(dict@), k@) == -1,
        },
{
    let mut j = dict.len();
    assert(dict_view(dict@).take(j as int) =~= dict_view(dict@));
    while j > 0
        invariant
            j <= dict@.len(),
            find_key(dict_view(dict@), k@) == find_key(dict_view(dict@).take(j as int), k@),
        decreases j,
    {
        let ghost pre = dict_view(dict@).take(j as int);
        assert(pre.drop_last() =~= dict_view(dict@).take(j - 1));
        assert(pre.last() == (dict@[j - 1].0@, dict@[j - 1].1@));
        if chars_eq(dict[j - 1].0.as_slice(), k) {
            return Some(j - 1);
        }
        j = j - 1;
    }
    None
}

fn dict_insert_exec(dict: &mut Vec<(Vec<char>, Vec<u8>)>, k: &[char], v: &[u8])
    ensures
        dict_view(final(dict)@) == dict_insert(dict_view(old(dict)@), k@, v@),
{
    let ghost before = dict_view(dict@);
    let key: Vec<char> = crate::text::copy_range(k, 0, k.len());
    assert(k@.subrange(0, k@.len() as int) =~= k@);
    match dict_find(dict, k) {
        Some(i) => {
            dict.set(i, (key, copy_bytes(v)));
            assert(dict_view(dict@) =~= before.update(i as int, (k@, v@)));
        },
        None => {
            dict.push((key, copy_bytes(v)));
            assert(dict_view(dict@) =~= before.push((k@, v@)));
        },
    }
}

fn dict_insert_all_exec(dict: &mut Vec<(Vec<char>, Vec<u8>)>, names: &Vec<Vec<char>>, v: &[u8])
    ensures
        dict_view(final(dict)@) == dict_insert_all(dict_view(old(dict)@), chars_seq_view(names@), v@),
{
    let ghost start = dict_view(dict@);
    let mut i: usize = 0;
    while i < names.len()
        invariant
            i <= names@.len(),
            dict_view(dict@) == dict_insert_all(start, chars_seq_view(names@).take(i as int), v@),
        decreases names@.len() - i,
    {
        assert(chars_seq_view(names@).take(i + 1).drop_last() =~= chars_seq_view(names@).take(
            i as int,
        ));
        assert(chars_seq_view(names@).take(i + 1).last() == names@[i as int]@);
        dict_insert_exec(dict, names[i].as_slice(), v);
        i = i + 1;
    }
    assert(chars_seq_view(names@).take(names@.len() as int) =~= chars_seq_view(names@));
}

fn image_key_exec(leaf: &[char]) -> (r: (Option<Vec<char>>, Option<Vec<char>>))
    ensures
        (match r.0 {
            Some(d) => Some(d@),
            None => None,
        }, match r.1 {
            Some(s) => Some(s@),
            None => None,
        }) == image_key(leaf@),
{
    let stem = match path_file_name(leaf) {
        Some(f) => file_stem_of(f.as_slice()),
        None => crate::text::copy_range(leaf, 0, leaf.len()),
    };
    assert(leaf@.subrange(0, leaf@.len() as int) =~= leaf@);
    let clean = replace_first(r"(?i)--?white(?:-bold)?$", stem.as_slice(), "");
    let sub = match capture_group(r"(?:^[a-zA-Z]+-)?([0-9*#])(?:-([^-\n]+))?", clean.as_slice(), 2) {
        Some(s) => Some(trim_chars(s.as_slice(), CharClass::WhiteSpace)),
        None => None,
    };
    match capture_group(r"(?:^[a-zA-Z]+-)?([0-9*#])(?:-([^-\n]+))?", clean.as_slice(), 1) {
        Some(d) => (Some(d), sub),
        None => (capture_group(r"([0-9*#])", leaf, 1), sub),
    }
}

/// Builds a theme from the images that may be keypad buttons: each image
/// whose name names a key is written under every file name the selected
/// keypad languages look for, and the first image of each key is its
/// preview. `None` when no image names a key.
pub fn build_passcode_theme(
    name: &str,
    detected_version: &str,
    target_version: &str,
    images: &[(String, Vec<u8>)],
    language: &str,
    bold: bool,
) -> (r: Option<PasscodeTheme>)
    ensures
        match r {
            Some(t) => built_theme(
                name@,
                detected_version@,
                target_version@,
                images@.map_values(|p: (String, Vec<u8>)| (p.0@, p.1@)),
                language@,
                bold,
            ) == Some(t@),
            None => built_theme(
                name@,
                detected_version@,
                target_version@,
                images@.map_values(|p: (String, Vec<u8>)| (p.0@, p.1@)),
                language@,
                bold,
            ) is None,
        },
{
    let ghost iv = images@.map_values(|p: (String, Vec<u8>)| (p.0@, p.1@));
    let lang = chars_of(language);
    let m = language_mode_exec(lang.as_slice());
    let bs = if bold {
        chars_of("-bold")
    } else {
        chars_of("")
    };
    let mut dict: Vec<(Vec<char>, Vec<u8>)> = Vec::new();
    let mut previews: Vec<(Vec<char>, Vec<u8>)> = Vec::new();
    let mut i: usize = 0;
    while i < images.len()
        invariant
            i <= images@.len(),
            iv == images@.map_values(|p: (String, Vec<u8>)| (p.0@, p.1@)),
            m == language_mode(language@),
            bs@ == bold_suffix(bold),
            (dict_view(dict@), dict_view(previews@)) == theme_images(m, bs@, iv.take(i as int)),
        decreases images@.len() - i,
    {
        assert(iv.take(i + 1).drop_last() =~= iv.take(i as int));
        assert(iv.take(i + 1).last() == (images@[i as int].0@, images@[i as int].1@));
        let leaf = chars_of(images[i].0.as_str());
        let data = images[i].1.as_slice();
        let key = image_key_exec(leaf.as_slice());
        match key.0 {
            Some(d) => {
                let names = match key.1 {
                    Some(s) => keypad_variant_names(m, d.as_slice(), Some(s.as_slice()), bs.as_slice()),
                    None => keypad_variant_names(m, d.as_slice(), None, bs.as_slice()),
                };
                dict_insert_all_exec(&mut dict, &names, data);
                let ghost pv = dict_view(previews@);
                if dict_find(&previews, d.as_slice()).is_none() {
                    previews.push((d, copy_bytes(data)));
                    assert(dict_view(previews@) =~= pv.push((d@, data@)));
                }
            },
            None => {},
        }
        i = i + 1;
    }
    assert(iv.take(images@.len() as int) =~= iv);
    if dict.len() == 0 {
        return None;
    }
    let mut tdir: Vec<char> = Vec::new();
    push_str(&mut tdir, "/var/mobile/Library/Caches/");
    push_str(&mut tdir, target_version);
    let tdir_s = string_of(tdir.as_slice());
    let mut items: Vec<(String, String, Vec<u8>)> = Vec::new();
    items.push((tdir_s.clone(), "_big".to_owned(), Vec::new()));
    let ghost itv = |t: (String, String, Vec<u8>)| (t.0@, t.1@, t.2@);
    let mut k: usize = 0;
    while k < dict.len()
        invariant
            k <= dict@.len(),
            tdir_s@ == cache_dir(target_version@),
            items@.map_values(|t: (String, String, Vec<u8>)| (t.0@, t.1@, t.2@)) == seq![
                (cache_dir(target_version@), "_big"@, Seq::<u8>::empty()),
            ] + dict_items(cache_dir(target_version@), dict_view(dict@).take(k as int)),
        decreases dict@.len() - k,
    {
        assert(dict_view(dict@).take(k + 1).drop_last() =~= dict_view(dict@).take(k as int));
        let ghost before = items@.map_values(|t: (String, String, Vec<u8>)| (t.0@, t.1@, t.2@));
        items.push((tdir_s.clone(), string_of(dict[k].0.as_slice()), copy_bytes(dict[k].1.as_slice())));
        k = k + 1;
        assert(items@.map_values(|t: (String, String, Vec<u8>)| (t.0@, t.1@, t.2@)) =~= before.push(
            (cache_dir(target_version@), dict@[k - 1].0@, dict@[k - 1].1@),
        ));
    }
    assert(dict_view(dict@).take(dict@.len() as int) =~= dict_view(dict@));
    let mut prev_out: Vec<(String, Vec<u8>)> = Vec::new();
    let mut q: usize = 0;
    while q < previews.len()
        invariant
            q <= previews@.len(),
            prev_out@.map_values(|p: (String, Vec<u8>)| (p.0@, p.1@)) == dict_view(previews@).take(
                q as int,
            ),
        decreases previews@.len() - q,
    {
        let ghost before = prev_out@.map_values(|p: (String, Vec<u8>)| (p.0@, p.1@));
        prev_out.push((string_of(previews[q].0.as_slice()), copy_bytes(previews[q].1.as_slice())));
        q = q + 1;
        assert(prev_out@.map_values(|p: (String, Vec<u8>)| (p.0@, p.1@)) =~= before.push(
            (previews@[q - 1].0@, previews@[q - 1].1@),
        ));
        assert(dict_view(previews@).take(q as int) =~= dict_view(previews@).take(q - 1).push(
            (previews@[q - 1].0@, previews@[q - 1].1@),
        ));
    }
    assert(dict_view(previews@).take(previews@.len() as int) =~= dict_view(previews@));
    Some(
        PasscodeTheme {
            name: name.to_owned(),
            detected_version: detected_version.to_owned(),
            items,
            key_previews: prev_out,
        },
    )
}

// ---------------------------------------------------------------------------
// Reading the archive
// ---------------------------------------------------------------------------

/// The names of the first `k` entries, or `None` when one cannot be read.
pub open spec fn archive_names(archive: Seq<u8>, k: nat) -> Option<Seq<Seq<char>>>
    decreases k,
{
    if k == 0 {
        Some(seq![])
    } else {
        match archive_names(archive, (k - 1) as nat) {
            Some(prev) => match zip_entry_name(archive, (k - 1) as nat) {
                Some(n) => Some(prev.push(n)),
                None => None,
            },
            None => None,
        }
    }
}

/// The image entries that may be keypad buttons, as (file name, bytes), or
/// `None` when one of them cannot be read.
pub open spec fn keypad_images(archive: Seq<u8>, entries: Seq<Seq<char>>) -> Option<
    Seq<(Seq<char>, Seq<u8>)>,
>
    decreases entries.len(),
{
    if entries.len() == 0 {
        Some(seq![])
    } else {
        match keypad_images(archive, entries.drop_last()) {
            None => None,
            Some(prev) => match keypad_leaf_spec(entries.last()) {
                None => Some(prev),
                Some(leaf) => match zip_entry_data(archive, entries.last()) {
                    Some(d) => Some(prev.push((leaf, d))),
                    None => None,
                },
            },
        }
    }
}

proof fn lemma_archive_names_fail(archive: Seq<u8>, k: nat, n: nat)
    requires
        archive_names(archive, k) is None,
        k <= n,
    ensures
        archive_names(archive, n) is None,
    decreases n - k,
{
    if k < n {
        lemma_archive_names_fail(archive, k, (n - 1) as nat);
    }
}

proof fn lemma_keypad_images_fail(archive: Seq<u8>, entries: Seq<Seq<char>>, k: int, n: int)
    requires
        0 <= k <= n <= entries.len(),
        keypad_images(archive, entries.take(k)) is None,
    ensures
        keypad_images(archive, entries.take(n)) is None,
    decreases n - k,
{
    if k < n {
        lemma_keypad_images_fail(archive, entries, k, n - 1);
        assert(entries.take(n).drop_last() =~= entries.take(n - 1));
    }
}

/// The name of a theme: the stem of its file name, or `CustomTheme`.
pub open spec fn theme_name(path: Seq<char>) -> Seq<char> {
    match file_name(path) {
        Some(f) => stem_of(f),
        None => "CustomTheme"@,
    }
}

/// The outcome of reading a theme archive.
pub enum ThemeOutcome {
    Theme(ThemeView),
    NotAnArchive,
    UnreadableEntry,
    NoKeypadImages,
}

/// What reading the archive `archive`, stored at `path`, gives.
pub open spec fn passthm_outcome(
    path: Seq<char>,
    archive: Seq<u8>,
    forced: Option<Seq<char>>,
    lang: Seq<char>,
    bold: bool,
) -> ThemeOutcome {
    match zip_entry_count(archive) {
        None => ThemeOutcome::NotAnArchive,
        Some(n) => match archive_names(archive, n) {
            None => ThemeOutcome::UnreadableEntry,
            Some(names) => {
                let scan = scan_entries(names);
                match keypad_images(archive, scan.1) {
                    None => ThemeOutcome::UnreadableEntry,
                    Some(imgs) => {
                        let target = match forced {
                            Some(v) => v,
                            None => "TelephonyUI-10"@,
                        };
                        match built_theme(theme_name(path), scan.0, target, imgs, lang, bold) {
                            Some(t) => ThemeOutcome::Theme(t),
                            None => ThemeOutcome::NoKeypadImages,
                        }
                    },
                }
            },
        },
    }
}

/// The outcome that a result stands for.
pub open spec fn outcome_of(r: Result<PasscodeTheme, PassthmError>) -> ThemeOutcome {
    match r {
        Ok(t) => ThemeOutcome::Theme(t@),
        Err(PassthmError::NotAnArchive(_)) => ThemeOutcome::NotAnArchive,
        Err(PassthmError::UnreadableEntry(_)) => ThemeOutcome::UnreadableEntry,
        Err(PassthmError::NoKeypadImages) => ThemeOutcome::NoKeypadImages,
    }
}

/// Reads a `.passthm` theme archive (the bytes of the file at `file_path`)
/// into the files to write to the device. `forced_version` chooses the
/// TelephonyUI cache they go to (`TelephonyUI-10` by default); `language`
/// selects the keypad languages; `bold` selects the bold image names.
pub fn parse_passthm_archive(
    file_path: &str,
    archive: &[u8],
    forced_version: Option<&str>,
    language: &str,
    bold: bool,
) -> (r: Result<PasscodeTheme, PassthmError>)
    ensures
        outcome_of(r) == passthm_outcome(
            file_path@,
            archive@,
            match forced_version {
                Some(v) => Some(v@),
                None => None,
            },
            language@,
            bold,
        ),
{
    let count = match zip_count(archive) {
        Ok(n) => n,
        Err(e) => return Err(PassthmError::NotAnArchive(e)),
    };
    let mut names: Vec<String> = Vec::new();
    let mut i: usize = 0;
    while i < count
        invariant
            i <= count,
            names@.len() == i,
            zip_entry_count(archive@) == Some(count as nat),
            archive_names(archive@, i as nat) == Some(strings_view(names@)),
        decreases count - i,
    {
        match zip_name(archive, i) {
            Ok(n) => {
                let ghost before = strings_view(names@);
                names.push(n);
                assert(strings_view(names@) =~= before.push(names@[i as int]@));
            },
            Err(e) => {
                proof {
                    lemma_archive_names_fail(archive@, (i + 1) as nat, count as nat);
                }
                return Err(PassthmError::UnreadableEntry(e));
            },
        }
        i = i + 1;
    }
    let scan = scan_entry_names(names.as_slice());
    let entries = scan.1.clone();
    let mut images: Vec<(String, Vec<u8>)> = Vec::new();
    let mut k: usize = 0;
    while k < entries.len()
        invariant
            k <= entries@.len(),
            zip_entry_count(archive@) == Some(count as nat),
            archive_names(archive@, count as nat) == Some(strings_view(names@)),
            (scan.0@, strings_view(entries@)) == scan_entries(strings_view(names@)),
            keypad_images(archive@, strings_view(entries@).take(k as int)) == Some(
                images@.map_values(|p: (String, Vec<u8>)| (p.0@, p.1@)),
            ),
        decreases entries@.len() - k,
    {
        assert(strings_view(entries@).take(k + 1).drop_last() =~= strings_view(entries@).take(
            k as int,
        ));
        assert(strings_view(entries@).take(k + 1).last() == entries@[k as int]@);
        match keypad_leaf(entries[k].as_str()) {
            Some(leaf) => {
                match zip_read(archive, entries[k].as_str()) {
                    Ok(data) => {
                        let ghost before = images@.map_values(
                            |p: (String, Vec<u8>)| (p.0@, p.1@),
                        );
                        let ghost lv = leaf@;
                        let ghost dv = data@;
                        images.push((leaf, data));
                        assert(images@.map_values(|p: (String, Vec<u8>)| (p.0@, p.1@)) =~= before.push(
                            (lv, dv),
                        ));
                    },
                    Err(e) => {
                        proof {
                            lemma_keypad_images_fail(
                                archive@,
                                strings_view(entries@),
                                k + 1,
                                entries@.len() as int,
                            );
                            assert(strings_view(entries@).take(entries@.len() as int)
                                =~= strings_view(entries@));
                        }
                        return Err(PassthmError::UnreadableEntry(e));
                    },
                }
            },
            None => {},
        }
        k = k + 1;
    }
    assert(strings_view(entries@).take(entries@.len() as int) =~= strings_view(entries@));
    let pv = chars_of(file_path);
    let name = match path_file_name(pv.as_slice()) {
        Some(f) => string_of(file_stem_of(f.as_slice()).as_slice()),
        None => "CustomTheme".to_owned(),
    };
    let target = match forced_version {
        Some(v) => v,
        None => "TelephonyUI-10",
    };
    match build_passcode_theme(
        name.as_str(),
        scan.0.as_str(),
        target,
        images.as_slice(),
        language,
        bold,
    ) {
        Some(t) => Ok(t),
        None => Err(PassthmError::NoKeypadImages),
    }
}


// ---------------------------------------------------------------------------
// What every built theme satisfies
// ---------------------------------------------------------------------------

/// No two entries of the map share a key.
pub open spec fn keys_distinct(dict: Seq<(Seq<char>, Seq<u8>)>) -> bool {
    forall|i: int, j: int| 0 <= i < j < dict.len() ==> dict[i].0 != dict[j].0
}

/// Every key of the map names a PNG file.
pub open spec fn keys_png(dict: Seq<(Seq<char>, Seq<u8>)>) -> bool {
    forall|i: int| 0 <= i < dict.len() ==> seq_ends_with(#[trigger] dict[i].0, ".png"@)
}

/// Every name of the list names a PNG file.
pub open spec fn names_png(names: Seq<Seq<char>>) -> bool {
    forall|i: int| 0 <= i < names.len() ==> seq_ends_with(#[trigger] names[i], ".png"@)
}

proof fn lemma_find_key(dict: Seq<(Seq<char>, Seq<u8>)>, k: Seq<char>)
    ensures
        find_key(dict, k) >= 0 ==> find_key(dict, k) < dict.len() && dict[find_key(dict, k)].0
            == k,
        find_key(dict, k) < 0 ==> forall|i: int| 0 <= i < dict.len() ==> dict[i].0 != k,
    decreases dict.len(),
{
    if dict.len() > 0 {
        lemma_find_key(dict.drop_last(), k);
        if find_key(dict, k) < 0 {
            assert forall|i: int| 0 <= i < dict.len() implies dict[i].0 != k by {
                if i < dict.len() - 1 {
                    assert(dict[i] == dict.drop_last()[i]);
                }
            }
        }
    }
}

proof fn lemma_insert_keeps(dict: Seq<(Seq<char>, Seq<u8>)>, k: Seq<char>, v: Seq<u8>)
    requires
        keys_distinct(dict),
        keys_png(dict),
        seq_ends_with(k, ".png"@),
    ensures
        keys_distinct(dict_insert(dict, k, v)),
        keys_png(dict_insert(dict, k, v)),
{
    lemma_find_key(dict, k);
    let r = dict_insert(dict, k, v);
    assert forall|i: int, j: int| 0 <= i < j < r.len() implies r[i].0 != r[j].0 by {
        if find_key(dict, k) < 0 && j == dict.len() {
            assert(r[i] == dict[i]);
        }
    }
}

proof fn lemma_insert_all_keeps(dict: Seq<(Seq<char>, Seq<u8>)>, names: Seq<Seq<char>>, v: Seq<u8>)
    requires
        keys_distinct(dict),
        keys_png(dict),
        names_png(names),
    ensures
        keys_distinct(dict_insert_all(dict, names, v)),
        keys_png(dict_insert_all(dict, names, v)),
    decreases names.len(),
{
    if names.len() > 0 {
        assert(names_png(names.drop_last())) by {
            assert forall|i: int| 0 <= i < names.drop_last().len() implies seq_ends_with(
                #[trigger] names.drop_last()[i],
                ".png"@,
            ) by {
                assert(names.drop_last()[i] == names[i]);
            }
        }
        lemma_insert_all_keeps(dict, names.drop_last(), v);
        assert(seq_ends_with(names[names.len() - 1], ".png"@));
        lemma_insert_keeps(dict_insert_all(dict, names.drop_last(), v), names.last(), v);
    }
}

proof fn lemma_png_name(x: Seq<char>)
    ensures
        seq_ends_with(x + ".png"@, ".png"@),
{
    assert((x + ".png"@).subrange(x.len() as int, (x + ".png"@).len() as int) =~= ".png"@);
}

proof fn lemma_names_png_concat(a: Seq<Seq<char>>, b: Seq<Seq<char>>)
    requires
        names_png(a),
        names_png(b),
    ensures
        names_png(a + b),
{
    assert forall|i: int| 0 <= i < (a + b).len() implies seq_ends_with(
        #[trigger] (a + b)[i],
        ".png"@,
    ) by {
        if i < a.len() {
            assert((a + b)[i] == a[i]);
        } else {
            assert((a + b)[i] == b[i - a.len()]);
        }
    }
}

proof fn lemma_variant_names_png(p: Seq<char>, d: Seq<char>, sub: Seq<char>, bs: Seq<char>)
    ensures
        names_png(variant_names(p, d, sub, bs)),
        names_png(optional_variants(p, d, sub, bs)),
{
    lemma_png_name(p + "-"@ + d + "---white"@ + bs);
    lemma_png_name(p + "-"@ + d + "-"@ + sub + "--white"@ + bs);
    lemma_png_name(p + "-"@ + d + "-"@ + remove_spaces(sub) + "--white"@ + bs);
    assert(names_png(seq![]));
}

proof fn lemma_prefix_variants_png(m: KeypadLanguage, p: Seq<char>, d: Seq<char>, bs: Seq<char>)
    ensures
        names_png(prefix_variants(m, p, d, bs)),
{
    lemma_variant_names_png(p, d, ""@, bs);
    lemma_variant_names_png(p, d, subtext_ru(d), bs);
    lemma_variant_names_png(p, d, subtext_uk(d), bs);
    lemma_variant_names_png(p, d, subtext_en(d), bs);
    let e: Seq<Seq<char>> = seq![];
    assert(names_png(e));
    let base = variant_names(p, d, ""@, bs);
    let en = optional_variants(p, d, subtext_en(d), bs);
    match m {
        KeypadLanguage::Russian => {
            lemma_names_png_concat(optional_variants(p, d, subtext_ru(d), bs), en);
            lemma_names_png_concat(base, optional_variants(p, d, subtext_ru(d), bs) + en);
        },
        KeypadLanguage::Ukrainian => {
            lemma_names_png_concat(optional_variants(p, d, subtext_uk(d), bs), en);
            lemma_names_png_concat(base, optional_variants(p, d, subtext_uk(d), bs) + en);
        },
        KeypadLanguage::Japanese => {
            lemma_names_png_concat(base, en);
        },
        KeypadLanguage::English => {
            lemma_names_png_concat(base, en);
        },
        KeypadLanguage::All => {
            let first = if p == "ru"@ && subtext_ru(d).len() > 0 {
                variant_names(p, d, subtext_ru(d), bs)
            } else if p == "uk"@ && subtext_uk(d).len() > 0 {
                variant_names(p, d, subtext_uk(d), bs)
            } else {
                e
            };
            lemma_names_png_concat(first, en);
            lemma_names_png_concat(base, first + en);
        },
        KeypadLanguage::Unlisted => {
            lemma_names_png_concat(base, e);
        },
    }
}

proof fn lemma_prefixes_variants_png(m: KeypadLanguage, ps: Seq<Seq<char>>, d: Seq<char>, bs: Seq<char>)
    ensures
        names_png(prefixes_variants(m, ps, d, bs)),
    decreases ps.len(),
{
    if ps.len() == 0 {
        let e: Seq<Seq<char>> = seq![];
        assert(names_png(e));
    } else {
        lemma_prefixes_variants_png(m, ps.drop_last(), d, bs);
        lemma_prefix_variants_png(m, ps.last(), d, bs);
        lemma_names_png_concat(
            prefixes_variants(m, ps.drop_last(), d, bs),
            prefix_variants(m, ps.last(), d, bs),
        );
    }
}

proof fn lemma_digit_variants_png(m: KeypadLanguage, d: Seq<char>, sub: Option<Seq<char>>, bs: Seq<char>)
    ensures
        names_png(digit_variants(m, d, sub, bs)),
{
    lemma_prefixes_variants_png(m, mode_prefixes(m), d, bs);
    let e: Seq<Seq<char>> = seq![];
    assert(names_png(e));
    match sub {
        Some(s) => {
            lemma_variant_names_png("en"@, d, s, bs);
            lemma_variant_names_png("other"@, d, s, bs);
            lemma_variant_names_png("ru"@, d, s, bs);
            lemma_variant_names_png("uk"@, d, s, bs);
            lemma_variant_names_png("ja"@, d, s, bs);
            let a = variant_names("en"@, d, s, bs);
            let b = variant_names("other"@, d, s, bs);
            let c = variant_names("ru"@, d, s, bs);
            let u = variant_names("uk"@, d, s, bs);
            let j = variant_names("ja"@, d, s, bs);
            lemma_names_png_concat(a, b);
            lemma_names_png_concat(a + b, c);
            lemma_names_png_concat(a + b + c, u);
            lemma_names_png_concat(a + b + c + u, j);
            lemma_names_png_concat(prefixes_variants(m, mode_prefixes(m), d, bs), a + b + c + u + j);
        },
        None => {},
    }
    lemma_names_png_concat(prefixes_variants(m, mode_prefixes(m), d, bs), e);
}

proof fn lemma_previews_distinct(previews: Seq<(Seq<char>, Seq<u8>)>, d: Seq<char>, v: Seq<u8>)
    requires
        keys_distinct(previews),
    ensures
        keys_distinct(preview_add(previews, d, v)),
{
    lemma_find_key(previews, d);
    let r = preview_add(previews, d, v);
    assert forall|i: int, j: int| 0 <= i < j < r.len() implies r[i].0 != r[j].0 by {
        if find_key(previews, d) < 0 && j == previews.len() {
            assert(r[i] == previews[i]);
        }
    }
}

proof fn lemma_theme_images_keys(m: KeypadLanguage, bs: Seq<char>, imgs: Seq<(Seq<char>, Seq<u8>)>)
    ensures
        keys_distinct(theme_images(m, bs, imgs).0),
        keys_png(theme_images(m, bs, imgs).0),
        keys_distinct(theme_images(m, bs, imgs).1),
    decreases imgs.len(),
{
    if imgs.len() > 0 {
        lemma_theme_images_keys(m, bs, imgs.drop_last());
        let st = theme_images(m, bs, imgs.drop_last());
        let key = image_key(imgs.last().0);
        match key.0 {
            Some(d) => {
                lemma_digit_variants_png(m, d, key.1, bs);
                lemma_insert_all_keeps(st.0, digit_variants(m, d, key.1, bs), imgs.last().1);
                lemma_previews_distinct(st.1, d, imgs.last().1);
            },
            None => {},
        }
    }
}

proof fn lemma_dict_items(tdir: Seq<char>, dict: Seq<(Seq<char>, Seq<u8>)>)
    ensures
        dict_items(tdir, dict).len() == dict.len(),
        forall|i: int|
            0 <= i < dict.len() ==> #[trigger] dict_items(tdir, dict)[i] == (
                tdir,
                dict[i].0,
                dict[i].1,
            ),
    decreases dict.len(),
{
    if dict.len() > 0 {
        lemma_dict_items(tdir, dict.drop_last());
        assert forall|i: int| 0 <= i < dict.len() implies #[trigger] dict_items(tdir, dict)[i] == (
            tdir,
            dict[i].0,
            dict[i].1,
        ) by {
            if i < dict.len() - 1 {
                assert(dict.drop_last()[i] == dict[i]);
            }
        }
    }
}

/// Every theme that is built writes each file once, all in the cache
/// directory of the target version, and keeps at most one preview per key:
/// no two files share a name (the `_big` marker included), and no two
/// previews share a key.
pub proof fn lemma_theme_files_distinct(
    name: Seq<char>,
    detected: Seq<char>,
    target: Seq<char>,
    imgs: Seq<(Seq<char>, Seq<u8>)>,
    lang: Seq<char>,
    bold: bool,
)
    ensures
        built_theme(name, detected, target, imgs, lang, bold) matches Some(t) ==> {
            &&& forall|i: int| 0 <= i < t.items.len() ==> (#[trigger] t.items[i]).0 == cache_dir(target)
            &&& forall|i: int, j: int| 0 <= i < j < t.items.len() ==> t.items[i].1 != t.items[j].1
            &&& forall|i: int, j: int|
                0 <= i < j < t.key_previews.len() ==> t.key_previews[i].0 != t.key_previews[j].0
        },
{
    let m = language_mode(lang);
    let bs = bold_suffix(bold);
    lemma_theme_images_keys(m, bs, imgs);
    let r = theme_images(m, bs, imgs);
    if r.0.len() > 0 {
        let tdir = cache_dir(target);
        lemma_dict_items(tdir, r.0);
        let rest = dict_items(tdir, r.0);
        let items = seq![(tdir, "_big"@, Seq::<u8>::empty())] + rest;
        assert forall|i: int| 0 <= i < items.len() implies (#[trigger] items[i]).0 == tdir by {
            if i > 0 {
                assert(items[i] == rest[i - 1]);
            }
        }
        assert forall|i: int, j: int| 0 <= i < j < items.len() implies items[i].1 != items[j].1 by {
            assert(items[j] == rest[j - 1]);
            if i > 0 {
                assert(items[i] == rest[i - 1]);
            } else {
                let k = r.0[j - 1].0;
                assert(seq_ends_with(k, ".png"@));
                reveal_strlit("_big");
                reveal_strlit(".png");
                assert("_big"@[0] != ".png"@[0]);
                if k == "_big"@ {
                    assert(k.subrange(0, 4) =~= ".png"@);
                    assert(k[0] == ".png"@[0]);
                }
            }
        }
    }
}

// ---------------------------------------------------------------------------
// Which files a theme writes for the Ukrainian keypad
// ---------------------------------------------------------------------------

/// The map has an entry with key `k`.
pub open spec fn has_key(dict: Seq<(Seq<char>, Seq<u8>)>, k: Seq<char>) -> bool {
    exists|j: int| 0 <= j < dict.len() && #[trigger] dict[j].0 == k
}

proof fn lemma_insert_has_keys(dict: Seq<(Seq<char>, Seq<u8>)>, k: Seq<char>, v: Seq<u8>, x: Seq<char>)
    ensures
        has_key(dict_insert(dict, k, v), k),
        has_key(dict, x) ==> has_key(dict_insert(dict, k, v), x),
{
    lemma_find_key(dict, k);
    let r = dict_insert(dict, k, v);
    let i = find_key(dict, k);
    if i >= 0 {
        assert(r[i].0 == k);
    } else {
        assert(r[dict.len() as int].0 == k);
    }
    if has_key(dict, x) {
        let j = choose|j: int| 0 <= j < dict.len() && #[trigger] dict[j].0 == x;
        if i >= 0 && j == i {
            assert(r[j].0 == x);
        } else {
            assert(r[j].0 == x);
        }
    }
}

proof fn lemma_insert_all_has_keys(
    dict: Seq<(Seq<char>, Seq<u8>)>,
    names: Seq<Seq<char>>,
    v: Seq<u8>,
    x: Seq<char>,
)
    ensures
        names.contains(x) || has_key(dict, x) ==> has_key(dict_insert_all(dict, names, v), x),
    decreases names.len(),
{
    if names.len() > 0 {
        let pre = dict_insert_all(dict, names.drop_last(), v);
        lemma_insert_all_has_keys(dict, names.drop_last(), v, x);
        lemma_insert_has_keys(pre, names.last(), v, x);
        if names.contains(x) && x != names.last() {
            let j = choose|j: int| 0 <= j < names.len() && names[j] == x;
            assert(names.drop_last()[j] == x);
        }
    }
}

proof fn lemma_theme_images_keys_kept(
    m: KeypadLanguage,
    bs: Seq<char>,
    imgs: Seq<(Seq<char>, Seq<u8>)>,
    i: int,
    d: Seq<char>,
    x: Seq<char>,
)
    requires
        0 <= i < imgs.len(),
        image_key(imgs[i].0).0 == Some(d),
        digit_variants(m, d, image_key(imgs[i].0).1, bs).contains(x),
    ensures
        has_key(theme_images(m, bs, imgs).0, x),
    decreases imgs.len(),
{
    let prev = theme_images(m, bs, imgs.drop_last());
    let last = imgs.last();
    let key = image_key(last.0);
    if i < imgs.len() - 1 {
        assert(imgs.drop_last()[i] == imgs[i]);
        lemma_theme_images_keys_kept(m, bs, imgs.drop_last(), i, d, x);
        match key.0 {
            Some(d2) => {
                lemma_insert_all_has_keys(prev.0, digit_variants(m, d2, key.1, bs), last.1, x);
            },
            None => {},
        }
    } else {
        lemma_insert_all_has_keys(prev.0, digit_variants(m, d, key.1, bs), last.1, x);
    }
}

proof fn lemma_prefixes_contain(
    m: KeypadLanguage,
    ps: Seq<Seq<char>>,
    d: Seq<char>,
    bs: Seq<char>,
    j: int,
    x: Seq<char>,
)
    requires
        0 <= j < ps.len(),
        prefix_variants(m, ps[j], d, bs).contains(x),
    ensures
        prefixes_variants(m, ps, d, bs).contains(x),
    decreases ps.len(),
{
    let pre = prefixes_variants(m, ps.drop_last(), d, bs);
    let tail = prefix_variants(m, ps.last(), d, bs);
    if j < ps.len() - 1 {
        assert(ps.drop_last()[j] == ps[j]);
        lemma_prefixes_contain(m, ps.drop_last(), d, bs, j, x);
        let k = choose|k: int| 0 <= k < pre.len() && pre[k] == x;
        assert((pre + tail)[k] == x);
    } else {
        let k = choose|k: int| 0 <= k < tail.len() && tail[k] == x;
        assert((pre + tail)[pre.len() + k] == x);
    }
}

/// The file name of key `d` with language prefix `p`, letters `sub` and
/// bold suffix `bs`.
pub open spec fn lettered_name(p: Seq<char>, d: Seq<char>, sub: Seq<char>, bs: Seq<char>) -> Seq<char> {
    p + "-"@ + d + "-"@ + sub + "--white"@ + bs + ".png"@
}

proof fn lemma_ukrainian_variants(p: Seq<char>, d: Seq<char>, sub: Option<Seq<char>>, bs: Seq<char>)
    requires
        p == "uk"@ || p == "other"@ || p == "en"@,
        subtext_uk(d).len() > 0,
    ensures
        digit_variants(KeypadLanguage::Ukrainian, d, sub, bs).contains(
            lettered_name(p, d, subtext_uk(d), bs),
        ),
        remove_spaces(subtext_uk(d)) != subtext_uk(d) ==> digit_variants(
            KeypadLanguage::Ukrainian,
            d,
            sub,
            bs,
        ).contains(lettered_name(p, d, remove_spaces(subtext_uk(d)), bs)),
{
    let m = KeypadLanguage::Ukrainian;
    let uk = subtext_uk(d);
    let base = variant_names(p, d, ""@, bs);
    let ov = optional_variants(p, d, uk, bs);
    let en = optional_variants(p, d, subtext_en(d), bs);
    let pv = prefix_variants(m, p, d, bs);
    assert(pv == base + (ov + en));
    assert(ov == variant_names(p, d, uk, bs));
    assert(ov[0] == lettered_name(p, d, uk, bs));
    assert(pv[base.len() as int] == ov[0]);
    let ps = mode_prefixes(m);
    let j: int = if p == "uk"@ {
        0
    } else if p == "other"@ {
        1
    } else {
        2
    };
    assert(ps[j] == p);
    lemma_prefixes_contain(m, ps, d, bs, j, lettered_name(p, d, uk, bs));
    let all = prefixes_variants(m, ps, d, bs);
    let rest = match sub {
        Some(s) => if s.len() > 0 {
            subtext_variants(s, d, bs)
        } else {
            seq![]
        },
        None => seq![],
    };
    assert(digit_variants(m, d, sub, bs) == all + rest);
    let k = choose|k: int| 0 <= k < all.len() && all[k] == lettered_name(p, d, uk, bs);
    assert((all + rest)[k] == all[k]);
    if remove_spaces(uk) != uk {
        let x = lettered_name(p, d, remove_spaces(uk), bs);
        assert(ov[1] == x);
        assert(pv[base.len() + 1int] == x);
        lemma_prefixes_contain(m, ps, d, bs, j, x);
        let k2 = choose|k2: int| 0 <= k2 < all.len() && all[k2] == x;
        assert((all + rest)[k2] == all[k2]);
    }
}

/// For the Ukrainian keypad, every image of a key that bears letters on the
/// Ukrainian keypad is written, in the cache directory of the target
/// version, under the names with the Ukrainian letters for each of the
/// prefixes `uk`, `other` and `en`: `uk-2-А Б В Г Ґ--white.png` for key 2,
/// and the same without spaces, with `-bold` before `.png` in bold themes.
pub proof fn lemma_ukrainian_letters_written(
    name: Seq<char>,
    detected: Seq<char>,
    target: Seq<char>,
    imgs: Seq<(Seq<char>, Seq<u8>)>,
    lang: Seq<char>,
    bold: bool,
    i: int,
    d: Seq<char>,
    p: Seq<char>,
)
    requires
        language_mode(lang) == KeypadLanguage::Ukrainian,
        0 <= i < imgs.len(),
        image_key(imgs[i].0).0 == Some(d),
        subtext_uk(d).len() > 0,
        p == "uk"@ || p == "other"@ || p == "en"@,
    ensures
        built_theme(name, detected, target, imgs, lang, bold) is Some,
        ({
            let t = built_theme(name, detected, target, imgs, lang, bold)->0;
            let with_spaces = lettered_name(p, d, subtext_uk(d), bold_suffix(bold));
            let without = lettered_name(p, d, remove_spaces(subtext_uk(d)), bold_suffix(bold));
            &&& exists|j: int|
                0 <= j < t.items.len() && #[trigger] t.items[j].1 == with_spaces && t.items[j].0
                    == cache_dir(target)
            &&& remove_spaces(subtext_uk(d)) != subtext_uk(d) ==> exists|j: int|
                0 <= j < t.items.len() && #[trigger] t.items[j].1 == without && t.items[j].0
                    == cache_dir(target)
        }),
{
    let m = KeypadLanguage::Ukrainian;
    let bs = bold_suffix(bold);
    let key = image_key(imgs[i].0);
    let r = theme_images(m, bs, imgs);
    let uk = subtext_uk(d);
    lemma_ukrainian_variants(p, d, key.1, bs);
    let x = lettered_name(p, d, uk, bs);
    lemma_theme_images_keys_kept(m, bs, imgs, i, d, x);
    let jx = choose|j: int| 0 <= j < r.0.len() && #[trigger] r.0[j].0 == x;
    assert(r.0.len() > 0);
    let tdir = cache_dir(target);
    lemma_dict_items(tdir, r.0);
    let rest = dict_items(tdir, r.0);
    let t = built_theme(name, detected, target, imgs, lang, bold)->0;
    assert(t.items == seq![(tdir, "_big"@, Seq::<u8>::empty())] + rest);
    assert(t.items[jx + 1] == rest[jx]);
    assert(t.items[jx + 1].1 == x);
    if remove_spaces(uk) != uk {
        let y = lettered_name(p, d, remove_spaces(uk), bs);
        lemma_theme_images_keys_kept(m, bs, imgs, i, d, y);
        let jy = choose|j: int| 0 <= j < r.0.len() && #[trigger] r.0[j].0 == y;
        assert(t.items[jy + 1] == rest[jy]);
        assert(t.items[jy + 1].1 == y);
    }
}

/// The letters under the keys of the Ukrainian keypad.
pub proof fn lemma_ukrainian_keypad_letters()
    ensures
        subtext_uk(seq!['0']) == "+"@,
        subtext_uk(seq!['1']) == ""@,
        subtext_uk(seq!['2']) == "А Б В Г Ґ"@,
        subtext_uk(seq!['3']) == "Д Е Є Ж З"@,
        subtext_uk(seq!['4']) == "И І Ї Й"@,
        subtext_uk(seq!['5']) == "К Л М Н"@,
        subtext_uk(seq!['6']) == "О П Р С"@,
        subtext_uk(seq!['7']) == "Т У Ф Х"@,
        subtext_uk(seq!['8']) == "Ц Ч Ш Щ"@,
        subtext_uk(seq!['9']) == "Ь Ю Я"@,
{
    reveal(subtext_uk);
}

/// The patterns that read an image name: an optional language prefix, the
/// key symbol and the letters after it; any key symbol at all; and the
/// `-white` / `--white-bold` suffix (any case) removed before reading.
pub proof fn lemma_image_name_patterns()
    ensures
        digit_pattern() == r"(?:^[a-zA-Z]+-)?([0-9*#])(?:-([^-\n]+))?"@,
        simple_digit_pattern() == r"([0-9*#])"@,
        white_suffix_pattern() == r"(?i)--?white(?:-bold)?$"@,
        bold_suffix(true) == "-bold"@,
        bold_suffix(false) == ""@,
{
}

} // verus!
