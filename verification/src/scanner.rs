//! Recognising Apple Wallet card hashes and card names in device log lines,
//! and keeping the list of saved cards.

use vstd::prelude::*;

use base64::Engine;

use crate::pattern::{capture_group, regex_capture};
use crate::text::{
    chars_eq, chars_of, contains_str, lowercase_chars, opt_chars, push_decimal, push_str,
    seq_contains, seq_starts_with, starts_with_str, string_of, trim_chars, trim_class,
    trim_end_chars, trim_end_class, lowercase, utf8_len, utf8_len_upto, decimal,
    ascii_lower, is_ascii_text, lemma_utf8_len_lower, trim_start_class, in_class, CharClass,
};

verus! {

// ---------------------------------------------------------------------------
// Base64 decoding (the `base64` crate)
// ---------------------------------------------------------------------------

/// What `base64::engine::general_purpose::STANDARD.decode` returns for the
/// given input bytes: `Some` of the decoded bytes, or `None` when it reports
/// an error. The engine's rules (alphabet, padding, trailing bits) are the
/// crate's; the result is only named here.
pub uninterp spec fn base64_standard_decode(input: Seq<u8>) -> Option<Seq<u8>>;

/// Calls `base64::engine::general_purpose::STANDARD.decode`. Trusted: the
/// result is taken to be `base64_standard_decode(input)`.
#[verifier::external_body]
fn decode_base64_standard(input: &[u8]) -> (r: Option<Vec<u8>>)
    ensures
        match r {
            Some(v) => base64_standard_decode(input@) == Some(v@),
            None => base64_standard_decode(input@) is None,
        },
{
    base64::engine::general_purpose::STANDARD.decode(input).ok()
}

// ---------------------------------------------------------------------------
// Card hash validation
// ---------------------------------------------------------------------------

/// A hash candidate with surrounding quotes, then trailing `.` and `,`, removed.
pub open spec fn card_hash_core(h: Seq<char>) -> Seq<char> {
    trim_end_class(trim_class(h, CharClass::Quote), CharClass::EndPunct)
}

/// Characters allowed in a card hash: the standard and URL-safe Base64 alphabets.
pub open spec fn is_hash_alphabet(c: char) -> bool {
    ('a' <= c && c <= 'z') || ('A' <= c && c <= 'Z') || ('0' <= c && c <= '9') || c == '+' || c
        == '/' || c == '-' || c == '_' || c == '='
}

/// Number of occurrences of `c` in `s`.
pub open spec fn count_char(s: Seq<char>, c: char) -> nat
    decreases s.len(),
{
    if s.len() == 0 {
        0
    } else {
        count_char(s.drop_last(), c) + if s.last() == c {
            1nat
        } else {
            0nat
        }
    }
}

/// Fragments of system asset and bundle identifiers that never occur in a card hash.
pub open spec fn has_system_keyword(lower: Seq<char>) -> bool {
    ||| seq_contains(lower, "mobileasset"@)
    ||| seq_contains(lower, "com_apple"@)
    ||| seq_contains(lower, "com."@)
    ||| seq_contains(lower, "apple."@)
    ||| seq_contains(lower, "curtain"@)
    ||| seq_contains(lower, "binder"@)
    ||| seq_contains(lower, "optimizer"@)
    ||| seq_contains(lower, "system"@)
    ||| seq_contains(lower, "uaf"@)
    ||| seq_contains(lower, "siri"@)
    ||| seq_contains(lower, "dialog"@)
    ||| seq_contains(lower, "planner"@)
    ||| seq_contains(lower, "linguistic"@)
    ||| seq_contains(lower, "timing"@)
    ||| seq_contains(lower, "model"@)
    ||| seq_contains(lower, "translation"@)
    ||| seq_contains(lower, "visual"@)
    ||| seq_contains(lower, "device"@)
    ||| seq_contains(lower, "override"@)
    ||| seq_contains(lower, "motion"@)
    ||| seq_contains(lower, "search"@)
}

/// The textual checks on a trimmed candidate: 27/28 (SHA-1) or 43/44
/// (SHA-256) Base64 characters, at most one `_` and two `-`, no system
/// keyword, and `=` only among the last two characters. Every character of
/// an accepted candidate is ASCII, so its length in characters is its length
/// in bytes.
pub open spec fn card_hash_shape(t: Seq<char>) -> bool {
    &&& (t.len() == 27 || t.len() == 28 || t.len() == 43 || t.len() == 44)
    &&& forall|i: int| 0 <= i < t.len() ==> is_hash_alphabet(#[trigger] t[i])
    &&& count_char(t, '_') <= 1
    &&& count_char(t, '-') <= 2
    &&& !has_system_keyword(lowercase(t))
    &&& forall|i: int| 0 <= i < t.len() - 2 ==> #[trigger] t[i] != '='
}

/// URL-safe Base64 characters mapped to the standard alphabet.
pub open spec fn to_standard_alphabet(c: char) -> char {
    if c == '-' {
        '+'
    } else if c == '_' {
        '/'
    } else {
        c
    }
}

/// Number of `=` needed to bring a length up to a multiple of four.
pub open spec fn padding_len(n: nat) -> nat {
    if n % 4 == 0 {
        0
    } else {
        (4 - n % 4) as nat
    }
}

/// The bytes handed to the Base64 decoder for a trimmed candidate.
pub open spec fn normalized_base64(t: Seq<char>) -> Seq<u8> {
    t.map_values(|c: char| to_standard_alphabet(c) as u8) + Seq::new(
        padding_len(t.len()),
        |i: int| 61u8,
    )
}

/// Hashes that the device logs for placeholder passes.
pub open spec fn is_dummy_hash(t: Seq<char>) -> bool {
    ||| t == "M6nDwZrkYbFlsodLgCbvyFZQ1cc="@
    ||| t == "kJL-D0rr-SZhbj2c8nK-OQ9hCMY="@
    ||| t == "hwAtAmHKYwsQrJbT5cTNDsaxVME="@
    ||| t == "M6nDwZrkYbFlsodLgCbvyFZQ1cc"@
    ||| t == "kJL-D0rr-SZhbj2c8nK-OQ9hCMY"@
    ||| t == "hwAtAmHKYwsQrJbT5cTNDsaxVME"@
}

/// A decoded digest that looks like a SHA-1 or SHA-256 value: 20 or 32
/// bytes, not all equal, with bytes both at or above 128 and below 128,
/// and at least 12 distinct byte values.
pub open spec fn digest_looks_random(d: Seq<u8>) -> bool {
    &&& (d.len() == 20 || d.len() == 32)
    &&& !(forall|i: int| 0 <= i < d.len() ==> #[trigger] d[i] == d[0])
    &&& (exists|i: int| 0 <= i < d.len() && #[trigger] d[i] >= 128)
    &&& (exists|i: int| 0 <= i < d.len() && #[trigger] d[i] < 128)
    &&& d.to_set().len() >= 12
}

/// The checks made after decoding: on the digest `d` and the trimmed text `t`.
pub open spec fn decoded_card_hash_ok(d: Seq<u8>, t: Seq<char>) -> bool {
    digest_looks_random(d) && !is_dummy_hash(t)
}

/// `h` is accepted as an Apple Wallet card hash.
pub open spec fn valid_card_hash(h: Seq<char>) -> bool {
    let t = card_hash_core(h);
    &&& card_hash_shape(t)
    &&& match base64_standard_decode(normalized_base64(t)) {
        Some(d) => decoded_card_hash_ok(d, t),
        None => false,
    }
}

fn is_hash_alphabet_char(c: char) -> (b: bool)
    ensures
        b == is_hash_alphabet(c),
{
    ('a' <= c && c <= 'z') || ('A' <= c && c <= 'Z') || ('0' <= c && c <= '9') || c == '+' || c
        == '/' || c == '-' || c == '_' || c == '='
}

fn count_of(s: &[char], c: char) -> (n: usize)
    ensures
        n == count_char(s@, c),
{
    let mut n: usize = 0;
    let mut i: usize = 0;
    while i < s.len()
        invariant
            i <= s@.len(),
            n <= i,
            n == count_char(s@.take(i as int), c),
        decreases s@.len() - i,
    {
        assert(s@.take(i + 1).drop_last() =~= s@.take(i as int));
        if s[i] == c {
            n = n + 1;
        }
        i = i + 1;
    }
    assert(s@.take(s@.len() as int) =~= s@);
    n
}

fn has_system_keyword_exec(lower: &[char]) -> (b: bool)
    ensures
        b == has_system_keyword(lower@),
{
    contains_str(lower, "mobileasset") || contains_str(lower, "com_apple") || contains_str(
        lower,
        "com.",
    ) || contains_str(lower, "apple.") || contains_str(lower, "curtain") || contains_str(
        lower,
        "binder",
    ) || contains_str(lower, "optimizer") || contains_str(lower, "system") || contains_str(
        lower,
        "uaf",
    ) || contains_str(lower, "siri") || contains_str(lower, "dialog") || contains_str(
        lower,
        "planner",
    ) || contains_str(lower, "linguistic") || contains_str(lower, "timing") || contains_str(
        lower,
        "model",
    ) || contains_str(lower, "translation") || contains_str(lower, "visual") || contains_str(
        lower,
        "device",
    ) || contains_str(lower, "override") || contains_str(lower, "motion") || contains_str(
        lower,
        "search",
    )
}

fn card_hash_shape_exec(t: &[char]) -> (b: bool)
    ensures
        b == card_hash_shape(t@),
{
    let len = t.len();
    if len != 27 && len != 28 && len != 43 && len != 44 {
        return false;
    }
    let mut i: usize = 0;
    while i < len
        invariant
            len == t@.len(),
            i <= len,
            forall|j: int| 0 <= j < i ==> is_hash_alphabet(#[trigger] t@[j]),
        decreases len - i,
    {
        if !is_hash_alphabet_char(t[i]) {
            return false;
        }
        i = i + 1;
    }
    if count_of(t, '_') > 1 || count_of(t, '-') > 2 {
        return false;
    }
    let lower = lowercase_chars(t);
    if has_system_keyword_exec(lower.as_slice()) {
        return false;
    }
    let mut k: usize = 0;
    while k < len - 2
        invariant
            len == t@.len(),
            len >= 27,
            k <= len - 2,
            forall|j: int| 0 <= j < k ==> #[trigger] t@[j] != '=',
        decreases len - 2 - k,
    {
        if t[k] == '=' {
            return false;
        }
        k = k + 1;
    }
    true
}

/// The Base64 text for the decoder: `-`/`_` mapped to `+`/`/`, padded with `=`.
fn normalize_base64(t: &[char]) -> (b: Vec<u8>)
    requires
        forall|i: int| 0 <= i < t@.len() ==> is_hash_alphabet(#[trigger] t@[i]),
    ensures
        b@ == normalized_base64(t@),
{
    let mut b: Vec<u8> = Vec::new();
    let mut i: usize = 0;
    while i < t.len()
        invariant
            i <= t@.len(),
            forall|j: int| 0 <= j < t@.len() ==> is_hash_alphabet(#[trigger] t@[j]),
            b@ == t@.take(i as int).map_values(|c: char| to_standard_alphabet(c) as u8),
        decreases t@.len() - i,
    {
        let c = t[i];
        let m: char = if c == '-' {
            '+'
        } else if c == '_' {
            '/'
        } else {
            c
        };
        b.push(m as u8);
        i = i + 1;
        assert(b@ =~= t@.take(i as int).map_values(|c: char| to_standard_alphabet(c) as u8));
    }
    assert(t@.take(t@.len() as int) =~= t@);
    let ghost body = b@;
    let pad: usize = if t.len() % 4 == 0 {
        0
    } else {
        4 - t.len() % 4
    };
    let mut k: usize = 0;
    while k < pad
        invariant
            k <= pad,
            pad == padding_len(t@.len()),
            b@ == body + Seq::new(k as nat, |j: int| 61u8),
        decreases pad - k,
    {
        b.push(61u8);
        k = k + 1;
        assert(b@ =~= body + Seq::new(k as nat, |j: int| 61u8));
    }
    b
}

fn is_dummy_hash_exec(t: &[char]) -> (b: bool)
    ensures
        b == is_dummy_hash(t@),
{
    let t1 = chars_of("M6nDwZrkYbFlsodLgCbvyFZQ1cc=");
    let t2 = chars_of("kJL-D0rr-SZhbj2c8nK-OQ9hCMY=");
    let t3 = chars_of("hwAtAmHKYwsQrJbT5cTNDsaxVME=");
    let t4 = chars_of("M6nDwZrkYbFlsodLgCbvyFZQ1cc");
    let t5 = chars_of("kJL-D0rr-SZhbj2c8nK-OQ9hCMY");
    let t6 = chars_of("hwAtAmHKYwsQrJbT5cTNDsaxVME");
    chars_eq(t, t1.as_slice()) || chars_eq(t, t2.as_slice()) || chars_eq(t, t3.as_slice())
        || chars_eq(t, t4.as_slice()) || chars_eq(t, t5.as_slice()) || chars_eq(t, t6.as_slice())
}

/// Number of distinct values among the bytes of `d`.
fn distinct_byte_count(d: &[u8]) -> (n: usize)
    ensures
        n == d@.to_set().len(),
{
    let mut seen: Vec<u8> = Vec::new();
    let mut i: usize = 0;
    while i < d.len()
        invariant
            i <= d@.len(),
            seen@.no_duplicates(),
            forall|x: u8| #[trigger] seen@.contains(x) == d@.take(i as int).contains(x),
        decreases d@.len() - i,
    {
        let b = d[i];
        let mut found = false;
        let mut j: usize = 0;
        while j < seen.len()
            invariant
                j <= seen@.len(),
                found == (exists|k: int| 0 <= k < j && #[trigger] seen@[k] == b),
            decreases seen@.len() - j,
        {
            if seen[j] == b {
                found = true;
            }
            j = j + 1;
        }
        let ghost old_seen = seen@;
        let ghost old_take = d@.take(i as int);
        if !found {
            seen.push(b);
            assert(seen@.no_duplicates()) by {
                assert forall|p: int, q: int|
                    0 <= p < seen@.len() && 0 <= q < seen@.len() && p != q implies seen@[p]
                    != seen@[q] by {
                    if p == seen@.len() - 1 {
                        assert(old_seen[q] == seen@[q]);
                    } else if q == seen@.len() - 1 {
                        assert(old_seen[p] == seen@[p]);
                    }
                }
            }
        }
        i = i + 1;
        assert(d@.take(i as int) =~= old_take.push(b));
        assert forall|x: u8| #[trigger] seen@.contains(x) == d@.take(i as int).contains(x) by {
            if x == b {
                assert(d@.take(i as int)[i - 1] == b);
                if found {
                    let k = choose|k: int| 0 <= k < old_seen.len() && #[trigger] old_seen[k] == b;
                    assert(seen@[k] == b);
                } else {
                    assert(seen@[seen@.len() - 1] == b);
                }
            } else {
                if seen@.contains(x) {
                    let k = choose|k: int| 0 <= k < seen@.len() && #[trigger] seen@[k] == x;
                    assert(old_seen[k] == x);
                    assert(old_seen.contains(x));
                    let m = choose|m: int| 0 <= m < old_take.len() && #[trigger] old_take[m] == x;
                    assert(d@.take(i as int)[m] == x);
                }
                if d@.take(i as int).contains(x) {
                    let m = choose|m: int|
                        0 <= m < d@.take(i as int).len() && #[trigger] d@.take(i as int)[m] == x;
                    assert(old_take[m] == x);
                    assert(old_take.contains(x));
                    assert(old_seen.contains(x));
                    let k = choose|k: int| 0 <= k < old_seen.len() && #[trigger] old_seen[k] == x;
                    assert(seen@[k] == x);
                }
            }
        }
    }
    assert(d@.take(d@.len() as int) =~= d@);
    proof {
        seen@.unique_seq_to_set();
        assert(seen@.to_set() =~= d@.to_set());
    }
    seen.len()
}

/// The checks on a decoded candidate: `decoded` must look like a SHA-1 or
/// SHA-256 digest, and `trimmed` must not be a known placeholder hash.
pub fn check_decoded_card_hash(decoded: &[u8], trimmed: &[char]) -> (ok: bool)
    ensures
        ok == decoded_card_hash_ok(decoded@, trimmed@),
{
    let n = decoded.len();
    if n != 20 && n != 32 {
        return false;
    }
    let first = decoded[0];
    let mut all_same = true;
    let mut has_high = false;
    let mut has_low = false;
    let mut i: usize = 0;
    while i < n
        invariant
            n == decoded@.len(),
            i <= n,
            first == decoded@[0],
            all_same == (forall|j: int| 0 <= j < i ==> #[trigger] decoded@[j] == first),
            has_high == (exists|j: int| 0 <= j < i && #[trigger] decoded@[j] >= 128),
            has_low == (exists|j: int| 0 <= j < i && #[trigger] decoded@[j] < 128),
        decreases n - i,
    {
        let b = decoded[i];
        if b != first {
            all_same = false;
        }
        if b >= 128 {
            has_high = true;
        }
        if b < 128 {
            has_low = true;
        }
        i = i + 1;
    }
    if all_same || !has_high || !has_low {
        return false;
    }
    if distinct_byte_count(decoded) < 12 {
        return false;
    }
    !is_dummy_hash_exec(trimmed)
}

/// Is `h` an Apple Wallet card hash? Quotes and trailing `.`/`,` around it
/// are ignored; the rest must be a Base64 SHA-1 or SHA-256 digest that looks
/// random and is no system identifier or placeholder.
pub fn is_valid_card_hash(h: &str) -> (ok: bool)
    ensures
        ok == valid_card_hash(h@),
{
    let hv = chars_of(h);
    let q = trim_chars(hv.as_slice(), CharClass::Quote);
    let t = trim_end_chars(q.as_slice(), CharClass::EndPunct);
    if !card_hash_shape_exec(t.as_slice()) {
        return false;
    }
    let b64 = normalize_base64(t.as_slice());
    match decode_base64_standard(b64.as_slice()) {
        Some(decoded) => check_decoded_card_hash(decoded.as_slice(), t.as_slice()),
        None => false,
    }
}

// ---------------------------------------------------------------------------
// Log lines
// ---------------------------------------------------------------------------

/// The pattern that finds a pass description in a log line; group 1 is the name.
pub open spec fn description_pattern() -> Seq<char> {
    r#"(?i)(?:description|localizedDescription|passName|title)\s*[:=]\s*['"]([^'"]+)['"]"#@
}

/// The patterns tried in turn to find a card hash in a log line; group 1 is the hash.
pub open spec fn card_pattern(k: int) -> Seq<char> {
    if k == 0 {
        r"/(?:Cards|Passes/Cards)/([A-Za-z0-9+/_-]{27,44})(?:\.pkpass|\.cache|\.pkcache|/|\s|\x22|'|\)|,|$)"@
    } else if k == 1 {
        r"/([A-Za-z0-9+/_-]{27,44})\.(?:pkpass|cache|pkcache)"@
    } else if k == 2 {
        r"(?:^|[^A-Za-z0-9+/_-])([A-Za-z0-9+/_-]{27}=)(?:$|[^A-Za-z0-9+/_-])"@
    } else {
        r"(?i)(?:card[_\s]?(?:hash|id)|pass[_\s]?(?:hash|id)|unique[_\s]?id)\s*[:=]\s*['\x22]?([A-Za-z0-9+=_-]{27,44})"@
    }
}

/// Number of card-hash patterns.
pub open spec fn card_pattern_count() -> int {
    4
}

fn card_pattern_str(k: usize) -> (p: &'static str)
    requires
        k < 4,
    ensures
        p@ == card_pattern(k as int),
{
    if k == 0 {
        r"/(?:Cards|Passes/Cards)/([A-Za-z0-9+/_-]{27,44})(?:\.pkpass|\.cache|\.pkcache|/|\s|\x22|'|\)|,|$)"
    } else if k == 1 {
        r"/([A-Za-z0-9+/_-]{27,44})\.(?:pkpass|cache|pkcache)"
    } else if k == 2 {
        r"(?:^|[^A-Za-z0-9+/_-])([A-Za-z0-9+/_-]{27}=)(?:$|[^A-Za-z0-9+/_-])"
    } else {
        r"(?i)(?:card[_\s]?(?:hash|id)|pass[_\s]?(?:hash|id)|unique[_\s]?id)\s*[:=]\s*['\x22]?([A-Za-z0-9+=_-]{27,44})"
    }
}

/// A lower-cased log line that comes from the Wallet and PassKit processes.
pub open spec fn mentions_wallet(lower: Seq<char>) -> bool {
    ||| seq_contains(lower, "passd"@)
    ||| seq_contains(lower, "passbook"@)
    ||| seq_contains(lower, "passkit"@)
    ||| seq_contains(lower, "stockholm"@)
    ||| seq_contains(lower, "nanopassd"@)
    ||| seq_contains(lower, "npkcompanion"@)
    ||| seq_contains(lower, "wallet"@)
    ||| seq_contains(lower, "/cards/"@)
    ||| seq_contains(lower, "/passes/"@)
}

fn mentions_wallet_exec(lower: &[char]) -> (b: bool)
    ensures
        b == mentions_wallet(lower@),
{
    contains_str(lower, "passd") || contains_str(lower, "passbook") || contains_str(
        lower,
        "passkit",
    ) || contains_str(lower, "stockholm") || contains_str(lower, "nanopassd") || contains_str(
        lower,
        "npkcompanion",
    ) || contains_str(lower, "wallet") || contains_str(lower, "/cards/") || contains_str(
        lower,
        "/passes/",
    )
}

/// The card hash that a captured group stands for: white space, quotes and
/// trailing `.`/`,` trimmed; accepted only when it is a valid card hash; a
/// 27-byte hash gets its `=` padding back.
pub open spec fn hash_from_capture(m: Seq<char>) -> Option<Seq<char>> {
    let h = card_hash_core(trim_class(m, CharClass::WhiteSpace));
    if valid_card_hash(h) {
        Some(
            if utf8_len(h) == 27 {
                h.push('=')
            } else {
                h
            },
        )
    } else {
        None
    }
}

/// The first card hash found by the patterns `k`, `k + 1`, ... in `line`.
pub open spec fn hash_from_patterns(line: Seq<char>, k: int) -> Option<Seq<char>>
    decreases card_pattern_count() - k,
{
    if k < 0 || k >= card_pattern_count() {
        None
    } else {
        match regex_capture(card_pattern(k), line, 1) {
            Some(m) => match hash_from_capture(m) {
                Some(h) => Some(h),
                None => hash_from_patterns(line, k + 1),
            },
            None => hash_from_patterns(line, k + 1),
        }
    }
}

/// The card hash that a log line reveals, if any.
pub open spec fn card_hash_in_line(line: Seq<char>) -> Option<Seq<char>> {
    if mentions_wallet(lowercase(line)) {
        hash_from_patterns(line, 0)
    } else {
        None
    }
}

// ---------------------------------------------------------------------------
// Padded and unpadded hashes
// ---------------------------------------------------------------------------

/// A Base64 hash character other than the padding `=`.
pub open spec fn unpadded_hash_char(c: char) -> bool {
    is_hash_alphabet(c) && c != '='
}

/// No `=` stands before the last character.
pub open spec fn padding_at_end_only(r: Seq<char>) -> bool {
    forall|i: int| 0 <= i < r.len() - 1 ==> #[trigger] r[i] != '='
}

proof fn lemma_count_push(s: Seq<char>, c: char, d: char)
    requires
        c != d,
    ensures
        count_char(s.push(d), c) == count_char(s, c),
{
    assert(s.push(d).drop_last() =~= s);
}

/// Appending a character that does not end `kw` neither makes nor breaks an
/// occurrence of `kw`.
proof fn lemma_contains_push(x: Seq<char>, d: char, kw: Seq<char>)
    requires
        kw.len() > 0,
        kw.last() != d,
    ensures
        seq_contains(x.push(d), kw) == seq_contains(x, kw),
{
    if seq_contains(x, kw) {
        let i = choose|i: int|
            0 <= i && i + kw.len() <= x.len() && #[trigger] x.subrange(i, i + kw.len()) == kw;
        assert(x.push(d).subrange(i, i + kw.len()) =~= x.subrange(i, i + kw.len()));
    }
    if seq_contains(x.push(d), kw) {
        let i = choose|i: int|
            0 <= i && i + kw.len() <= x.push(d).len() && #[trigger] x.push(d).subrange(
                i,
                i + kw.len(),
            ) == kw;
        if i + kw.len() == x.len() + 1 {
            assert(x.push(d).subrange(i, i + kw.len())[kw.len() - 1] == d);
        }
        assert(x.push(d).subrange(i, i + kw.len()) =~= x.subrange(i, i + kw.len()));
    }
}

proof fn lemma_keyword_push(x: Seq<char>)
    ensures
        has_system_keyword(x.push('=')) == has_system_keyword(x),
{
    reveal_strlit("mobileasset");
    reveal_strlit("com_apple");
    reveal_strlit("com.");
    reveal_strlit("apple.");
    reveal_strlit("curtain");
    reveal_strlit("binder");
    reveal_strlit("optimizer");
    reveal_strlit("system");
    reveal_strlit("uaf");
    reveal_strlit("siri");
    reveal_strlit("dialog");
    reveal_strlit("planner");
    reveal_strlit("linguistic");
    reveal_strlit("timing");
    reveal_strlit("model");
    reveal_strlit("translation");
    reveal_strlit("visual");
    reveal_strlit("device");
    reveal_strlit("override");
    reveal_strlit("motion");
    reveal_strlit("search");
    lemma_contains_push(x, '=', "mobileasset"@);
    lemma_contains_push(x, '=', "com_apple"@);
    lemma_contains_push(x, '=', "com."@);
    lemma_contains_push(x, '=', "apple."@);
    lemma_contains_push(x, '=', "curtain"@);
    lemma_contains_push(x, '=', "binder"@);
    lemma_contains_push(x, '=', "optimizer"@);
    lemma_contains_push(x, '=', "system"@);
    lemma_contains_push(x, '=', "uaf"@);
    lemma_contains_push(x, '=', "siri"@);
    lemma_contains_push(x, '=', "dialog"@);
    lemma_contains_push(x, '=', "planner"@);
    lemma_contains_push(x, '=', "linguistic"@);
    lemma_contains_push(x, '=', "timing"@);
    lemma_contains_push(x, '=', "model"@);
    lemma_contains_push(x, '=', "translation"@);
    lemma_contains_push(x, '=', "visual"@);
    lemma_contains_push(x, '=', "device"@);
    lemma_contains_push(x, '=', "override"@);
    lemma_contains_push(x, '=', "motion"@);
    lemma_contains_push(x, '=', "search"@);
}

proof fn lemma_dummy_push(h: Seq<char>)
    requires
        h.len() == 27,
    ensures
        is_dummy_hash(h.push('=')) == is_dummy_hash(h),
{
    reveal_strlit("M6nDwZrkYbFlsodLgCbvyFZQ1cc=");
    reveal_strlit("kJL-D0rr-SZhbj2c8nK-OQ9hCMY=");
    reveal_strlit("hwAtAmHKYwsQrJbT5cTNDsaxVME=");
    reveal_strlit("M6nDwZrkYbFlsodLgCbvyFZQ1cc");
    reveal_strlit("kJL-D0rr-SZhbj2c8nK-OQ9hCMY");
    reveal_strlit("hwAtAmHKYwsQrJbT5cTNDsaxVME");
    assert("M6nDwZrkYbFlsodLgCbvyFZQ1cc="@ =~= "M6nDwZrkYbFlsodLgCbvyFZQ1cc"@.push('='));
    assert("kJL-D0rr-SZhbj2c8nK-OQ9hCMY="@ =~= "kJL-D0rr-SZhbj2c8nK-OQ9hCMY"@.push('='));
    assert("hwAtAmHKYwsQrJbT5cTNDsaxVME="@ =~= "hwAtAmHKYwsQrJbT5cTNDsaxVME"@.push('='));
    if h.push('=') == "M6nDwZrkYbFlsodLgCbvyFZQ1cc="@ {
        assert(h =~= h.push('=').drop_last());
        assert("M6nDwZrkYbFlsodLgCbvyFZQ1cc="@.drop_last() =~= "M6nDwZrkYbFlsodLgCbvyFZQ1cc"@);
    }
    if h == "M6nDwZrkYbFlsodLgCbvyFZQ1cc"@ {
        assert(h.push('=') =~= "M6nDwZrkYbFlsodLgCbvyFZQ1cc="@);
    }
    assert(h != "M6nDwZrkYbFlsodLgCbvyFZQ1cc="@);
    assert(h.push('=') != "M6nDwZrkYbFlsodLgCbvyFZQ1cc"@);
    if h.push('=') == "kJL-D0rr-SZhbj2c8nK-OQ9hCMY="@ {
        assert(h =~= h.push('=').drop_last());
        assert("kJL-D0rr-SZhbj2c8nK-OQ9hCMY="@.drop_last() =~= "kJL-D0rr-SZhbj2c8nK-OQ9hCMY"@);
    }
    if h == "kJL-D0rr-SZhbj2c8nK-OQ9hCMY"@ {
        assert(h.push('=') =~= "kJL-D0rr-SZhbj2c8nK-OQ9hCMY="@);
    }
    assert(h != "kJL-D0rr-SZhbj2c8nK-OQ9hCMY="@);
    assert(h.push('=') != "kJL-D0rr-SZhbj2c8nK-OQ9hCMY"@);
    if h.push('=') == "hwAtAmHKYwsQrJbT5cTNDsaxVME="@ {
        assert(h =~= h.push('=').drop_last());
        assert("hwAtAmHKYwsQrJbT5cTNDsaxVME="@.drop_last() =~= "hwAtAmHKYwsQrJbT5cTNDsaxVME"@);
    }
    if h == "hwAtAmHKYwsQrJbT5cTNDsaxVME"@ {
        assert(h.push('=') =~= "hwAtAmHKYwsQrJbT5cTNDsaxVME="@);
    }
    assert(h != "hwAtAmHKYwsQrJbT5cTNDsaxVME="@);
    assert(h.push('=') != "hwAtAmHKYwsQrJbT5cTNDsaxVME"@);
}

/// Text without quotes or end punctuation at either end is its own core.
proof fn lemma_core_plain(h: Seq<char>)
    requires
        h.len() > 0,
        !in_class(CharClass::Quote, h[0]),
        !in_class(CharClass::Quote, h.last()),
        !in_class(CharClass::EndPunct, h.last()),
    ensures
        card_hash_core(h) == h,
{
}

/// An unpadded 27-character hash and the same hash with `=` appended are
/// judged alike: one is accepted exactly when the other is.
pub proof fn lemma_padded_hash_alike(h: Seq<char>)
    requires
        h.len() == 27,
        forall|i: int| 0 <= i < h.len() ==> unpadded_hash_char(#[trigger] h[i]),
    ensures
        valid_card_hash(h.push('=')) == valid_card_hash(h),
{
    let p = h.push('=');
    assert(p[0] == h[0]);
    assert(unpadded_hash_char(h[0]));
    assert(unpadded_hash_char(h[26]));
    lemma_core_plain(h);
    lemma_core_plain(p);
    lemma_count_push(h, '_', '=');
    lemma_count_push(h, '-', '=');
    assert forall|i: int| 0 <= i < h.len() implies (#[trigger] h[i] as u32) < 128 by {
        assert(unpadded_hash_char(h[i]));
    }
    assert(is_ascii_text(h));
    assert forall|i: int| 0 <= i < p.len() implies (#[trigger] p[i] as u32) < 128 by {
        if i < 27 {
            assert(p[i] == h[i]);
            assert(unpadded_hash_char(h[i]));
        }
    }
    assert(is_ascii_text(p));
    let lh = h.map_values(|c: char| ascii_lower(c));
    assert(p.map_values(|c: char| ascii_lower(c)) =~= lh.push('='));
    lemma_keyword_push(lh);
    assert(lowercase(p) == lh.push('='));
    assert forall|i: int| 0 <= i < p.len() implies is_hash_alphabet(#[trigger] p[i]) by {
        if i < 27 {
            assert(p[i] == h[i]);
            assert(unpadded_hash_char(h[i]));
        }
    }
    assert forall|i: int| 0 <= i < h.len() implies is_hash_alphabet(#[trigger] h[i]) by {
        assert(unpadded_hash_char(h[i]));
    }
    assert forall|i: int| 0 <= i < p.len() - 2 implies #[trigger] p[i] != '=' by {
        assert(p[i] == h[i]);
        assert(unpadded_hash_char(h[i]));
    }
    assert forall|i: int| 0 <= i < h.len() - 2 implies #[trigger] h[i] != '=' by {
        assert(unpadded_hash_char(h[i]));
    }
    assert(card_hash_shape(p) == card_hash_shape(h));
    assert(normalized_base64(p) =~= normalized_base64(h));
    lemma_dummy_push(h);
}

proof fn lemma_trim_start_shrinks(s: Seq<char>, k: CharClass)
    ensures
        trim_start_class(s, k).len() <= s.len(),
        trim_start_class(s, k).len() == s.len() ==> trim_start_class(s, k) == s,
        forall|i: int|
            0 <= i < trim_start_class(s, k).len() ==> #[trigger] trim_start_class(s, k)[i]
                == s[i + (s.len() - trim_start_class(s, k).len())],
    decreases s.len(),
{
    if s.len() > 0 && in_class(k, s[0]) {
        lemma_trim_start_shrinks(s.drop_first(), k);
    }
}

proof fn lemma_trim_end_shrinks(s: Seq<char>, k: CharClass)
    ensures
        trim_end_class(s, k).len() <= s.len(),
        trim_end_class(s, k).len() == s.len() ==> trim_end_class(s, k) == s,
        forall|i: int|
            0 <= i < trim_end_class(s, k).len() ==> #[trigger] trim_end_class(s, k)[i] == s[i],
    decreases s.len(),
{
    if s.len() > 0 && in_class(k, s.last()) {
        lemma_trim_end_shrinks(s.drop_last(), k);
    }
}

/// A valid hash of 27 bytes is its own core and consists of hash characters.
proof fn lemma_valid_27(h: Seq<char>)
    requires
        valid_card_hash(h),
        utf8_len(h) == 27,
    ensures
        card_hash_core(h) == h,
        h.len() == 27,
        forall|i: int| 0 <= i < h.len() ==> is_hash_alphabet(#[trigger] h[i]),
{
    let q = trim_start_class(h, CharClass::Quote);
    let q2 = trim_end_class(q, CharClass::Quote);
    let t = trim_end_class(q2, CharClass::EndPunct);
    lemma_trim_start_shrinks(h, CharClass::Quote);
    lemma_trim_end_shrinks(q, CharClass::Quote);
    lemma_trim_end_shrinks(q2, CharClass::EndPunct);
    lemma_utf8_len_lower(h);
    assert(t == card_hash_core(h));
    assert(t.len() == h.len());
}

proof fn lemma_trim_start_push(h: Seq<char>, c: char, k: CharClass)
    ensures
        trim_start_class(h.push(c), k) == if trim_start_class(h, k).len() == 0 {
            trim_start_class(seq![c], k)
        } else {
            trim_start_class(h, k).push(c)
        },
    decreases h.len(),
{
    if h.len() == 0 {
        assert(h.push(c) =~= seq![c]);
    } else {
        assert(h.push(c)[0] == h[0]);
        if in_class(k, h[0]) {
            assert(h.push(c).drop_first() =~= h.drop_first().push(c));
            lemma_trim_start_push(h.drop_first(), c, k);
        }
    }
}

/// Quote characters around a hash are ignored: the hash is accepted with
/// them exactly when it is accepted without them.
pub proof fn lemma_quotes_ignored(q: char, h: Seq<char>)
    requires
        q == '\'' || q == '"',
    ensures
        valid_card_hash(seq![q] + h + seq![q]) == valid_card_hash(h),
{
    let x = seq![q] + h + seq![q];
    let k = CharClass::Quote;
    assert(x =~= (seq![q] + h).push(q));
    assert(x[0] == q);
    assert(x.drop_first() =~= h.push(q));
    assert(trim_start_class(x, k) == trim_start_class(h.push(q), k));
    lemma_trim_start_push(h, q, k);
    let ts = trim_start_class(h, k);
    if ts.len() == 0 {
        assert(seq![q].drop_first() =~= Seq::<char>::empty());
        assert(trim_start_class(seq![q], k) == trim_start_class(Seq::<char>::empty(), k));
        assert(trim_class(x, k) == trim_end_class(Seq::<char>::empty(), k));
        assert(trim_class(h, k) == trim_end_class(ts, k));
        assert(ts =~= Seq::<char>::empty());
    } else {
        assert(ts.push(q).drop_last() =~= ts);
        assert(trim_end_class(ts.push(q), k) == trim_end_class(ts, k));
    }
    assert(trim_class(x, k) == trim_class(h, k));
    assert(card_hash_core(x) == card_hash_core(h));
}

/// The hash taken from a capture is itself accepted as a card hash, when its
/// only `=` (if any) is its last character. (A 27-byte capture gets `=`
/// appended; this holds of it when the capture had no `=` of its own.)
pub proof fn lemma_capture_hash_valid(m: Seq<char>)
    ensures
        match hash_from_capture(m) {
            Some(r) => padding_at_end_only(r) ==> valid_card_hash(r),
            None => true,
        },
{
    let h = card_hash_core(trim_class(m, CharClass::WhiteSpace));
    if valid_card_hash(h) && utf8_len(h) == 27 {
        let r = h.push('=');
        if padding_at_end_only(r) {
            lemma_valid_27(h);
            assert forall|i: int| 0 <= i < h.len() implies unpadded_hash_char(#[trigger] h[i]) by {
                assert(r[i] == h[i]);
            }
            lemma_padded_hash_alike(h);
        }
    }
}

proof fn lemma_patterns_valid(line: Seq<char>, k: int)
    ensures
        match hash_from_patterns(line, k) {
            Some(r) => padding_at_end_only(r) ==> valid_card_hash(r),
            None => true,
        },
    decreases card_pattern_count() - k,
{
    if 0 <= k < card_pattern_count() {
        lemma_patterns_valid(line, k + 1);
        match regex_capture(card_pattern(k), line, 1) {
            Some(m) => {
                lemma_capture_hash_valid(m);
            },
            None => {},
        }
    }
}

/// Every hash found in a log line whose only `=` (if any) is its last
/// character is itself accepted as a card hash.
pub proof fn lemma_line_hash_valid(line: Seq<char>)
    ensures
        match card_hash_in_line(line) {
            Some(r) => padding_at_end_only(r) ==> valid_card_hash(r),
            None => true,
        },
{
    lemma_patterns_valid(line, 0);
}

/// Lines from the Wallet and PassKit processes are the ones searched: a
/// line whose lower-cased text holds `passd`, `passbook`, `passkit`,
/// `stockholm`, `nanopassd`, `npkcompanion`, `wallet`, `/cards/` or
/// `/passes/` gives the first valid hash that the patterns, tried in turn,
/// capture in it (`=`-padded when it has 27 bytes); any other line gives none.
pub proof fn lemma_wallet_lines_searched(line: Seq<char>)
    ensures
        ({
            let low = lowercase(line);
            let keyword = seq_contains(low, "passd"@) || seq_contains(low, "passbook"@)
                || seq_contains(low, "passkit"@) || seq_contains(low, "stockholm"@)
                || seq_contains(low, "nanopassd"@) || seq_contains(low, "npkcompanion"@)
                || seq_contains(low, "wallet"@) || seq_contains(low, "/cards/"@)
                || seq_contains(low, "/passes/"@);
            &&& keyword ==> card_hash_in_line(line) == hash_from_patterns(line, 0)
            &&& !keyword ==> card_hash_in_line(line) is None
        }),
        forall|k: int|
            0 <= k < 4 ==> (#[trigger] hash_from_patterns(line, k) == match regex_capture(
                card_pattern(k),
                line,
                1,
            ) {
                Some(m) => match hash_from_capture(m) {
                    Some(h) => Some(h),
                    None => hash_from_patterns(line, k + 1),
                },
                None => hash_from_patterns(line, k + 1),
            }),
        hash_from_patterns(line, 4) is None,
{
}

/// The patterns that find a card hash, in the order they are tried: a
/// `Cards/` or `Passes/Cards/` path segment, a `.pkpass`/`.cache`/`.pkcache`
/// file name, a free-standing 27-character hash with its `=`, and a
/// `card hash`/`card id`/`pass hash`/`pass id`/`unique id` field.
pub proof fn lemma_card_hash_patterns()
    ensures
        card_pattern_count() == 4,
        card_pattern(0)
            == r"/(?:Cards|Passes/Cards)/([A-Za-z0-9+/_-]{27,44})(?:\.pkpass|\.cache|\.pkcache|/|\s|\x22|'|\)|,|$)"@,
        card_pattern(1) == r"/([A-Za-z0-9+/_-]{27,44})\.(?:pkpass|cache|pkcache)"@,
        card_pattern(2) == r"(?:^|[^A-Za-z0-9+/_-])([A-Za-z0-9+/_-]{27}=)(?:$|[^A-Za-z0-9+/_-])"@,
        card_pattern(3)
            == r"(?i)(?:card[_\s]?(?:hash|id)|pass[_\s]?(?:hash|id)|unique[_\s]?id)\s*[:=]\s*['\x22]?([A-Za-z0-9+=_-]{27,44})"@,
{
}

/// The card name of a line is what the pass description gives: the text
/// quoted after `description`, `localizedDescription`, `passName` or `title`
/// (any case) and `:` or `=`, trimmed, when it is longer than one byte and
/// not a redacted `<private>` value.
pub proof fn lemma_card_name_source(line: Seq<char>)
    ensures
        card_name_in_line(line) == match regex_capture(
            r#"(?i)(?:description|localizedDescription|passName|title)\s*[:=]\s*['"]([^'"]+)['"]"#@,
            line,
            1,
        ) {
            Some(m) => {
                let n = trim_class(m, CharClass::WhiteSpace);
                if utf8_len(n) > 1 && !seq_contains(lowercase(n), "<private>"@) {
                    Some(n)
                } else {
                    None
                }
            },
            None => None,
        },
{
}

/// The card name that a captured description stands for: trimmed, longer
/// than one byte, and not a redacted `<private>` value.
pub open spec fn name_from_capture(m: Seq<char>) -> Option<Seq<char>> {
    let n = trim_class(m, CharClass::WhiteSpace);
    if utf8_len(n) > 1 && !seq_contains(lowercase(n), "<private>"@) {
        Some(n)
    } else {
        None
    }
}

/// The card name that a log line reveals, if any.
pub open spec fn card_name_in_line(line: Seq<char>) -> Option<Seq<char>> {
    match regex_capture(description_pattern(), line, 1) {
        Some(m) => name_from_capture(m),
        None => None,
    }
}

/// Turns the text captured by a card-hash pattern into a card hash.
pub fn card_hash_from_capture(capture: &[char]) -> (r: Option<String>)
    ensures
        opt_chars(r) == hash_from_capture(capture@),
{
    let w = trim_chars(capture, CharClass::WhiteSpace);
    let q = trim_chars(w.as_slice(), CharClass::Quote);
    let h = trim_end_chars(q.as_slice(), CharClass::EndPunct);
    let hs = string_of(h.as_slice());
    if !is_valid_card_hash(hs.as_str()) {
        return None;
    }
    let mut norm = h;
    let is27 = match utf8_len_upto(norm.as_slice(), 27) {
        Some(n) => n == 27,
        None => false,
    };
    if is27 {
        norm.push('=');
    }
    Some(string_of(norm.as_slice()))
}

/// Extracts an Apple Wallet card hash from a device log line: the line must
/// come from a Wallet/PassKit process, and the first pattern whose capture
/// is a valid card hash gives the result.
pub fn extract_card_hash_from_line(line: &str) -> (r: Option<String>)
    ensures
        opt_chars(r) == card_hash_in_line(line@),
{
    let lv = chars_of(line);
    let lower = lowercase_chars(lv.as_slice());
    if !mentions_wallet_exec(lower.as_slice()) {
        return None;
    }
    let mut k: usize = 0;
    while k < 4
        invariant
            k <= 4,
            lv@ == line@,
            mentions_wallet(lowercase(line@)),
            card_hash_in_line(line@) == hash_from_patterns(line@, k as int),
        decreases 4 - k,
    {
        let pattern = card_pattern_str(k);
        if let Some(m) = capture_group(pattern, lv.as_slice(), 1) {
            let found = card_hash_from_capture(m.as_slice());
            if found.is_some() {
                return found;
            }
        }
        k = k + 1;
    }
    None
}

/// Turns the text captured by the description pattern into a card name.
pub fn card_name_from_capture(capture: &[char]) -> (r: Option<String>)
    ensures
        opt_chars(r) == name_from_capture(capture@),
{
    let n = trim_chars(capture, CharClass::WhiteSpace);
    let long_enough = match utf8_len_upto(n.as_slice(), 1) {
        Some(_) => false,
        None => true,
    };
    if !long_enough {
        return None;
    }
    let lower = lowercase_chars(n.as_slice());
    if contains_str(lower.as_slice(), "<private>") {
        return None;
    }
    Some(string_of(n.as_slice()))
}

/// Extracts the card name from a log line that carries a pass description.
pub fn extract_card_name_from_line(line: &str) -> (r: Option<String>)
    ensures
        opt_chars(r) == card_name_in_line(line@),
{
    let lv = chars_of(line);
    match capture_group(
        r#"(?i)(?:description|localizedDescription|passName|title)\s*[:=]\s*['"]([^'"]+)['"]"#,
        lv.as_slice(),
        1,
    ) {
        Some(m) => card_name_from_capture(m.as_slice()),
        None => None,
    }
}

// ---------------------------------------------------------------------------
// Saved cards
// ---------------------------------------------------------------------------

/// A card hash captured from the device, with the name shown for it.
#[derive(Debug, Clone, PartialEq, Eq)]
pub struct SavedCard {
    pub hash: String,
    pub name: String,
}

/// A saved card as two character sequences.
pub struct CardRecord {
    pub hash: Seq<char>,
    pub name: Seq<char>,
}

impl View for SavedCard {
    type V = CardRecord;

    open spec fn view(&self) -> CardRecord {
        CardRecord { hash: self.hash@, name: self.name@ }
    }
}

/// The records of a list of saved cards.
pub open spec fn records(cards: Seq<SavedCard>) -> Seq<CardRecord> {
    cards.map_values(|c: SavedCard| c@)
}

/// The hashes of a list of records.
pub open spec fn hashes(cards: Seq<CardRecord>) -> Seq<Seq<char>> {
    cards.map_values(|c: CardRecord| c.hash)
}

/// `i` is the first position of a card with hash `h`.
pub open spec fn is_first_with_hash(cards: Seq<CardRecord>, h: Seq<char>, i: int) -> bool {
    &&& 0 <= i < cards.len()
    &&& cards[i].hash == h
    &&& forall|j: int| 0 <= j < i ==> #[trigger] cards[j].hash != h
}

/// The name given to the `n`-th saved card when the log gave none.
pub open spec fn default_card_name(n: nat) -> Seq<char> {
    "Card "@ + decimal(n)
}

/// A saved name that a name read from the log may replace.
pub open spec fn replaceable_name(name: Seq<char>) -> bool {
    name.len() == 0 || seq_starts_with(name, "Card "@)
}

/// The card list after recording hash `h` with name `n`: nothing changes for
/// an invalid hash; a known hash gets the new name when one is given and the
/// saved one is empty or a default `Card ...`; an unknown hash is appended,
/// named `Card <position>` when no name is given.
pub open spec fn card_added(cards: Seq<CardRecord>, h: Seq<char>, n: Seq<char>) -> Seq<CardRecord> {
    if !valid_card_hash(h) {
        cards
    } else if exists|i: int| is_first_with_hash(cards, h, i) {
        let i = choose|i: int| is_first_with_hash(cards, h, i);
        if n.len() > 0 && replaceable_name(cards[i].name) {
            cards.update(i, CardRecord { hash: cards[i].hash, name: n })
        } else {
            cards
        }
    } else {
        cards.push(
            CardRecord {
                hash: h,
                name: if n.len() == 0 {
                    default_card_name(cards.len() + 1)
                } else {
                    n
                },
            },
        )
    }
}

/// The first position at which `cards` holds a card with hash `hash`.
fn find_card(cards: &Vec<SavedCard>, hash: &String) -> (r: Option<usize>)
    ensures
        match r {
            Some(i) => is_first_with_hash(records(cards@), hash@, i as int),
            None => forall|j: int| 0 <= j < cards@.len() ==> #[trigger] cards@[j].hash@ != hash@,
        },
{
    let mut i: usize = 0;
    while i < cards.len()
        invariant
            i <= cards@.len(),
            forall|j: int| 0 <= j < i ==> #[trigger] cards@[j].hash@ != hash@,
        decreases cards@.len() - i,
    {
        if cards[i].hash == *hash {
            return Some(i);
        }
        i = i + 1;
    }
    None
}

/// Records a card hash seen on the device in the saved-card list (the part
/// of adding a card that does not touch the disk).
pub fn add_or_update_card(cards: &mut Vec<SavedCard>, hash: &str, name: &str)
    requires
        old(cards)@.len() < usize::MAX,
    ensures
        records(final(cards)@) == card_added(records(old(cards)@), hash@, name@),
{
    if !is_valid_card_hash(hash) {
        return;
    }
    let h = hash.to_owned();
    let ghost recs = records(cards@);
    match find_card(cards, &h) {
        Some(i) => {
            assert(is_first_with_hash(recs, hash@, i as int));
            assert forall|k: int| is_first_with_hash(recs, hash@, k) implies k == i by {
                if k < i {
                    assert(recs[k].hash != hash@);
                }
                if i < k {
                    assert(recs[i as int].hash != hash@);
                }
            }
            let nv = chars_of(name);
            let cur = chars_of(cards[i].name.as_str());
            if nv.len() > 0 && (cur.len() == 0 || starts_with_str(cur.as_slice(), "Card ")) {
                let old_hash = cards[i].hash.clone();
                cards.set(i, SavedCard { hash: old_hash, name: name.to_owned() });
                assert(records(cards@) =~= recs.update(
                    i as int,
                    CardRecord { hash: recs[i as int].hash, name: name@ },
                ));
            }
        },
        None => {
            assert(!exists|k: int| is_first_with_hash(recs, hash@, k)) by {
                assert forall|k: int| !is_first_with_hash(recs, hash@, k) by {
                    if 0 <= k < recs.len() {
                        assert(cards@[k].hash@ != hash@);
                    }
                }
            }
            let new_name = if name.is_empty() {
                let mut v: Vec<char> = Vec::new();
                push_str(&mut v, "Card ");
                push_decimal(&mut v, (cards.len() + 1) as u64);
                string_of(v.as_slice())
            } else {
                name.to_owned()
            };
            cards.push(SavedCard { hash: h, name: new_name });
            assert(records(cards@) =~= recs.push(
                CardRecord {
                    hash: hash@,
                    name: if name@.len() == 0 {
                        default_card_name(recs.len() + 1)
                    } else {
                        name@
                    },
                },
            ));
        },
    }
}

/// A list holding hash `h` at position `j` has a first position holding it.
proof fn lemma_first_with_hash_exists(cards: Seq<CardRecord>, h: Seq<char>, j: int)
    requires
        0 <= j < cards.len(),
        cards[j].hash == h,
    ensures
        exists|k: int| is_first_with_hash(cards, h, k),
    decreases j,
{
    if forall|p: int| 0 <= p < j ==> #[trigger] cards[p].hash != h {
        assert(is_first_with_hash(cards, h, j));
    } else {
        let p = choose|p: int| 0 <= p < j && #[trigger] cards[p].hash == h;
        lemma_first_with_hash_exists(cards, h, p);
    }
}

/// Recording the same card twice changes nothing the second time.
pub proof fn lemma_add_card_idempotent(cards: Seq<CardRecord>, h: Seq<char>, n: Seq<char>)
    ensures
        card_added(card_added(cards, h, n), h, n) == card_added(cards, h, n),
{
    let once = card_added(cards, h, n);
    if valid_card_hash(h) {
        if exists|i: int| is_first_with_hash(cards, h, i) {
            let i = choose|i: int| is_first_with_hash(cards, h, i);
            assert(is_first_with_hash(once, h, i));
            assert forall|k: int| is_first_with_hash(once, h, k) implies k == i by {
                if k < i {
                    assert(once[k] == cards[k]);
                }
                if i < k {
                    assert(once[i].hash == h);
                }
            }
            let j = choose|j: int| is_first_with_hash(once, h, j);
            assert(j == i);
            assert(card_added(once, h, n) =~= once);
        } else {
            let i = cards.len() as int;
            assert(is_first_with_hash(once, h, i)) by {
                assert forall|j: int| 0 <= j < i implies #[trigger] once[j].hash != h by {
                    assert(once[j] == cards[j]);
                    if cards[j].hash == h {
                        lemma_first_with_hash_exists(cards, h, j);
                    }
                }
            }
            assert forall|k: int| is_first_with_hash(once, h, k) implies k == i by {}
            let j = choose|j: int| is_first_with_hash(once, h, j);
            assert(j == i);
            assert(card_added(once, h, n) =~= once);
        }
    }
}

/// The saved list holds only valid hashes, each once.
pub open spec fn well_kept(cards: Seq<CardRecord>) -> bool {
    &&& forall|i: int| 0 <= i < cards.len() ==> valid_card_hash(#[trigger] cards[i].hash)
    &&& forall|i: int, j: int| 0 <= i < j < cards.len() ==> cards[i].hash != cards[j].hash
}

/// Recording a card keeps a well-kept list well kept, loses no card that
/// was there, and leaves a valid hash recorded.
pub proof fn lemma_add_card_keeps_list(cards: Seq<CardRecord>, h: Seq<char>, n: Seq<char>)
    requires
        well_kept(cards),
    ensures
        well_kept(card_added(cards, h, n)),
        forall|i: int|
            0 <= i < cards.len() ==> hashes(card_added(cards, h, n)).contains(
                #[trigger] cards[i].hash,
            ),
        valid_card_hash(h) ==> hashes(card_added(cards, h, n)).contains(h),
{
    let r = card_added(cards, h, n);
    if valid_card_hash(h) {
        if exists|i: int| is_first_with_hash(cards, h, i) {
            let i = choose|i: int| is_first_with_hash(cards, h, i);
            assert(r.len() == cards.len());
            assert forall|k: int| 0 <= k < r.len() implies #[trigger] r[k].hash == cards[k].hash by {}
            assert(hashes(r)[i] == h);
            assert forall|k: int| 0 <= k < cards.len() implies hashes(r).contains(
                #[trigger] cards[k].hash,
            ) by {
                assert(hashes(r)[k] == cards[k].hash);
            }
        } else {
            assert forall|k: int| 0 <= k < cards.len() implies cards[k].hash != h by {
                if cards[k].hash == h {
                    lemma_first_with_hash_exists(cards, h, k);
                }
            }
            assert forall|k: int| 0 <= k < cards.len() implies hashes(r).contains(
                #[trigger] cards[k].hash,
            ) by {
                assert(r[k] == cards[k]);
                assert(hashes(r)[k] == cards[k].hash);
            }
            assert(hashes(r)[cards.len() as int] == h);
            assert forall|a: int, b: int| 0 <= a < b < r.len() implies r[a].hash != r[b].hash by {
                if b == cards.len() {
                    assert(r[a] == cards[a]);
                } else {
                    assert(r[a] == cards[a]);
                    assert(r[b] == cards[b]);
                }
            }
            assert forall|k: int| 0 <= k < r.len() implies valid_card_hash(#[trigger] r[k].hash) by {
                if k < cards.len() {
                    assert(r[k] == cards[k]);
                }
            }
        }
    } else {
        assert forall|k: int| 0 <= k < cards.len() implies hashes(r).contains(
            #[trigger] cards[k].hash,
        ) by {
            assert(hashes(r)[k] == cards[k].hash);
        }
    }
}

/// The valid cards of a list, each hash kept once (at its first occurrence).
pub open spec fn unique_valid(cards: Seq<CardRecord>) -> Seq<CardRecord>
    decreases cards.len(),
{
    if cards.len() == 0 {
        seq![]
    } else {
        let prev = unique_valid(cards.drop_last());
        let c = cards.last();
        if valid_card_hash(c.hash) && !hashes(prev).contains(c.hash) {
            prev.push(c)
        } else {
            prev
        }
    }
}

/// The cards of a list whose hash is valid, in order.
pub open spec fn valid_only(cards: Seq<CardRecord>) -> Seq<CardRecord>
    decreases cards.len(),
{
    if cards.len() == 0 {
        seq![]
    } else {
        let prev = valid_only(cards.drop_last());
        if valid_card_hash(cards.last().hash) {
            prev.push(cards.last())
        } else {
            prev
        }
    }
}

fn copy_card(c: &SavedCard) -> (r: SavedCard)
    ensures
        r@ == c@,
{
    SavedCard { hash: c.hash.clone(), name: c.name.clone() }
}

fn has_hash(cards: &Vec<SavedCard>, hash: &String) -> (b: bool)
    ensures
        b == hashes(records(cards@)).contains(hash@),
{
    let r = find_card(cards, hash);
    proof {
        let hs = hashes(records(cards@));
        if r is Some {
            assert(hs[r->0 as int] == hash@);
        } else {
            assert forall|j: int| 0 <= j < hs.len() implies hs[j] != hash@ by {
                assert(cards@[j].hash@ != hash@);
            }
        }
    }
    r.is_some()
}

/// The cards to write back to storage: the valid ones, each hash once.
pub fn unique_valid_cards(cards: &[SavedCard]) -> (r: Vec<SavedCard>)
    ensures
        records(r@) == unique_valid(records(cards@)),
{
    let mut out: Vec<SavedCard> = Vec::new();
    let mut i: usize = 0;
    while i < cards.len()
        invariant
            i <= cards@.len(),
            records(out@) == unique_valid(records(cards@.take(i as int))),
        decreases cards@.len() - i,
    {
        let c = &cards[i];
        assert(records(cards@.take(i + 1)).drop_last() =~= records(cards@.take(i as int)));
        assert(records(cards@.take(i + 1)).last() == c@);
        if is_valid_card_hash(c.hash.as_str()) && !has_hash(&out, &c.hash) {
            let ghost before = out@;
            out.push(copy_card(c));
            assert(records(out@) =~= records(before).push(c@));
        }
        i = i + 1;
    }
    assert(cards@.take(cards@.len() as int) =~= cards@);
    out
}

/// The cards with a valid hash, in order (what loading keeps of the stored list).
pub fn retain_valid_cards(cards: Vec<SavedCard>) -> (r: Vec<SavedCard>)
    ensures
        records(r@) == valid_only(records(cards@)),
{
    let mut out: Vec<SavedCard> = Vec::new();
    let mut i: usize = 0;
    while i < cards.len()
        invariant
            i <= cards@.len(),
            records(out@) == valid_only(records(cards@.take(i as int))),
        decreases cards@.len() - i,
    {
        let c = &cards[i];
        assert(records(cards@.take(i + 1)).drop_last() =~= records(cards@.take(i as int)));
        assert(records(cards@.take(i + 1)).last() == c@);
        if is_valid_card_hash(c.hash.as_str()) {
            let ghost before = out@;
            out.push(copy_card(c));
            assert(records(out@) =~= records(before).push(c@));
        }
        i = i + 1;
    }
    assert(cards@.take(cards@.len() as int) =~= cards@);
    out
}

/// What storage receives: only valid cards, no hash twice, and every valid
/// hash of the input is still there.
pub proof fn lemma_unique_valid(cards: Seq<CardRecord>)
    ensures
        forall|i: int|
            0 <= i < unique_valid(cards).len() ==> valid_card_hash(
                #[trigger] unique_valid(cards)[i].hash,
            ),
        forall|i: int, j: int|
            0 <= i < j < unique_valid(cards).len() ==> #[trigger] unique_valid(cards)[i].hash
                != #[trigger] unique_valid(cards)[j].hash,
        forall|i: int|
            0 <= i < cards.len() && valid_card_hash(#[trigger] cards[i].hash) ==> hashes(
                unique_valid(cards),
            ).contains(cards[i].hash),
    decreases cards.len(),
{
    if cards.len() > 0 {
        let rest = cards.drop_last();
        lemma_unique_valid(rest);
        let prev = unique_valid(rest);
        let c = cards.last();
        let r = unique_valid(cards);
        if valid_card_hash(c.hash) && !hashes(prev).contains(c.hash) {
            assert forall|i: int, j: int| 0 <= i < j < r.len() implies #[trigger] r[i].hash
                != #[trigger] r[j].hash by {
                if j == r.len() - 1 {
                    assert(hashes(prev)[i] == prev[i].hash);
                }
            }
        }
        assert forall|i: int|
            0 <= i < cards.len() && valid_card_hash(#[trigger] cards[i].hash) implies hashes(
            r,
        ).contains(cards[i].hash) by {
            if i < cards.len() - 1 {
                assert(rest[i] == cards[i]);
                let k = choose|k: int| 0 <= k < hashes(prev).len() && hashes(prev)[k] == cards[i].hash;
                assert(hashes(r)[k] == cards[i].hash);
            } else {
                if hashes(prev).contains(c.hash) {
                    let k = choose|k: int| 0 <= k < hashes(prev).len() && hashes(prev)[k] == c.hash;
                    assert(hashes(r)[k] == c.hash);
                } else {
                    assert(hashes(r)[r.len() - 1] == c.hash);
                }
            }
        }
    }
}

/// Every card that loading keeps has a valid hash.
pub proof fn lemma_valid_only(cards: Seq<CardRecord>)
    ensures
        forall|i: int|
            0 <= i < valid_only(cards).len() ==> valid_card_hash(
                #[trigger] valid_only(cards)[i].hash,
            ),
    decreases cards.len(),
{
    if cards.len() > 0 {
        lemma_valid_only(cards.drop_last());
        let prev = valid_only(cards.drop_last());
        if valid_card_hash(cards.last().hash) {
            assert forall|i: int| 0 <= i < prev.push(cards.last()).len() implies valid_card_hash(
                #[trigger] prev.push(cards.last())[i].hash,
            ) by {
                if i < prev.len() {
                    assert(prev.push(cards.last())[i] == prev[i]);
                }
            }
        }
    }
}

proof fn lemma_well_kept_fixed(cards: Seq<CardRecord>)
    requires
        well_kept(cards),
    ensures
        valid_only(cards) == cards,
        unique_valid(cards) == cards,
    decreases cards.len(),
{
    if cards.len() > 0 {
        let rest = cards.drop_last();
        assert(well_kept(rest)) by {
            assert forall|i: int| 0 <= i < rest.len() implies valid_card_hash(#[trigger] rest[i].hash) by {
                assert(rest[i] == cards[i]);
            }
            assert forall|i: int, j: int| 0 <= i < j < rest.len() implies rest[i].hash != rest[j].hash by {
                assert(rest[i] == cards[i]);
                assert(rest[j] == cards[j]);
            }
        }
        lemma_well_kept_fixed(rest);
        let c = cards.last();
        assert(valid_card_hash(c.hash));
        assert(!hashes(rest).contains(c.hash)) by {
            if hashes(rest).contains(c.hash) {
                let k = choose|k: int| 0 <= k < hashes(rest).len() && hashes(rest)[k] == c.hash;
                assert(rest[k] == cards[k]);
            }
        }
        assert(rest.push(c) =~= cards);
    }
}

/// What saving writes, loading reads back unchanged, and saving it again
/// writes the same list.
pub proof fn lemma_save_load_round_trip(cards: Seq<CardRecord>)
    ensures
        valid_only(unique_valid(cards)) == unique_valid(cards),
        unique_valid(unique_valid(cards)) == unique_valid(cards),
{
    lemma_unique_valid(cards);
    lemma_well_kept_fixed(unique_valid(cards));
}

// ---------------------------------------------------------------------------
// The log stream
// ---------------------------------------------------------------------------

/// One byte of the log stream: `\n` and NUL end the pending line (an empty
/// one is dropped), `\r` is skipped, anything else extends the line.
pub open spec fn split_step(state: (Seq<Seq<u8>>, Seq<u8>), b: u8) -> (Seq<Seq<u8>>, Seq<u8>) {
    if b == 10 || b == 0 {
        if state.1.len() > 0 {
            (state.0.push(state.1), seq![])
        } else {
            state
        }
    } else if b != 13 {
        (state.0, state.1.push(b))
    } else {
        state
    }
}

/// The lines that a chunk completes, and the bytes left pending after it.
pub open spec fn split_chunk(pending: Seq<u8>, chunk: Seq<u8>) -> (Seq<Seq<u8>>, Seq<u8>)
    decreases chunk.len(),
{
    if chunk.len() == 0 {
        (seq![], pending)
    } else {
        split_step(split_chunk(pending, chunk.drop_last()), chunk.last())
    }
}

/// Cuts the byte stream of the device log into lines.
pub struct LogLineSplitter {
    pub pending: Vec<u8>,
}

/// The contents of a list of byte lines.
pub open spec fn byte_lines(lines: Seq<Vec<u8>>) -> Seq<Seq<u8>> {
    lines.map_values(|l: Vec<u8>| l@)
}

impl LogLineSplitter {
    /// A splitter with nothing pending.
    pub fn new() -> (s: Self)
        ensures
            s.pending@.len() == 0,
    {
        LogLineSplitter { pending: Vec::new() }
    }

    /// Takes the next chunk received from the device and returns the lines it completes.
    pub fn feed(&mut self, chunk: &[u8]) -> (lines: Vec<Vec<u8>>)
        ensures
            (byte_lines(lines@), final(self).pending@) == split_chunk(old(self).pending@, chunk@),
    {
        let mut lines: Vec<Vec<u8>> = Vec::new();
        let mut i: usize = 0;
        while i < chunk.len()
            invariant
                i <= chunk@.len(),
                (byte_lines(lines@), self.pending@) == split_chunk(
                    old(self).pending@,
                    chunk@.take(i as int),
                ),
            decreases chunk@.len() - i,
        {
            let b = chunk[i];
            assert(chunk@.take(i + 1).drop_last() =~= chunk@.take(i as int));
            let ghost before_lines = byte_lines(lines@);
            let ghost before_pending = self.pending@;
            if b == 10 || b == 0 {
                if self.pending.len() > 0 {
                    let mut line: Vec<u8> = Vec::new();
                    std::mem::swap(&mut line, &mut self.pending);
                    lines.push(line);
                    assert(byte_lines(lines@) =~= before_lines.push(before_pending));
                    assert(self.pending@ =~= Seq::<u8>::empty());
                }
            } else if b != 13 {
                self.pending.push(b);
            }
            i = i + 1;
        }
        assert(chunk@.take(chunk@.len() as int) =~= chunk@);
        lines
    }
}

/// The lines and pending bytes after a chunk, from a given state.
pub open spec fn split_from(state: (Seq<Seq<u8>>, Seq<u8>), chunk: Seq<u8>) -> (
    Seq<Seq<u8>>,
    Seq<u8>,
)
    decreases chunk.len(),
{
    if chunk.len() == 0 {
        state
    } else {
        split_step(split_from(state, chunk.drop_last()), chunk.last())
    }
}

proof fn lemma_split_chunk_from(pending: Seq<u8>, chunk: Seq<u8>)
    ensures
        split_chunk(pending, chunk) == split_from((seq![], pending), chunk),
    decreases chunk.len(),
{
    if chunk.len() > 0 {
        lemma_split_chunk_from(pending, chunk.drop_last());
    }
}

proof fn lemma_split_from_lines(lines: Seq<Seq<u8>>, pending: Seq<u8>, chunk: Seq<u8>)
    ensures
        split_from((lines, pending), chunk) == (
            lines + split_from((seq![], pending), chunk).0,
            split_from((seq![], pending), chunk).1,
        ),
    decreases chunk.len(),
{
    if chunk.len() == 0 {
        assert(lines + Seq::<Seq<u8>>::empty() =~= lines);
    } else {
        lemma_split_from_lines(lines, pending, chunk.drop_last());
        let inner = split_from((seq![], pending), chunk.drop_last());
        assert((lines + inner.0).push(inner.1) =~= lines + inner.0.push(inner.1));
    }
}

proof fn lemma_split_from_concat(state: (Seq<Seq<u8>>, Seq<u8>), a: Seq<u8>, b: Seq<u8>)
    ensures
        split_from(state, a + b) == split_from(split_from(state, a), b),
    decreases b.len(),
{
    if b.len() == 0 {
        assert(a + b =~= a);
    } else {
        assert((a + b).drop_last() =~= a + b.drop_last());
        assert((a + b).last() == b.last());
        lemma_split_from_concat(state, a, b.drop_last());
    }
}

/// A byte that ends a line or is dropped.
pub open spec fn is_line_break(b: u8) -> bool {
    b == 10 || b == 0 || b == 13
}

/// Bytes with no line break in them.
pub open spec fn unbroken(s: Seq<u8>) -> bool {
    forall|i: int| 0 <= i < s.len() ==> !is_line_break(#[trigger] s[i])
}

/// Lines that are not empty and hold no line break.
pub open spec fn clean_lines(lines: Seq<Seq<u8>>) -> bool {
    forall|i: int| 0 <= i < lines.len() ==> (#[trigger] lines[i]).len() > 0 && unbroken(lines[i])
}

/// Every line the splitter hands out is non-empty and free of `\n`, NUL and
/// `\r`, and so are the bytes it keeps pending.
pub proof fn lemma_split_lines_clean(pending: Seq<u8>, chunk: Seq<u8>)
    requires
        unbroken(pending),
    ensures
        clean_lines(split_chunk(pending, chunk).0),
        unbroken(split_chunk(pending, chunk).1),
    decreases chunk.len(),
{
    if chunk.len() > 0 {
        lemma_split_lines_clean(pending, chunk.drop_last());
        let st = split_chunk(pending, chunk.drop_last());
        let b = chunk.last();
        let r = split_step(st, b);
        assert(r == split_chunk(pending, chunk));
        if b == 10 || b == 0 {
            if st.1.len() > 0 {
                assert forall|i: int| 0 <= i < r.0.len() implies (#[trigger] r.0[i]).len() > 0
                    && unbroken(r.0[i]) by {
                    if i < st.0.len() {
                        assert(r.0[i] == st.0[i]);
                    }
                }
                assert(unbroken(r.1));
            }
        } else if b != 13 {
            assert forall|i: int| 0 <= i < r.1.len() implies !is_line_break(#[trigger] r.1[i]) by {
                if i < st.1.len() {
                    assert(r.1[i] == st.1[i]);
                }
            }
        }
    }
}

/// How the device cuts its log into chunks does not matter: two chunks in
/// a row give the lines, and leave pending the bytes, that the two joined
/// into one chunk give.
pub proof fn lemma_split_chunks(pending: Seq<u8>, a: Seq<u8>, b: Seq<u8>)
    ensures
        split_chunk(pending, a + b) == ({
            let first = split_chunk(pending, a);
            let second = split_chunk(first.1, b);
            (first.0 + second.0, second.1)
        }),
{
    lemma_split_chunk_from(pending, a + b);
    lemma_split_chunk_from(pending, a);
    let first = split_chunk(pending, a);
    lemma_split_chunk_from(first.1, b);
    lemma_split_from_concat((seq![], pending), a, b);
    lemma_split_from_lines(first.0, first.1, b);
}

/// What `String::from_utf8_lossy` returns for these bytes (invalid
/// sequences become U+FFFD); only named here.
pub uninterp spec fn utf8_lossy(bytes: Seq<u8>) -> Seq<char>;

/// Calls `String::from_utf8_lossy`. Trusted: the result is taken to be
/// `utf8_lossy(bytes)`, and, as std documents, the decoded text itself when
/// the bytes are valid UTF-8.
#[verifier::external_body]
fn decode_lossy(bytes: &[u8]) -> (s: String)
    ensures
        s@ == utf8_lossy(bytes@),
        vstd::utf8::valid_utf8(bytes@) ==> s@ == vstd::utf8::decode_utf8(bytes@),
{
    String::from_utf8_lossy(bytes).into_owned()
}

/// The card that one log line reports, if any: its hash, and the name from
/// the same line (empty when the line names none).
pub open spec fn card_in_line(line: Seq<u8>) -> Option<CardRecord> {
    let text = utf8_lossy(line);
    match card_hash_in_line(text) {
        Some(h) => Some(
            CardRecord {
                hash: h,
                name: match card_name_in_line(text) {
                    Some(n) => n,
                    None => seq![],
                },
            },
        ),
        None => None,
    }
}

/// Looks for a card in one line of the device log.
pub fn card_in_log_line(line: &[u8]) -> (r: Option<SavedCard>)
    ensures
        match r {
            Some(c) => card_in_line(line@) == Some(c@),
            None => card_in_line(line@) is None,
        },
{
    let text = decode_lossy(line);
    match extract_card_hash_from_line(text.as_str()) {
        Some(hash) => {
            let name = match extract_card_name_from_line(text.as_str()) {
                Some(n) => n,
                None => String::new(),
            };
            Some(SavedCard { hash, name })
        },
        None => None,
    }
}

} // verus!
