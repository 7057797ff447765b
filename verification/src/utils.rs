//! General utilities: version parsing and comparison, size and duration
//! formatting, string truncation and redaction, file extensions, simple
//! field validation, authentication helpers, ids and timestamps.

use vstd::prelude::*;
use vstd::string::StringExecFns;
use vstd::string::StrSliceExecFns;
use core::cmp::Ordering;
use crate::error::{McpError, McpResult};
use crate::json::{Json, JsonVal};
use crate::strings::{str_eq, str_starts_with, str_contains, str_to_chars, chars_to_string,
    contains_seq, dec_of, dec_of_int, u64_to_string, i64_to_string, is_digit, all_digits, dec_val,
    parse_u64_range, digit_char, push_dec_u64};

verus! {

broadcast use vstd::string::group_string_axioms;

/// Whether the text splits as `major.minor.patch` at the two given dots.
pub open spec fn version_dots(s: Seq<char>, d1: int, d2: int) -> bool {
    &&& 0 <= d1 < d2 < s.len()
    &&& s[d1] == '.'
    &&& s[d2] == '.'
    &&& forall|j: int| 0 <= j < s.len() && s[j] == '.' ==> j == d1 || j == d2
}

/// One numeric component of a version: non-empty digits within 32 bits.
pub open spec fn version_part_ok(s: Seq<char>) -> bool {
    s.len() > 0 && all_digits(s) && dec_val(s) <= u32::MAX
}

/// A well-formed version: three numeric components separated by dots.
pub open spec fn spec_version_ok(s: Seq<char>) -> bool {
    exists|d1: int, d2: int|
        #[trigger] version_dots(s, d1, d2) && version_part_ok(s.subrange(0, d1))
            && version_part_ok(s.subrange(d1 + 1, d2)) && version_part_ok(
            s.subrange(d2 + 1, s.len() as int),
        )
}

/// Parse `major.minor.patch`. Succeeds exactly on three dot-separated
/// numeric components, returning their values.
#[verifier::loop_isolation(false)]
#[verifier::rlimit(100)]
pub fn parse_version(version: &str) -> (r: Result<(u32, u32, u32), String>)
    ensures
        r is Ok <==> spec_version_ok(version@),
        r matches Ok((a, b, c)) ==> (exists|d1: int, d2: int|
            #[trigger] version_dots(version@, d1, d2) && a == dec_val(version@.subrange(0, d1))
                && b == dec_val(version@.subrange(d1 + 1, d2)) && c == dec_val(
                version@.subrange(d2 + 1, version@.len() as int),
            )),
{
    let v = str_to_chars(version);
    let n = v.len();
    let mut d1: usize = n;
    let mut d2: usize = n;
    let mut d3: usize = n;
    let mut count: usize = 0;
    let mut i: usize = 0;
    while i < n
        invariant
            i <= n,
            n == version@.len(),
            count <= i,
            count == 0 ==> d1 == n && d2 == n && (forall|j: int| 0 <= j < i ==> version@[j] != '.'),
            count == 1 ==> d1 < i && version@[d1 as int] == '.' && d2 == n && (forall|j: int|
                0 <= j < i && j != d1 ==> version@[j] != '.'),
            count >= 2 ==> d1 < d2 < i && version@[d1 as int] == '.' && version@[d2 as int] == '.',
            count == 2 ==> (forall|j: int| 0 <= j < i && j != d1 && j != d2 ==> version@[j] != '.'),
            count >= 3 ==> d2 < d3 < i && version@[d3 as int] == '.',
        decreases n - i,
    {
        if v[i] == '.' {
            if count == 0 {
                d1 = i;
            } else if count == 1 {
                d2 = i;
            } else if count == 2 {
                d3 = i;
            }
            count = count + 1;
        }
        i = i + 1;
    }
    if count != 2 {
        proof {
            assert forall|e1: int, e2: int| !(#[trigger] version_dots(version@, e1, e2)) by {
                if version_dots(version@, e1, e2) {
                    if count == 0 {
                        assert(version@[e1] != '.');
                    } else if count == 1 {
                        assert(e1 == d1 && e2 == d1);
                    } else {
                        assert(d1 as int == e1 || d1 as int == e2);
                        assert(d2 as int == e1 || d2 as int == e2);
                        assert(d3 as int == e1 || d3 as int == e2);
                    }
                }
            }
        }
        return Err(String::from_str("Version must have format major.minor.patch"));
    }
    proof {
        assert(version_dots(version@, d1 as int, d2 as int));
        assert forall|e1: int, e2: int|
            #[trigger] version_dots(version@, e1, e2) implies e1 == d1 as int && e2
            == d2 as int by {
            assert(version@[e1] == '.' && version@[e2] == '.');
            assert(e1 == d1 || e1 == d2);
            assert(e2 == d1 || e2 == d2);
        }
    }
    let major_ok = d1 > 0 && {
        let mut all: bool = true;
        let mut k: usize = 0;
        while k < d1
            invariant
                k <= d1 <= n,
                n == version@.len(),
                all == (forall|j: int| 0 <= j < k ==> is_digit(#[trigger] version@[j])),
            decreases d1 - k,
        {
            if !('0' <= v[k] && v[k] <= '9') {
                all = false;
                proof {
                    assert(!is_digit(version@[k as int]));
                }
            }
            k = k + 1;
        }
        all
    };
    if !major_ok {
        proof {
            lemma_part_not_ok_short(version@, 0, d1 as int, major_ok);
        }
        return Err(String::from_str("Invalid major version number"));
    }
    proof {
        assert forall|j: int|
            0 <= j < version@.subrange(0, d1 as int).len() implies is_digit(
            #[trigger] version@.subrange(0, d1 as int)[j],
        ) by {
            assert(version@.subrange(0, d1 as int)[j] == version@[j]);
        }
        assert(all_digits(version@.subrange(0, d1 as int)));
    }
    let major = match parse_u64_range(&v, 0, d1) {
        Some(m) if m <= u32::MAX as u64 => m as u32,
        _ => {
            proof {
                assert(!version_part_ok(version@.subrange(0, d1 as int)));
            }
            return Err(String::from_str("Invalid major version number"));
        },
    };
    let minor_ok = d2 > d1 + 1 && {
        let mut all: bool = true;
        let mut k: usize = d1 + 1;
        while k < d2
            invariant
                d1 < k <= d2 <= n,
                n == version@.len(),
                all == (forall|j: int| d1 + 1 <= j < k ==> is_digit(#[trigger] version@[j])),
            decreases d2 - k,
        {
            if !('0' <= v[k] && v[k] <= '9') {
                all = false;
                proof {
                    assert(!is_digit(version@[k as int]));
                }
            }
            k = k + 1;
        }
        all
    };
    if !minor_ok {
        proof {
            lemma_part_not_ok_short(version@, d1 as int + 1, d2 as int, minor_ok);
        }
        return Err(String::from_str("Invalid minor version number"));
    }
    proof {
        assert forall|j: int|
            0 <= j < version@.subrange(d1 as int + 1, d2 as int).len() implies is_digit(
            #[trigger] version@.subrange(d1 as int + 1, d2 as int)[j],
        ) by {
            assert(version@.subrange(d1 as int + 1, d2 as int)[j] == version@[d1 + 1 + j]);
        }
        assert(all_digits(version@.subrange(d1 as int + 1, d2 as int)));
    }
    let minor = match parse_u64_range(&v, d1 + 1, d2) {
        Some(m) if m <= u32::MAX as u64 => m as u32,
        _ => {
            proof {
                assert(!version_part_ok(version@.subrange(d1 as int + 1, d2 as int)));
            }
            return Err(String::from_str("Invalid minor version number"));
        },
    };
    let patch_ok = n > d2 + 1 && {
        let mut all: bool = true;
        let mut k: usize = d2 + 1;
        while k < n
            invariant
                d2 < k <= n,
                n == version@.len(),
                all == (forall|j: int| d2 + 1 <= j < k ==> is_digit(#[trigger] version@[j])),
            decreases n - k,
        {
            if !('0' <= v[k] && v[k] <= '9') {
                all = false;
                proof {
                    assert(!is_digit(version@[k as int]));
                }
            }
            k = k + 1;
        }
        all
    };
    if !patch_ok {
        proof {
            lemma_part_not_ok_short(version@, d2 as int + 1, n as int, patch_ok);
        }
        return Err(String::from_str("Invalid patch version number"));
    }
    proof {
        assert forall|j: int|
            0 <= j < version@.subrange(d2 as int + 1, n as int).len() implies is_digit(
            #[trigger] version@.subrange(d2 as int + 1, n as int)[j],
        ) by {
            assert(version@.subrange(d2 as int + 1, n as int)[j] == version@[d2 + 1 + j]);
        }
        assert(all_digits(version@.subrange(d2 as int + 1, n as int)));
    }
    let patch = match parse_u64_range(&v, d2 + 1, n) {
        Some(m) if m <= u32::MAX as u64 => m as u32,
        _ => {
            proof {
                assert(!version_part_ok(version@.subrange(d2 as int + 1, n as int)));
            }
            return Err(String::from_str("Invalid patch version number"));
        },
    };
    proof {
        assert(version_part_ok(version@.subrange(0, d1 as int)));
        assert(version_part_ok(version@.subrange(d1 as int + 1, d2 as int)));
        assert(version_part_ok(version@.subrange(d2 as int + 1, n as int)));
    }
    Ok((major, minor, patch))
}

/// A component whose digit scan failed or which is empty is not a valid
/// version component.
proof fn lemma_part_not_ok_short(s: Seq<char>, lo: int, hi: int, flag: bool)
    requires
        0 <= lo <= hi <= s.len(),
        !flag,
        flag == (lo < hi && (forall|j: int| lo <= j < hi ==> is_digit(#[trigger] s[j]))),
    ensures
        !version_part_ok(s.subrange(lo, hi)),
{
    if version_part_ok(s.subrange(lo, hi)) {
        assert(s.subrange(lo, hi).len() > 0);
        assert forall|j: int| lo <= j < hi implies is_digit(#[trigger] s[j]) by {
            assert(s.subrange(lo, hi)[j - lo] == s[j]);
        }
    }
}

/// The order of two parsed versions, componentwise.
pub open spec fn spec_version_order(a: (nat, nat, nat), b: (nat, nat, nat)) -> Ordering {
    if a.0 != b.0 {
        if a.0 < b.0 {
            Ordering::Less
        } else {
            Ordering::Greater
        }
    } else if a.1 != b.1 {
        if a.1 < b.1 {
            Ordering::Less
        } else {
            Ordering::Greater
        }
    } else {
        if a.2 < b.2 {
            Ordering::Less
        } else if a.2 > b.2 {
            Ordering::Greater
        } else {
            Ordering::Equal
        }
    }
}

/// Compare two version strings componentwise. Fails exactly when either
/// does not parse, reporting the first failure.
pub fn compare_versions(v1: &str, v2: &str) -> (r: Result<Ordering, String>)
    ensures
        r is Ok <==> (spec_version_ok(v1@) && spec_version_ok(v2@)),
        r matches Ok(o) ==> (exists|d1: int, d2: int, e1: int, e2: int|
            #[trigger] version_dots(v1@, d1, d2) && #[trigger] version_dots(v2@, e1, e2) && o
                == spec_version_order(
                (
                    dec_val(v1@.subrange(0, d1)),
                    dec_val(v1@.subrange(d1 + 1, d2)),
                    dec_val(v1@.subrange(d2 + 1, v1@.len() as int)),
                ),
                (
                    dec_val(v2@.subrange(0, e1)),
                    dec_val(v2@.subrange(e1 + 1, e2)),
                    dec_val(v2@.subrange(e2 + 1, v2@.len() as int)),
                ),
            )),
{
    let a = match parse_version(v1) {
        Ok(t) => t,
        Err(e) => {
            return Err(e);
        },
    };
    let b = match parse_version(v2) {
        Ok(t) => t,
        Err(e) => {
            return Err(e);
        },
    };
    let r: Ordering = if a.0 != b.0 {
        if a.0 < b.0 {
            Ordering::Less
        } else {
            Ordering::Greater
        }
    } else if a.1 != b.1 {
        if a.1 < b.1 {
            Ordering::Less
        } else {
            Ordering::Greater
        }
    } else {
        if a.2 < b.2 {
            Ordering::Less
        } else if a.2 > b.2 {
            Ordering::Greater
        } else {
            Ordering::Equal
        }
    };
    proof {
        let (d1, d2) = choose|d1: int, d2: int|
            #[trigger] version_dots(v1@, d1, d2) && a.0 == dec_val(v1@.subrange(0, d1)) && a.1
                == dec_val(v1@.subrange(d1 + 1, d2)) && a.2 == dec_val(
                v1@.subrange(d2 + 1, v1@.len() as int),
            );
        let (e1, e2) = choose|e1: int, e2: int|
            #[trigger] version_dots(v2@, e1, e2) && b.0 == dec_val(v2@.subrange(0, e1)) && b.1
                == dec_val(v2@.subrange(e1 + 1, e2)) && b.2 == dec_val(
                v2@.subrange(e2 + 1, v2@.len() as int),
            );
        assert(r == spec_version_order(
            (a.0 as nat, a.1 as nat, a.2 as nat),
            (b.0 as nat, b.1 as nat, b.2 as nat),
        ));
    }
    Ok(r)
}

/// The unit applied to a byte count: bytes up to each power of 1024.
pub open spec fn spec_byte_unit(bytes: nat) -> Seq<char> {
    if bytes < 0x100000 {
        "KB"@
    } else if bytes < 0x40000000 {
        "MB"@
    } else if bytes < 0x10000000000 {
        "GB"@
    } else {
        "TB"@
    }
}

/// The scaled tenths of a byte count under its unit, rounding half up.
pub open spec fn spec_byte_tenths(bytes: nat) -> nat {
    let denom: nat = if bytes < 0x100000 {
        1024
    } else if bytes < 0x40000000 {
        0x100000
    } else if bytes < 0x10000000000 {
        0x40000000
    } else {
        0x10000000000
    };
    (bytes * 10 + denom / 2) / denom
}

/// The rendering of a byte count: plain bytes below 1024, otherwise one
/// decimal place under the matching unit.
pub open spec fn spec_format_bytes(bytes: nat) -> Seq<char> {
    if bytes < 1024 {
        dec_of(bytes) + " B"@
    } else {
        let tenths = spec_byte_tenths(bytes);
        dec_of(tenths / 10) + "."@ + seq![digit_char(tenths % 10)] + " "@ + spec_byte_unit(bytes)
    }
}

fn digit_char_exec2(d: u64) -> (c: char)
    requires
        d < 10,
    ensures
        c == digit_char(d as nat),
{
    if d == 0 { '0' }
    else if d == 1 { '1' }
    else if d == 2 { '2' }
    else if d == 3 { '3' }
    else if d == 4 { '4' }
    else if d == 5 { '5' }
    else if d == 6 { '6' }
    else if d == 7 { '7' }
    else if d == 8 { '8' }
    else { '9' }
}

/// Render a byte count as text: plain bytes below 1024, otherwise one
/// decimal place with the matching unit.
#[verifier::rlimit(100)]
pub fn format_bytes(bytes: u64) -> (r: String)
    ensures
        r@ == spec_format_bytes(bytes as nat),
{
    if bytes < 1024 {
        let mut s = u64_to_string(bytes);
        s.append(" B");
        return s;
    }
    let denom: u64 = if bytes < 0x100000 {
        1024
    } else if bytes < 0x40000000 {
        0x100000
    } else if bytes < 0x10000000000 {
        0x40000000
    } else {
        0x10000000000
    };
    let unit: &str = if bytes < 0x100000 {
        "KB"
    } else if bytes < 0x40000000 {
        "MB"
    } else if bytes < 0x10000000000 {
        "GB"
    } else {
        "TB"
    };
    let tenths_wide: u128 = ((bytes as u128) * 10 + (denom as u128) / 2) / (denom as u128);
    proof {
        assert((bytes as int * 10 + (denom as int) / 2) / (denom as int) <= u64::MAX as int)
            by (nonlinear_arith)
            requires
                denom as int >= 1024,
                0 <= bytes as int <= u64::MAX as int,
        ;
        assert(tenths_wide as int == (bytes as int * 10 + (denom as int) / 2) / (denom as int));
    }
    let tenths: u64 = tenths_wide as u64;
    proof {
        assert(tenths as nat == spec_byte_tenths(bytes as nat));
    }
    let mut s = u64_to_string(tenths / 10);
    let mut tail: Vec<char> = Vec::new();
    tail.push('.');
    tail.push(digit_char_exec2(tenths % 10));
    let tail_s = chars_to_string(&tail);
    s.append(tail_s.as_str());
    s.append(" ");
    s.append(unit);
    proof {
        reveal_strlit(".");
        assert(tail_s@ =~= "."@ + seq![digit_char((tenths % 10) as nat)]);
        assert(s@ =~= spec_format_bytes(bytes as nat));
    }
    s
}

/// The rendering of a duration in seconds: seconds, minutes and seconds, or
/// hours, minutes and seconds.
pub open spec fn spec_format_duration(total: nat) -> Seq<char> {
    if total < 60 {
        dec_of(total) + "s"@
    } else if total < 3600 {
        dec_of(total / 60) + "m "@ + dec_of(total % 60) + "s"@
    } else {
        dec_of(total / 3600) + "h "@ + dec_of((total % 3600) / 60) + "m "@ + dec_of(total % 60)
            + "s"@
    }
}

/// Render a duration in seconds as text.
pub fn format_duration(total_seconds: u64) -> (r: String)
    ensures
        r@ == spec_format_duration(total_seconds as nat),
{
    if total_seconds < 60 {
        let mut s = u64_to_string(total_seconds);
        s.append("s");
        proof {
            assert(s@ =~= spec_format_duration(total_seconds as nat));
        }
        s
    } else if total_seconds < 3600 {
        let mut s = u64_to_string(total_seconds / 60);
        s.append("m ");
        let sec = u64_to_string(total_seconds % 60);
        s.append(sec.as_str());
        s.append("s");
        proof {
            assert(s@ =~= spec_format_duration(total_seconds as nat));
        }
        s
    } else {
        let mut s = u64_to_string(total_seconds / 3600);
        s.append("h ");
        let mins = u64_to_string((total_seconds % 3600) / 60);
        s.append(mins.as_str());
        s.append("m ");
        let sec = u64_to_string(total_seconds % 60);
        s.append(sec.as_str());
        s.append("s");
        proof {
            assert(s@ =~= spec_format_duration(total_seconds as nat));
        }
        s
    }
}

/// The truncation of a text to a budget: unchanged when it fits, an
/// ellipsis alone under a tiny budget, else a prefix and the ellipsis.
pub open spec fn spec_truncate(s: Seq<char>, max_len: nat) -> Seq<char> {
    if s.len() <= max_len {
        s
    } else if max_len <= 3 {
        "..."@
    } else {
        s.subrange(0, max_len - 3) + "..."@
    }
}

/// Truncate a text to a budget, marking the cut with an ellipsis.
#[verifier::loop_isolation(false)]
pub fn truncate_string(s: &str, max_len: usize) -> (r: String)
    ensures
        r@ == spec_truncate(s@, max_len as nat),
{
    let n = s.unicode_len();
    if n <= max_len {
        return String::from_str(s);
    }
    if max_len <= 3 {
        return String::from_str("...");
    }
    let keep = max_len - 3;
    let v = str_to_chars(s);
    let mut out: Vec<char> = Vec::new();
    let mut i: usize = 0;
    while i < keep
        invariant
            i <= keep,
            keep <= v@.len(),
            v@ == s@,
            out@ == s@.subrange(0, i as int),
        decreases keep - i,
    {
        out.push(v[i]);
        i = i + 1;
        proof {
            assert(out@ =~= s@.subrange(0, i as int));
        }
    }
    let mut r = chars_to_string(&out);
    r.append("...");
    r
}

/// An ASCII letter mapped to lower case; other characters unchanged.
pub open spec fn spec_lower_char(c: char) -> char {
    if 'A' <= c && c <= 'Z' {
        ((c as u32 + 32) as char)
    } else {
        c
    }
}

/// The ASCII lowercase image of a text.
pub open spec fn spec_lower(s: Seq<char>) -> Seq<char> {
    Seq::new(s.len(), |i: int| spec_lower_char(s[i]))
}

fn lower_char_exec(c: char) -> (r: char)
    ensures
        r == spec_lower_char(c),
{
    if 'A' <= c && c <= 'Z' {
        let u = (c as u32) + 32;
        proof {
            vstd::utf8::char_is_scalar(c);
        }
        char_from_u32_lower(u)
    } else {
        c
    }
}

/// Relies on std's char::from_u32: below the surrogate range every value is
/// a scalar and converts back to the same number.
#[verifier::external_body]
fn char_from_u32_lower(u: u32) -> (r: char)
    requires
        u < 0xd800,
    ensures
        r as u32 == u,
{
    match char::from_u32(u) {
        Some(c) => c,
        None => ' ',
    }
}

/// Map a text to ASCII lower case.
#[verifier::loop_isolation(false)]
pub fn to_ascii_lower(s: &str) -> (r: String)
    ensures
        r@ == spec_lower(s@),
{
    let v = str_to_chars(s);
    let mut out: Vec<char> = Vec::new();
    let mut i: usize = 0;
    while i < v.len()
        invariant
            i <= v@.len(),
            v@ == s@,
            out@.len() == i,
            forall|k: int| 0 <= k < i ==> out@[k] == spec_lower_char(#[trigger] s@[k]),
        decreases v@.len() - i,
    {
        let c = lower_char_exec(v[i]);
        out.push(c);
        i = i + 1;
    }
    proof {
        assert(out@ =~= spec_lower(s@));
    }
    chars_to_string(&out)
}

/// The redaction applied before logging: text whose lowercase form holds a
/// sensitive word is replaced by a redaction marker naming the first such
/// word, in the order password, token, key, secret.
pub open spec fn spec_sanitize(s: Seq<char>) -> Seq<char> {
    let lower = spec_lower(s);
    if contains_seq(lower, "password"@) {
        "[REDACTED:password]"@
    } else if contains_seq(lower, "token"@) {
        "[REDACTED:token]"@
    } else if contains_seq(lower, "key"@) {
        "[REDACTED:key]"@
    } else if contains_seq(lower, "secret"@) {
        "[REDACTED:secret]"@
    } else {
        s
    }
}

/// Redact text that mentions a sensitive word before it is logged.
pub fn sanitize_for_logging(input: &str) -> (r: String)
    ensures
        r@ == spec_sanitize(input@),
{
    let lower = to_ascii_lower(input);
    if str_contains(lower.as_str(), "password") {
        String::from_str("[REDACTED:password]")
    } else if str_contains(lower.as_str(), "token") {
        String::from_str("[REDACTED:token]")
    } else if str_contains(lower.as_str(), "key") {
        String::from_str("[REDACTED:key]")
    } else if str_contains(lower.as_str(), "secret") {
        String::from_str("[REDACTED:secret]")
    } else {
        String::from_str(input)
    }
}

/// The file extension of a path: the part of the final component after its
/// last dot, lowercased; none when the component has no dot past its first
/// character.
pub open spec fn spec_file_extension(path: Seq<char>) -> Option<Seq<char>> {
    let name_start = spec_last_index_plus_one(path, '/');
    let name = path.skip(name_start);
    let dot = spec_last_index_plus_one(name, '.');
    if dot <= 1 {
        None
    } else {
        Some(spec_lower(name.skip(dot)))
    }
}

/// One past the last occurrence of a character, or zero when absent.
pub open spec fn spec_last_index_plus_one(s: Seq<char>, c: char) -> int
    decreases s.len(),
{
    if s.len() == 0 {
        0
    } else if s.last() == c {
        s.len() as int
    } else {
        spec_last_index_plus_one(s.drop_last(), c)
    }
}

/// Extract the lowercased file extension of a path, when it has one.
#[verifier::loop_isolation(false)]
pub fn extract_file_extension(path: &str) -> (r: Option<String>)
    ensures
        match (r, spec_file_extension(path@)) {
            (Some(e), Some(w)) => e@ == w,
            (None, None) => true,
            _ => false,
        },
{
    let v = str_to_chars(path);
    let n = v.len();
    let mut name_start: usize = 0;
    let mut idx: usize = 0;
    while idx < n
        invariant
            idx <= n,
            n == path@.len(),
            v@ == path@,
            name_start <= idx,
            name_start == 0 ==> forall|j: int| 0 <= j < idx ==> path@[j] != '/',
            name_start >= 1 ==> path@[name_start - 1] == '/' && (forall|j: int|
                name_start <= j < idx ==> path@[j] != '/'),
        decreases n - idx,
    {
        if v[idx] == '/' {
            name_start = idx + 1;
        }
        idx = idx + 1;
    }
    proof {
        if name_start == 0 {
            lemma_last_index_none(path@, '/');
        } else {
            lemma_last_index_at(path@, '/', name_start as int);
        }
    }
    let ghost gname = path@.skip(name_start as int);
    let mut dot: usize = 0;
    let mut k: usize = name_start;
    while k < n
        invariant
            name_start <= k <= n,
            n == path@.len(),
            v@ == path@,
            dot <= k - name_start,
            dot == 0 ==> forall|j: int| name_start <= j < k ==> path@[j] != '.',
            dot >= 1 ==> path@[name_start + dot - 1] == '.' && (forall|j: int|
                name_start + dot <= j < k ==> path@[j] != '.'),
        decreases n - k,
    {
        if v[k] == '.' {
            dot = k + 1 - name_start;
        }
        k = k + 1;
    }
    proof {
        assert forall|j: int| 0 <= j < gname.len() implies gname[j] == path@[name_start + j] by {}
        if dot == 0 {
            lemma_last_index_none(gname, '.');
        } else {
            lemma_last_index_at(gname, '.', dot as int);
        }
    }
    if dot <= 1 {
        return None;
    }
    let mut ext: Vec<char> = Vec::new();
    let mut p: usize = name_start + dot;
    while p < n
        invariant
            name_start + dot <= p <= n,
            n == path@.len(),
            v@ == path@,
            ext@.len() == p - name_start - dot,
            forall|j: int|
                0 <= j < ext@.len() ==> ext@[j] == spec_lower_char(
                    #[trigger] path@[name_start + dot + j],
                ),
        decreases n - p,
    {
        ext.push(lower_char_exec(v[p]));
        p = p + 1;
    }
    proof {
        assert forall|j: int|
            0 <= j < ext@.len() implies ext@[j] == spec_lower(gname.skip(dot as int))[j] by {
            assert(gname.skip(dot as int)[j] == path@[name_start + dot + j]);
        }
        assert(ext@ =~= spec_lower(gname.skip(dot as int)));
    }
    Some(chars_to_string(&ext))
}

/// A witnessed last occurrence pins `spec_last_index_plus_one`.
proof fn lemma_last_index_at(s: Seq<char>, c: char, i: int)
    requires
        0 < i <= s.len(),
        s[i - 1] == c,
        forall|j: int| i <= j < s.len() ==> s[j] != c,
    ensures
        spec_last_index_plus_one(s, c) == i,
    decreases s.len(),
{
    if i < s.len() {
        lemma_last_index_at(s.drop_last(), c, i);
    }
}

/// With no occurrence `spec_last_index_plus_one` is zero.
proof fn lemma_last_index_none(s: Seq<char>, c: char)
    requires
        forall|j: int| 0 <= j < s.len() ==> s[j] != c,
    ensures
        spec_last_index_plus_one(s, c) == 0,
    decreases s.len(),
{
    if s.len() > 0 {
        lemma_last_index_none(s.drop_last(), c);
    }
}

/// Whether a character is ASCII whitespace.
pub open spec fn spec_is_space(c: char) -> bool {
    c == ' ' || c == '\t' || c == '\n' || c == '\r' || c as u32 == 0xb || c as u32 == 0xc
}

/// Validate that a field is not blank: it must hold a character beyond
/// whitespace. The error names the field.
#[verifier::loop_isolation(false)]
pub fn validate_non_empty(value: &str, field_name: &str) -> (r: McpResult<()>)
    ensures
        r is Ok <==> (exists|i: int| 0 <= i < value@.len() && !spec_is_space(#[trigger] value@[i])),
        r matches Err(e) ==> e is InvalidParams,
{
    let v = str_to_chars(value);
    let mut i: usize = 0;
    while i < v.len()
        invariant
            i <= v@.len(),
            v@ == value@,
            forall|j: int| 0 <= j < i ==> spec_is_space(#[trigger] value@[j]),
        decreases v@.len() - i,
    {
        let c = v[i];
        let space = c == ' ' || c == '\t' || c == '\n' || c == '\r' || (c as u32) == 0xb || (
        c as u32) == 0xc;
        if !space {
            return Ok(());
        }
        i = i + 1;
    }
    let mut m = String::from_str(field_name);
    m.append(" cannot be empty");
    Err(McpError::invalid_params(m))
}

/// Validate that a number lies in a closed range. The error names the field
/// and the bounds.
pub fn validate_range(value: i64, min: i64, max: i64, field_name: &str) -> (r: McpResult<()>)
    ensures
        r is Ok <==> (min <= value <= max),
        r matches Err(e) ==> e is InvalidParams,
{
    if value < min || value > max {
        let mut m = String::from_str(field_name);
        m.append(" must be between ");
        let mins = i64_to_string(min);
        m.append(mins.as_str());
        m.append(" and ");
        let maxs = i64_to_string(max);
        m.append(maxs.as_str());
        m.append(", got ");
        let vals = i64_to_string(value);
        m.append(vals.as_str());
        Err(McpError::invalid_params(m))
    } else {
        Ok(())
    }
}

/// Validate an email address's rough shape: it must contain both `@` and a
/// dot.
pub fn validate_email(email: &str) -> (r: McpResult<()>)
    ensures
        r is Ok <==> (contains_seq(email@, "@"@) && contains_seq(email@, "."@)),
        r matches Err(e) ==> e is InvalidParams,
{
    if str_contains(email, "@") && str_contains(email, ".") {
        Ok(())
    } else {
        Err(McpError::invalid_params(String::from_str("Invalid email format")))
    }
}

/// Whether a value may serve as a request id: a non-empty string or a
/// number.
pub fn validate_jsonrpc_id(id: &Json) -> (r: bool)
    ensures
        r == match id@ {
            JsonVal::Str(s) => s.len() > 0,
            JsonVal::Int(_) => true,
            _ => false,
        },
{
    match id {
        Json::Str(s) => s.as_str().unicode_len() > 0,
        Json::Int(_) => true,
        _ => false,
    }
}

/// Whether the presented key is one of the configured keys.
#[verifier::loop_isolation(false)]
pub fn validate_api_key(provided_key: &str, valid_keys: &Vec<String>) -> (r: bool)
    ensures
        r == exists|i: int|
            0 <= i < valid_keys@.len() && (#[trigger] valid_keys@[i])@ == provided_key@,
{
    let mut i: usize = 0;
    while i < valid_keys.len()
        invariant
            i <= valid_keys@.len(),
            forall|j: int| 0 <= j < i ==> (#[trigger] valid_keys@[j])@ != provided_key@,
        decreases valid_keys@.len() - i,
    {
        if str_eq(valid_keys[i].as_str(), provided_key) {
            return true;
        }
        i = i + 1;
    }
    false
}

/// Extract the token of a bearer authorization header, when it is one.
#[verifier::loop_isolation(false)]
pub fn extract_bearer_token(auth_header: &str) -> (r: Option<String>)
    ensures
        match r {
            Some(t) => crate::strings::is_prefix_of("Bearer "@, auth_header@) && t@
                == auth_header@.skip(7),
            None => !crate::strings::is_prefix_of("Bearer "@, auth_header@),
        },
{
    if !str_starts_with(auth_header, "Bearer ") {
        return None;
    }
    proof {
        reveal_strlit("Bearer ");
        assert("Bearer "@.len() == 7);
    }
    let v = str_to_chars(auth_header);
    let mut out: Vec<char> = Vec::new();
    let mut i: usize = 7;
    while i < v.len()
        invariant
            7 <= i <= v@.len(),
            v@ == auth_header@,
            out@ == auth_header@.subrange(7, i as int),
        decreases v@.len() - i,
    {
        out.push(v[i]);
        i = i + 1;
        proof {
            assert(out@ =~= auth_header@.subrange(7, i as int));
        }
    }
    proof {
        assert(out@ =~= auth_header@.skip(7));
    }
    Some(chars_to_string(&out))
}

/// Accept a bearer token. Token verification belongs to a collaborator; this
/// stub accepts every token, as the surrounding service expects.
pub fn validate_jwt_token(token: &str, secret: &str) -> (r: McpResult<bool>)
    ensures
        r matches Ok(b) && b,
{
    let _ = token;
    let _ = secret;
    Ok(true)
}

/// Relies on std's system clock: seconds since the epoch, or zero when the
/// clock reads before it. Nothing is promised of a clock reading.
#[verifier::external_body]
pub fn unix_timestamp() -> u64 {
    match std::time::SystemTime::now().duration_since(std::time::UNIX_EPOCH) {
        Ok(d) => d.as_secs(),
        Err(_) => 0,
    }
}

/// Relies on the uuid crate's `Uuid::new_v4` and its hyphenated rendering:
/// a fresh random identifier, 36 characters long.
#[verifier::external_body]
pub fn generate_request_id() -> (r: String)
    ensures
        r@.len() == 36,
{
    uuid::Uuid::new_v4().to_string()
}

/// Relies on rand's `thread_rng` and `Rng::gen_range`: an index below the
/// bound. Nothing more is promised of a random draw.
#[verifier::external_body]
fn random_below(bound: usize) -> (r: usize)
    requires
        bound > 0,
    ensures
        r < bound,
{
    rand::Rng::gen_range(&mut rand::thread_rng(), 0..bound)
}

/// Whether every character of the text is an ASCII letter or digit.
pub open spec fn spec_alphanumeric(s: Seq<char>) -> bool {
    forall|i: int|
        0 <= i < s.len() ==> (('A' <= #[trigger] s[i] && s[i] <= 'Z') || ('a' <= s[i] && s[i]
            <= 'z') || ('0' <= s[i] && s[i] <= '9'))
}

/// Produce a random text of the requested length over ASCII letters and
/// digits.
#[verifier::loop_isolation(false)]
pub fn generate_random_string(length: usize) -> (r: String)
    ensures
        r@.len() == length,
        spec_alphanumeric(r@),
{
    let charset = "ABCDEFGHIJKLMNOPQRSTUVWXYZabcdefghijklmnopqrstuvwxyz0123456789";
    proof {
        reveal_strlit("ABCDEFGHIJKLMNOPQRSTUVWXYZabcdefghijklmnopqrstuvwxyz0123456789");
    }
    let chars = str_to_chars(charset);
    let mut out: Vec<char> = Vec::new();
    let mut i: usize = 0;
    while i < length
        invariant
            i <= length,
            chars@ == charset@,
            chars@.len() == 62,
            out@.len() == i,
            spec_alphanumeric(out@),
        decreases length - i,
    {
        let idx = random_below(chars.len());
        let c = chars[idx];
        proof {
            assert(('A' <= c && c <= 'Z') || ('a' <= c && c <= 'z') || ('0' <= c && c <= '9'));
        }
        let ghost pre = out@;
        out.push(c);
        proof {
            assert forall|k: int|
                0 <= k < out@.len() implies (('A' <= #[trigger] out@[k] && out@[k] <= 'Z') || (
                'a' <= out@[k] && out@[k] <= 'z') || ('0' <= out@[k] && out@[k] <= '9')) by {
                if k < pre.len() {
                    assert(('A' <= pre[k] && pre[k] <= 'Z') || ('a' <= pre[k] && pre[k] <= 'z')
                        || ('0' <= pre[k] && pre[k] <= '9'));
                }
            }
        }
        i = i + 1;
    }
    chars_to_string(&out)
}

/// Whether the text parses as a URL. Names the outcome of the url crate's
/// parser, which depends on the input alone.
pub uninterp spec fn uri_wellformed(s: Seq<char>) -> bool;

/// Relies on the url crate's `Url::parse`: success depends only on the
/// input text.
#[verifier::external_body]
fn url_parse_ok(uri: &str) -> (r: bool)
    ensures
        r == uri_wellformed(uri@),
{
    url::Url::parse(uri).is_ok()
}

/// Whether the text is a well-formed URL.
pub fn is_valid_uri(uri: &str) -> (r: bool)
    ensures
        r == uri_wellformed(uri@),
{
    url_parse_ok(uri)
}

} // verus!
