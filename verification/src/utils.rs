//! Common utilities: timing, text helpers, size formatting, and input
//! validation, each against an exact description where one is expressible.

use vstd::prelude::*;

use crate::text::{
    dec_digits, digit_char, is_whitespace_char, is_ws_char, push_char, split_whitespace_tokens,
    split_ws, u64_to_string,
};
use vstd::string::StringSliceAdditionalSpecFns;

verus! {

/// Relies on `std::time::SystemTime::now` and `duration_since`: the seconds
/// since the Unix epoch, and zero for a clock that reads before it, so the
/// call is total. The clock decides the value; nothing more is assumed of
/// it.
#[verifier::external_body]
fn unix_seconds() -> u64 {
    match std::time::SystemTime::now().duration_since(std::time::UNIX_EPOCH) {
        Ok(d) => d.as_secs(),
        Err(_) => 0,
    }
}

/// Relies on `std::time::SystemTime::now` and `duration_since`: the
/// milliseconds since the Unix epoch, zero for a clock that reads before it
/// and the largest value where the count outgrows its type, so the call is
/// total. The clock decides the value; nothing more is assumed of it.
#[verifier::external_body]
fn unix_millis() -> u64 {
    match std::time::SystemTime::now().duration_since(std::time::UNIX_EPOCH) {
        Ok(d) => u64::try_from(d.as_millis()).unwrap_or(u64::MAX),
        Err(_) => 0,
    }
}

/// The current Unix time in seconds.
pub fn now_seconds() -> u64 {
    unix_seconds()
}

/// The current Unix time in milliseconds.
pub fn now_millis() -> u64 {
    unix_millis()
}

/// Performance timer for measuring operation duration.
#[derive(Debug)]
pub struct Timer {
    start: u64,
    name: String,
}

impl Timer {
    /// Start a new timer with a name.
    pub fn new(name: &str) -> Timer {
        Timer { start: now_millis(), name: String::from_str(name) }
    }

    /// Milliseconds since the timer started, zero if the clock stepped
    /// backwards.
    pub fn elapsed_ms(&self) -> u64 {
        let now = now_millis();
        if now >= self.start {
            now - self.start
        } else {
            0
        }
    }

    /// Stop the timer, yielding the elapsed milliseconds.
    pub fn stop(self) -> u64 {
        self.elapsed_ms()
    }
}

/// Text processing utilities.
pub struct TextUtils;

/// The truncation of `s` to `max` bytes of its UTF-8 encoding: unchanged
/// when the encoding fits, else the characters of its first `max - 3` bytes
/// with an ellipsis appended.
pub open spec fn truncate_spec(s: Seq<char>, max: nat) -> Seq<char> {
    let bytes = vstd::utf8::encode_utf8(s);
    if bytes.len() <= max {
        s
    } else {
        vstd::utf8::decode_utf8(
            bytes.take(
                if max >= 3 {
                    (max - 3) as int
                } else {
                    0
                },
            ),
        ) + "..."@
    }
}

/// What remains of a sequence after one character is kept or replaced by
/// the filename rule.
pub open spec fn keep_in_sanitized(c: char) -> bool {
    let u = c as u32;
    !(u < 0x20 || (0x7f <= u && u <= 0x9f)) || is_ws_char(c)
}

/// The control characters removed, whitespace kept.
pub open spec fn sanitize_spec(s: Seq<char>) -> Seq<char> {
    s.filter(|c: char| keep_in_sanitized(c))
}

/// The preview of `s`: its first `max_words` whitespace tokens joined with
/// spaces, with an ellipsis when that many tokens were available.
pub open spec fn preview_spec(s: Seq<char>, max_words: nat) -> Seq<char> {
    let ws = split_ws(s);
    let taken = ws.take(if max_words <= ws.len() {
        max_words as int
    } else {
        ws.len() as int
    });
    if ws.len() >= max_words {
        crate::text::join_tokens(taken) + "..."@
    } else {
        crate::text::join_tokens(taken)
    }
}

impl TextUtils {
    /// Truncate text to the given number of bytes, with an ellipsis. The
    /// cut three bytes short of the limit must fall on a character
    /// boundary; elsewhere the byte slice has no meaning.
    pub fn truncate(text: &str, max_length: usize) -> (r: String)
        requires
            text.spec_bytes().len() <= usize::MAX,
            text.spec_bytes().len() <= max_length || vstd::utf8::is_char_boundary(
                text.spec_bytes(),
                if max_length >= 3 {
                    (max_length - 3) as int
                } else {
                    0
                },
            ),
        ensures
            r@ == truncate_spec(text@, max_length as nat),
    {
        let n = text.len();
        if n <= max_length {
            let r = String::from_str(text);
            proof {
                assert(text.spec_bytes() == vstd::utf8::encode_utf8(text@));
                assert(vstd::utf8::encode_utf8(text@).len() <= max_length);
                assert(truncate_spec(text@, max_length as nat) == text@);
            }
            r
        } else {
            let keep = if max_length >= 3 {
                max_length - 3
            } else {
                0
            };
            let (head, _tail) = text.split_at(keep);
            let r = String::from_str(head).concat("...");
            proof {
                broadcast use vstd::utf8::encode_utf8_decode_utf8;

                assert(head.spec_bytes() == text.spec_bytes().subrange(0, keep as int));
                assert(vstd::utf8::decode_utf8(vstd::utf8::encode_utf8(head@)) == head@);
                assert(text.spec_bytes().take(keep as int) =~= text.spec_bytes().subrange(
                    0,
                    keep as int,
                ));
                assert(head.spec_bytes() == vstd::utf8::encode_utf8(head@));
                assert(head@ == vstd::utf8::decode_utf8(
                    vstd::utf8::encode_utf8(text@).take(keep as int),
                ));
                assert(vstd::utf8::encode_utf8(text@).len() > max_length);
                assert(r@ =~= truncate_spec(text@, max_length as nat));
            }
            r
        }
    }

    /// Extract a preview of at most `max_words` words.
    pub fn extract_preview(text: &str, max_words: usize) -> (r: String)
        ensures
            r@ == preview_spec(text@, max_words as nat),
    {
        let mut words = split_whitespace_tokens(text);
        let total = words.len();
        let ghost pre = words@;
        let ghost dv0 = words.deep_view();
        words.truncate(max_words);
        proof {
            let ws = split_ws(text@);
            let m: int = if max_words <= pre.len() {
                max_words as int
            } else {
                pre.len() as int
            };
            if max_words <= pre.len() {
                assert(words@ =~= pre.take(max_words as int));
            } else {
                assert(words@ =~= pre.take(pre.len() as int));
            }
            assert forall|k: int| 0 <= k < words@.len() implies words.deep_view()[k] == ws.take(
                m,
            )[k] by {
                assert(words.deep_view()[k] == words@[k]@);
                assert(words@[k] == pre[k]);
                assert(dv0[k] == pre[k]@);
                assert(ws[k] == pre[k]@);
            }
            assert(words.deep_view() =~= ws.take(m));
        }
        let joined = crate::text::join_with_spaces(&words);
        if total >= max_words {
            let r = joined.concat("...");
            proof {
                assert(r@ =~= preview_spec(text@, max_words as nat));
            }
            r
        } else {
            proof {
                assert(joined@ =~= preview_spec(text@, max_words as nat));
            }
            joined
        }
    }

    /// Sanitize text for safe display: control characters are removed,
    /// whitespace is kept.
    pub fn sanitize(text: &str) -> (r: String)
        ensures
            r@ == sanitize_spec(text@),
    {
        let n = text.unicode_len();
        let mut r = String::new();
        let mut i: usize = 0;
        proof {
            reveal(Seq::filter);
            assert(text@.take(0).filter(|c: char| keep_in_sanitized(c)) =~= Seq::<char>::empty());
        }
        while i < n
            invariant
                n == text@.len(),
                i <= n,
                r@ == text@.take(i as int).filter(|c: char| keep_in_sanitized(c)),
            decreases n - i,
        {
            let c = text.get_char(i);
            proof {
                assert(text@.take(i + 1 as int) =~= text@.take(i as int).push(text@[i as int]));
                text@.take(i as int).lemma_filter_push(c, |c: char| keep_in_sanitized(c));
            }
            let u = c as u32;
            let is_control = u < 0x20 || (0x7f <= u && u <= 0x9f);
            if !is_control || is_whitespace_char(c) {
                push_char(&mut r, c);
            }
            i += 1;
        }
        proof {
            assert(text@.take(n as int) =~= text@);
        }
        r
    }

    /// Count whitespace-separated words.
    pub fn word_count(text: &str) -> (r: usize)
        ensures
            r == split_ws(text@).len(),
    {
        let tokens = split_whitespace_tokens(text);
        proof {
            assert(tokens.deep_view().len() == tokens@.len());
        }
        tokens.len()
    }

    /// A stable hash of the text in lowercase hexadecimal, for cache keys.
    pub fn text_hash(text: &str) -> (r: String)
        ensures
            r@ == hex_digits(fnv1a(text.spec_bytes()) as nat),
    {
        let bytes = text.as_bytes_vec();
        let mut h: u64 = 0xcbf29ce484222325;
        let mut i: usize = 0;
        while i < bytes.len()
            invariant
                i <= bytes@.len(),
                h == fnv1a(bytes@.take(i as int)),
            decreases bytes@.len() - i,
        {
            proof {
                assert(bytes@.take(i + 1 as int).drop_last() =~= bytes@.take(i as int));
                assert(bytes@.take(i + 1 as int).last() == bytes@[i as int]);
            }
            let b = bytes[i];
            let mixed: u64 = h ^ (b as u64);
            let prod: u128 = (mixed as u128) * 0x100000001b3u128;
            h = (prod % 0x1_0000_0000_0000_0000u128) as u64;
            i += 1;
        }
        proof {
            assert(bytes@.take(bytes@.len() as int) =~= bytes@);
        }
        u64_to_hex(h)
    }
}

/// The 64-bit FNV-1a hash of a byte sequence.
pub open spec fn fnv1a(bytes: Seq<u8>) -> u64
    decreases bytes.len(),
{
    if bytes.len() == 0 {
        0xcbf29ce484222325u64
    } else {
        ((((fnv1a(bytes.drop_last()) ^ (bytes.last() as u64)) as nat) * 0x100000001b3)
            % 0x1_0000_0000_0000_0000) as u64
    }
}

/// The character for a hexadecimal digit, lowercase.
pub open spec fn hex_char_spec(d: nat) -> char {
    if d < 10 {
        crate::text::digit_char_spec(d)
    } else if d == 10 {
        'a'
    } else if d == 11 {
        'b'
    } else if d == 12 {
        'c'
    } else if d == 13 {
        'd'
    } else if d == 14 {
        'e'
    } else {
        'f'
    }
}

/// The hexadecimal representation of `n`, most significant digit first,
/// with no leading zeros.
pub open spec fn hex_digits(n: nat) -> Seq<char>
    decreases n,
{
    if n < 16 {
        seq![hex_char_spec(n)]
    } else {
        hex_digits(n / 16).push(hex_char_spec(n % 16))
    }
}

/// The character for one hexadecimal digit.
fn hex_char(d: u64) -> (c: char)
    requires
        d < 16,
    ensures
        c == hex_char_spec(d as nat),
{
    if d < 10 {
        digit_char(d)
    } else if d == 10 {
        'a'
    } else if d == 11 {
        'b'
    } else if d == 12 {
        'c'
    } else if d == 13 {
        'd'
    } else if d == 14 {
        'e'
    } else {
        'f'
    }
}

/// Writes `n` in lowercase hexadecimal.
fn u64_to_hex(n: u64) -> (r: String)
    ensures
        r@ == hex_digits(n as nat),
    decreases n,
{
    if n < 16 {
        let mut r = String::new();
        push_char(&mut r, hex_char(n));
        proof {
            assert(r@ =~= seq![hex_char_spec(n as nat)]);
        }
        r
    } else {
        let mut r = u64_to_hex(n / 16);
        push_char(&mut r, hex_char(n % 16));
        r
    }
}

/// System utilities.
pub struct SystemUtils;

/// The size formatted with its unit: plain bytes below one kibibyte, else
/// the value scaled by the largest fitting power of 1024 up to terabytes,
/// rounded to two decimals, halves away from zero.
pub open spec fn format_bytes_spec(b: nat) -> Seq<char> {
    let k: nat = if b < 1024 {
        0
    } else if b < 0x100000 {
        1
    } else if b < 0x40000000 {
        2
    } else if b < 0x10000000000 {
        3
    } else {
        4
    };
    if k == 0 {
        dec_digits(b) + " B"@
    } else {
        let div: nat = if k == 1 {
            1024
        } else if k == 2 {
            0x100000
        } else if k == 3 {
            0x40000000
        } else {
            0x10000000000
        };
        let h = (b * 200 + div) / (2 * div);
        let unit: Seq<char> = if k == 1 {
            " KB"@
        } else if k == 2 {
            " MB"@
        } else if k == 3 {
            " GB"@
        } else {
            " TB"@
        };
        dec_digits(h / 100) + "."@ + seq![
            crate::text::digit_char_spec((h % 100) / 10),
            crate::text::digit_char_spec(h % 10),
        ] + unit
    }
}

/// The duration written as hours, minutes and seconds, dropping the units
/// that lead with zero.
pub open spec fn format_duration_spec(total_seconds: nat) -> Seq<char> {
    let hours = total_seconds / 3600;
    let minutes = (total_seconds % 3600) / 60;
    let seconds = total_seconds % 60;
    if hours > 0 {
        dec_digits(hours) + "h "@ + dec_digits(minutes) + "m "@ + dec_digits(seconds) + "s"@
    } else if minutes > 0 {
        dec_digits(minutes) + "m "@ + dec_digits(seconds) + "s"@
    } else {
        dec_digits(seconds) + "s"@
    }
}

impl SystemUtils {
    /// Current memory usage in bytes: not measured here.
    pub fn memory_usage() -> (r: Option<u64>)
        ensures
            r is None,
    {
        None
    }

    /// System uptime in seconds: not measured here.
    pub fn uptime() -> (r: Option<u64>)
        ensures
            r is None,
    {
        None
    }

    /// Format bytes as a human-readable string.
    pub fn format_bytes(bytes: u64) -> (r: String)
        ensures
            r@ == format_bytes_spec(bytes as nat),
    {
        if bytes < 1024 {
            let r = u64_to_string(bytes).concat(" B");
            proof {
                assert(r@ =~= format_bytes_spec(bytes as nat));
            }
            return r;
        }
        let div: u64 = if bytes < 0x100000 {
            1024
        } else if bytes < 0x40000000 {
            0x100000
        } else if bytes < 0x10000000000 {
            0x40000000
        } else {
            0x10000000000
        };
        let h128: u128 = ((bytes as u128) * 200 + (div as u128)) / (2 * (div as u128));
        let ghost bn: nat = bytes as nat;
        let ghost dn: nat = div as nat;
        proof {
            assert(h128 == (bn * 200 + dn) / (2 * dn));
            assert(bn * 200 + dn < 0x10000000000000000 * 2048) by (nonlinear_arith)
                requires
                    bn < 0x10000000000000000,
                    dn <= 0x10000000000,
            ;
            assert((bn * 200 + dn) / 2048 < 0x10000000000000000) by (nonlinear_arith)
                requires
                    bn * 200 + dn < 0x10000000000000000 * 2048,
            ;
            assert((bn * 200 + dn) / (2 * dn) <= (bn * 200 + dn) / 2048) by (nonlinear_arith)
                requires
                    dn >= 1024,
            ;
        }
        let h: u64 = h128 as u64;
        proof {
            assert(h == h128);
        }
        let mut r = u64_to_string(h / 100);
        r.append(".");
        push_char(&mut r, digit_char((h % 100) / 10));
        push_char(&mut r, digit_char(h % 10));
        if bytes < 0x100000 {
            r.append(" KB");
        } else if bytes < 0x40000000 {
            r.append(" MB");
        } else if bytes < 0x10000000000 {
            r.append(" GB");
        } else {
            r.append(" TB");
        }
        proof {
            assert(r@ =~= format_bytes_spec(bytes as nat));
        }
        r
    }

    /// Format a duration in seconds as a human-readable string.
    pub fn format_duration(total_seconds: u64) -> (r: String)
        ensures
            r@ == format_duration_spec(total_seconds as nat),
    {
        let hours = total_seconds / 3600;
        let minutes = (total_seconds % 3600) / 60;
        let seconds = total_seconds % 60;
        if hours > 0 {
            let mut r = u64_to_string(hours);
            r.append("h ");
            let m = u64_to_string(minutes);
            r.append(m.as_str());
            r.append("m ");
            let s = u64_to_string(seconds);
            r.append(s.as_str());
            r.append("s");
            proof {
                assert(r@ =~= format_duration_spec(total_seconds as nat));
            }
            r
        } else if minutes > 0 {
            let mut r = u64_to_string(minutes);
            r.append("m ");
            let s = u64_to_string(seconds);
            r.append(s.as_str());
            r.append("s");
            proof {
                assert(r@ =~= format_duration_spec(total_seconds as nat));
            }
            r
        } else {
            let mut r = u64_to_string(seconds);
            r.append("s");
            proof {
                assert(r@ =~= format_duration_spec(total_seconds as nat));
            }
            r
        }
    }
}

/// Validation utilities.
pub struct ValidationUtils;

/// What `uuid::Uuid::parse_str` accepts: a function of the characters
/// alone.
pub uninterp spec fn parses_as_uuid(s: Seq<char>) -> bool;

/// Relies on `uuid::Uuid::parse_str`: whether the text is a well-formed
/// UUID, a function of the characters alone.
#[verifier::external_body]
fn uuid_parse_ok(s: &str) -> (r: bool)
    ensures
        r == parses_as_uuid(s@),
{
    uuid::Uuid::parse_str(s).is_ok()
}

/// What `regex::Regex::is_match` reports for a pattern and a text: a
/// function of the two character sequences alone, false where the pattern
/// does not compile.
pub uninterp spec fn regex_match_of(pattern: Seq<char>, text: Seq<char>) -> bool;

/// Relies on `regex::Regex::new` and `regex::Regex::is_match`: whether the
/// text matches the pattern, a function of the two strings alone.
#[verifier::external_body]
fn regex_is_match(pattern: &str, text: &str) -> (r: bool)
    ensures
        r == regex_match_of(pattern@, text@),
{
    regex::Regex::new(pattern).map(|re| re.is_match(text)).unwrap_or(false)
}

/// The whitespace stripped from both ends.
pub open spec fn trim_spec(s: Seq<char>) -> Seq<char>
    decreases s.len(),
{
    if s.len() == 0 {
        s
    } else if is_ws_char(s[0]) {
        trim_spec(s.drop_first())
    } else if is_ws_char(s.last()) {
        trim_spec(s.drop_last())
    } else {
        s
    }
}

/// What `char::is_alphanumeric` reports: a function of the character alone.
pub uninterp spec fn alnum_char(c: char) -> bool;

/// Relies on `char::is_alphanumeric`: whether the character is a letter or
/// a digit, a function of the character alone.
#[verifier::external_body]
fn char_is_alphanumeric(c: char) -> (r: bool)
    ensures
        r == alnum_char(c),
{
    c.is_alphanumeric()
}

/// The filename with every character outside letters, digits, `-`, `_` and
/// `.` replaced by `_`.
pub open spec fn sanitize_filename_spec(s: Seq<char>) -> Seq<char> {
    s.map_values(
        |c: char|
            if alnum_char(c) || c == '-' || c == '_' || c == '.' {
                c
            } else {
                '_'
            },
    )
}

impl ValidationUtils {
    /// Validate case ID format: it must read as a UUID.
    pub fn is_valid_case_id(id: &str) -> (r: bool)
        ensures
            r == parses_as_uuid(id@),
    {
        uuid_parse_ok(id)
    }

    /// Validate legal citation format: volume, reporter, page, and a year
    /// in parentheses.
    pub fn is_valid_citation(citation: &str) -> (r: bool)
        ensures
            r == regex_match_of("^\\d+\\s+[A-Za-z.]+\\s+\\d+.*\\(\\d{4}\\)"@, citation@),
    {
        regex_is_match("^\\d+\\s+[A-Za-z.]+\\s+\\d+.*\\(\\d{4}\\)", citation)
    }

    /// Validate a search query: after trimming it must be non-empty and
    /// within the length window.
    pub fn is_valid_search_query(query: &str, min_length: usize, max_length: usize) -> (r: bool)
        ensures
            r == (trim_spec(query@).len() > 0 && min_length <= trim_spec(query@).len()
                && trim_spec(query@).len() <= max_length),
    {
        let n = query.unicode_len();
        let mut a: usize = 0;
        proof {
            assert(query@.subrange(0, n as int) =~= query@);
        }
        while a < n && is_whitespace_char(query.get_char(a))
            invariant
                n == query@.len(),
                a <= n,
                trim_spec(query@) == trim_spec(query@.subrange(a as int, n as int)),
                forall|k: int| 0 <= k < a ==> is_ws_char(query@[k]),
            decreases n - a,
        {
            proof {
                let sub = query@.subrange(a as int, n as int);
                assert(sub[0] == query@[a as int]);
                assert(sub.drop_first() =~= query@.subrange(a + 1 as int, n as int));
            }
            a += 1;
        }
        let mut b: usize = n;
        while b > a && is_whitespace_char(query.get_char(b - 1))
            invariant
                n == query@.len(),
                a <= b <= n,
                a < n ==> !is_ws_char(query@[a as int]),
                a == n ==> b == n,
                trim_spec(query@) == trim_spec(query@.subrange(a as int, b as int)),
            decreases b,
        {
            proof {
                let sub = query@.subrange(a as int, b as int);
                assert(sub.len() > 0);
                assert(sub[0] == query@[a as int]);
                assert(sub.last() == query@[(b - 1) as int]);
                assert(sub.drop_last() =~= query@.subrange(a as int, (b - 1) as int));
            }
            b -= 1;
        }
        proof {
            let sub = query@.subrange(a as int, b as int);
            if sub.len() > 0 {
                assert(sub[0] == query@[a as int]);
                assert(sub.last() == query@[(b - 1) as int]);
                assert(trim_spec(sub) == sub);
            }
        }
        let len = b - a;
        len > 0 && len >= min_length && len <= max_length
    }

    /// Sanitize filename for safe file operations.
    pub fn sanitize_filename(filename: &str) -> (r: String)
        ensures
            r@ == sanitize_filename_spec(filename@),
    {
        let n = filename.unicode_len();
        let mut r = String::new();
        let mut i: usize = 0;
        while i < n
            invariant
                n == filename@.len(),
                i <= n,
                r@.len() == i,
                forall|k: int| 0 <= k < i ==> r@[k] == sanitize_filename_spec(filename@)[k],
            decreases n - i,
        {
            let c = filename.get_char(i);
            let keep = char_is_alphanumeric(c) || c == '-' || c == '_' || c == '.';
            if keep {
                push_char(&mut r, c);
            } else {
                push_char(&mut r, '_');
            }
            i += 1;
        }
        proof {
            assert(r@ =~= sanitize_filename_spec(filename@));
        }
        r
    }
}

} // verus!
