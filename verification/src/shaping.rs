//! Shaping requests and their interpretation: script and feature tags,
//! direction hints, "tag=value" feature settings, and the shaped glyphs
//! that come back.

use vstd::prelude::*;
use crate::text::{ascii_lower, str_eq};

verus! {

/// One shaped glyph, positions in 26.6 font units.
#[derive(Debug, Clone, Copy, PartialEq, Eq, Structural)]
pub struct ShapedGlyph {
    pub glyph_id: u32,
    pub x_advance: i32,
    pub y_advance: i32,
    pub x_offset: i32,
    pub y_offset: i32,
}

/// What to shape and how: text, optional script, direction and language
/// hints, and "tag=value" feature settings.
#[derive(Debug, Clone, Copy)]
pub struct ShapeRequest<'a> {
    pub text: &'a str,
    pub script: Option<&'a str>,
    pub direction: Option<&'a str>,
    pub language: Option<&'a str>,
    pub features: &'a [String],
}

impl<'a> Default for ShapeRequest<'a> {
    /// Empty text, no hints, no features.
    fn default() -> (r: ShapeRequest<'a>)
        ensures
            r.text@.len() == 0,
            r.script is None,
            r.direction is None,
            r.language is None,
            r.features@.len() == 0,
    {
        proof {
            reveal_strlit("");
        }
        ShapeRequest { text: "", script: None, direction: None, language: None, features: &[] }
    }
}

/// The stateless shaper.
#[derive(Debug, Clone, Copy, PartialEq, Eq, Structural)]
pub struct TextShaper {}

impl TextShaper {
    /// A shaper.
    pub fn new() -> (r: TextShaper) {
        TextShaper {  }
    }
}

impl Default for TextShaper {
    /// Same as `new`.
    fn default() -> (r: TextShaper) {
        TextShaper::new()
    }
}

/// Why shaping failed.
#[derive(Debug, Clone, PartialEq, Eq)]
pub enum ShapingError {
    /// The font's shaping object could not be locked.
    FontLockFailed { path: String },
    /// The shaper returned inconsistent data.
    Internal { reason: String },
}

impl ShapingError {
    /// The error's message.
    pub fn message(&self) -> (r: String)
        ensures
            match self {
                ShapingError::FontLockFailed { path } => r@ == "Failed to lock HarfBuzz font for "@
                    + path@,
                ShapingError::Internal { reason } => r@ == "Shaping internal error: "@ + reason@,
            },
    {
        proof {
            reveal_strlit("Failed to lock HarfBuzz font for ");
            reveal_strlit("Shaping internal error: ");
        }
        match self {
            ShapingError::FontLockFailed { path } => {
                let s = String::from_str("Failed to lock HarfBuzz font for ");
                s.concat(path.as_str())
            },
            ShapingError::Internal { reason } => {
                let s = String::from_str("Shaping internal error: ");
                s.concat(reason.as_str())
            },
        }
    }
}

/// A four-character OpenType tag, or `None` for any other length.
pub fn parse_feature_tag(tag: &str) -> (r: Option<(char, char, char, char)>)
    ensures
        tag@.len() == 4 ==> r == Some((tag@[0], tag@[1], tag@[2], tag@[3])),
        tag@.len() != 4 ==> r is None,
{
    if tag.unicode_len() == 4 {
        Some((tag.get_char(0), tag.get_char(1), tag.get_char(2), tag.get_char(3)))
    } else {
        None
    }
}

/// Text direction requested from the shaper.
#[derive(Debug, Clone, Copy, PartialEq, Eq, Structural)]
pub enum TextDirection {
    Ltr,
    Rtl,
    Ttb,
    Btt,
}

/// ASCII letters lowered, one character at a time.
fn lower_char(c: char) -> (r: char)
    ensures
        r == (if 'A' <= c <= 'Z' {
            ((c as u32) + 32) as char
        } else {
            c
        }),
{
    if 'A' <= c && c <= 'Z' {
        ((c as u8) + 32) as char
    } else {
        c
    }
}

/// Whether `s`, with ASCII letters lowered, is `lower` (itself lower case).
pub fn eq_ignore_ascii_case(s: &str, lower: &str) -> (r: bool)
    ensures
        r == (ascii_lower(s@) == lower@),
{
    let n = s.unicode_len();
    if n != lower.unicode_len() {
        proof {
            assert(ascii_lower(s@).len() != lower@.len());
        }
        return false;
    }
    let mut i: usize = 0;
    while i < n
        invariant
            n == s@.len(),
            n == lower@.len(),
            0 <= i <= n,
            forall|j: int| 0 <= j < i ==> ascii_lower(s@)[j] == lower@[j],
        decreases n - i,
    {
        if lower_char(s.get_char(i)) != lower.get_char(i) {
            proof {
                assert(ascii_lower(s@)[i as int] != lower@[i as int]);
            }
            return false;
        }
        i = i + 1;
    }
    assert(ascii_lower(s@) =~= lower@);
    true
}

/// The direction a hint names: "ltr", "rtl", "ttb" or "btt" in any ASCII
/// case; anything else means left to right.
pub open spec fn direction_of(hint: Seq<char>) -> TextDirection {
    let h = ascii_lower(hint);
    if h == "rtl"@ {
        TextDirection::Rtl
    } else if h == "ttb"@ {
        TextDirection::Ttb
    } else if h == "btt"@ {
        TextDirection::Btt
    } else {
        TextDirection::Ltr
    }
}

/// The direction named by a hint (see `direction_of`).
pub fn parse_direction(hint: &str) -> (r: TextDirection)
    ensures
        r == direction_of(hint@),
{
    if eq_ignore_ascii_case(hint, "rtl") {
        TextDirection::Rtl
    } else if eq_ignore_ascii_case(hint, "ttb") {
        TextDirection::Ttb
    } else if eq_ignore_ascii_case(hint, "btt") {
        TextDirection::Btt
    } else {
        TextDirection::Ltr
    }
}

/// The value of a string of decimal digits, if it has at least one digit
/// and no other character.
pub open spec fn digits_value(s: Seq<char>) -> Option<int>
    decreases s.len(),
{
    if s.len() == 0 {
        None
    } else {
        let c = s.last();
        if '0' <= c <= '9' {
            let d = (c as int) - ('0' as int);
            if s.len() == 1 {
                Some(d)
            } else {
                match digits_value(s.drop_last()) {
                    Some(v) => Some(v * 10 + d),
                    None => None,
                }
            }
        } else {
            None
        }
    }
}

/// What `u32::from_str` accepts: an optional `+` and then decimal digits,
/// with a value that fits.
pub open spec fn u32_value(s: Seq<char>) -> Option<u32> {
    let body = if s.len() > 0 && s[0] == '+' {
        s.skip(1)
    } else {
        s
    };
    match digits_value(body) {
        Some(v) => if v <= u32::MAX {
            Some(v as u32)
        } else {
            None
        },
        None => None,
    }
}

proof fn lemma_digits_nonneg(s: Seq<char>)
    ensures
        digits_value(s) matches Some(v) ==> v >= 0,
    decreases s.len(),
{
    if s.len() > 1 {
        lemma_digits_nonneg(s.drop_last());
    }
}

/// Parse a decimal `u32` as `str::parse` does.
pub fn parse_u32(s: &str) -> (r: Option<u32>)
    ensures
        r == u32_value(s@),
{
    let n = s.unicode_len();
    let mut start: usize = 0;
    if n > 0 && s.get_char(0) == '+' {
        start = 1;
    }
    let ghost body = if s@.len() > 0 && s@[0] == '+' {
        s@.skip(1)
    } else {
        s@
    };
    proof {
        assert(body =~= s@.skip(start as int));
    }
    if start >= n {
        return None;
    }
    let mut value: u64 = 0;
    let mut i: usize = start;
    while i < n
        invariant
            n == s@.len(),
            start <= i <= n,
            start < n,
            body =~= s@.skip(start as int),
            body == (if s@.len() > 0 && s@[0] == '+' {
                s@.skip(1)
            } else {
                s@
            }),
            i > start ==> digits_value(body.take(i - start)) == Some(value as int),
            value <= u32::MAX,
            i == start ==> value == 0,
        decreases n - i,
    {
        let c = s.get_char(i);
        let ghost t = body.take(i - start + 1);
        proof {
            assert(t.drop_last() =~= body.take(i - start));
            assert(t.last() == c);
        }
        if !('0' <= c && c <= '9') {
            proof {
                assert(digits_value(t) is None);
                lemma_digits_none_extends(body, (i - start + 1) as int);
                assert(body.take(body.len() as int) =~= body);
            }
            return None;
        }
        let d = (c as u32 - '0' as u32) as u64;
        let ghost old_value = value;
        value = value * 10 + d;
        proof {
            assert(d == (c as int) - ('0' as int));
            if i == start {
                assert(t.len() == 1);
                assert(old_value == 0);
            } else {
                assert(digits_value(t.drop_last()) == Some(old_value as int));
            }
            assert(digits_value(t) == Some(value as int));
        }
        if value > u32::MAX as u64 {
            proof {
                lemma_digits_nonneg(t);
                lemma_digits_too_big_extends(body, (i - start + 1) as int);
                assert(body.take(body.len() as int) =~= body);
            }
            return None;
        }
        i = i + 1;
    }
    proof {
        assert(body.take(n - start) =~= body);
    }
    Some(value as u32)
}

/// A prefix that is not all digits keeps any longer prefix from being all
/// digits.
proof fn lemma_digits_none_extends(s: Seq<char>, k: int)
    requires
        1 <= k <= s.len(),
        digits_value(s.take(k)) is None,
    ensures
        digits_value(s) is None,
    decreases s.len() - k,
{
    if k < s.len() {
        let t = s.take(k + 1);
        assert(t.drop_last() =~= s.take(k));
        lemma_digits_none_extends(s, k + 1);
    } else {
        assert(s.take(k) =~= s);
    }
}

/// A prefix whose value is too big for a `u32` keeps the whole from fitting.
proof fn lemma_digits_too_big_extends(s: Seq<char>, k: int)
    requires
        1 <= k <= s.len(),
        digits_value(s.take(k)) matches Some(v) && v > u32::MAX,
    ensures
        !(digits_value(s) matches Some(v) && v <= u32::MAX),
    decreases s.len() - k,
{
    if k < s.len() {
        let t = s.take(k + 1);
        assert(t.drop_last() =~= s.take(k));
        lemma_digits_nonneg(s.take(k));
        if digits_value(t) is None {
            lemma_digits_none_extends(s, k + 1);
        } else {
            lemma_digits_too_big_extends(s, k + 1);
        }
    } else {
        assert(s.take(k) =~= s);
    }
}

/// Position of the first `=` in `s`, or -1.
pub open spec fn eq_pos(s: Seq<char>) -> int
    decreases s.len(),
{
    if s.len() == 0 {
        -1
    } else if s[0] == '=' {
        0
    } else {
        let r = eq_pos(s.skip(1));
        if r < 0 {
            -1
        } else {
            r + 1
        }
    }
}

proof fn lemma_eq_pos(s: Seq<char>)
    ensures
        -1 <= eq_pos(s) < s.len(),
        eq_pos(s) >= 0 ==> s[eq_pos(s)] == '=',
        forall|j: int| 0 <= j < s.len() && (eq_pos(s) < 0 || j < eq_pos(s)) ==> s[j] != '=',
    decreases s.len(),
{
    if s.len() > 0 && s[0] != '=' {
        let t = s.skip(1);
        lemma_eq_pos(t);
        assert forall|j: int| 0 <= j < s.len() && (eq_pos(s) < 0 || j < eq_pos(s)) implies s[j] != '=' by {
            if j > 0 {
                assert(s[j] == t[j - 1]);
            }
        }
        if eq_pos(t) >= 0 {
            assert(s[eq_pos(s)] == t[eq_pos(t)]);
        }
    }
}

/// A feature setting: "tag=value" gives the tag and the value, a bare tag is
/// switched on (value 1); a tag that is not four characters, or a value
/// that is not a `u32`, gives nothing.
pub open spec fn feature_setting(s: Seq<char>) -> Option<((char, char, char, char), u32)> {
    let p = eq_pos(s);
    let tag = if p >= 0 {
        s.take(p)
    } else {
        s
    };
    if tag.len() != 4 {
        None
    } else if p >= 0 {
        match u32_value(s.skip(p + 1)) {
            Some(v) => Some(((tag[0], tag[1], tag[2], tag[3]), v)),
            None => None,
        }
    } else {
        Some(((tag[0], tag[1], tag[2], tag[3]), 1u32))
    }
}

/// Parse one feature setting (see `feature_setting`).
pub fn parse_feature(s: &str) -> (r: Option<((char, char, char, char), u32)>)
    ensures
        r == feature_setting(s@),
{
    proof {
        lemma_eq_pos(s@);
    }
    let n = s.unicode_len();
    let mut i: usize = 0;
    while i < n && s.get_char(i) != '='
        invariant
            n == s@.len(),
            0 <= i <= n,
            forall|j: int| 0 <= j < i ==> s@[j] != '=',
        decreases n - i,
    {
        i = i + 1;
    }
    if i < n {
        proof {
            assert(s@[i as int] == '=');
            assert(eq_pos(s@) == i) by {
                if eq_pos(s@) < 0 || eq_pos(s@) > i {
                    assert(s@[i as int] != '=');
                } else if eq_pos(s@) < i {
                    assert(s@[eq_pos(s@)] != '=');
                }
            }
        }
        let tag_str = s.substring_char(0, i);
        let val_str = s.substring_char(i + 1, n);
        proof {
            assert(tag_str@ =~= s@.take(i as int));
            assert(val_str@ =~= s@.skip(i + 1));
        }
        match parse_feature_tag(tag_str) {
            Some(tag) => match parse_u32(val_str) {
                Some(v) => Some((tag, v)),
                None => None,
            },
            None => None,
        }
    } else {
        proof {
            assert(eq_pos(s@) < 0) by {
                if eq_pos(s@) >= 0 {
                    assert(s@[eq_pos(s@)] == '=');
                }
            }
        }
        match parse_feature_tag(s) {
            Some(tag) => Some((tag, 1u32)),
            None => None,
        }
    }
}

/// The settings of the features that parse, in order.
pub open spec fn feature_settings(fs: Seq<String>, n: int) -> Seq<((char, char, char, char), u32)>
    decreases n,
{
    if n <= 0 {
        Seq::empty()
    } else {
        let r = feature_settings(fs, n - 1);
        match feature_setting(fs[n - 1]@) {
            Some(f) => r.push(f),
            None => r,
        }
    }
}

/// Parse every feature setting of a request, dropping those that do not parse.
pub fn parse_features(features: &[String]) -> (r: Vec<((char, char, char, char), u32)>)
    ensures
        r@ == feature_settings(features@, features@.len() as int),
{
    let mut r: Vec<((char, char, char, char), u32)> = Vec::new();
    let mut i: usize = 0;
    while i < features.len()
        invariant
            0 <= i <= features@.len(),
            r@ == feature_settings(features@, i as int),
        decreases features@.len() - i,
    {
        match parse_feature(features[i].as_str()) {
            Some(f) => r.push(f),
            None => {},
        }
        i = i + 1;
    }
    r
}

} // verus!
