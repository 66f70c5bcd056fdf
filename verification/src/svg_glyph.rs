//! OpenType-SVG glyph documents: finding a glyph's document in the SVG
//! table, cutting one glyph's group out of a shared document into a
//! standalone SVG, and replacing CSS palette variables with palette colors.

use vstd::prelude::*;
use crate::font_data::{
    decode_utf8, font_parses, gunzip_text, gunzipped_text, parses_as_font, svg_document_list,
    svg_documents, utf8_text,
};
use crate::text::{chars_of, decimal, decimal_string};

verus! {

/// `pat` occurs in `s` at position `i`.
pub open spec fn occurs_at(s: Seq<char>, pat: Seq<char>, i: int) -> bool {
    0 <= i && i + pat.len() <= s.len() && s.subrange(i, i + pat.len()) == pat
}

/// The first position at or after `from` where `pat` occurs.
pub open spec fn find_from(s: Seq<char>, pat: Seq<char>, from: int) -> Option<int>
    decreases s.len() + 1 - from,
{
    if from < 0 || from + pat.len() > s.len() {
        None
    } else if occurs_at(s, pat, from) {
        Some(from)
    } else {
        find_from(s, pat, from + 1)
    }
}

/// Where `find_from` finds `pat`, it occurs, at or after `from`, and not
/// before.
pub proof fn lemma_find_from(s: Seq<char>, pat: Seq<char>, from: int)
    requires
        0 <= from,
    ensures
        match find_from(s, pat, from) {
            Some(k) => from <= k && occurs_at(s, pat, k) && forall|j: int|
                from <= j < k ==> !occurs_at(s, pat, j),
            None => forall|j: int| from <= j ==> !occurs_at(s, pat, j),
        },
    decreases s.len() + 1 - from,
{
    if from + pat.len() > s.len() {
    } else if occurs_at(s, pat, from) {
    } else {
        lemma_find_from(s, pat, from + 1);
    }
}

/// Whether `pat` occurs in `s` at position `i`, as code.
fn occurs_at_exec(s: &Vec<char>, pat: &Vec<char>, i: usize) -> (r: bool)
    ensures
        r == occurs_at(s@, pat@, i as int),
{
    let n = s.len();
    if i > n || pat.len() > n - i {
        return false;
    }
    let mut k: usize = 0;
    while k < pat.len()
        invariant
            n == s@.len(),
            i + pat@.len() <= s@.len(),
            0 <= k <= pat@.len(),
            forall|j: int| 0 <= j < k ==> s@[i + j] == pat@[j],
        decreases pat@.len() - k,
    {
        if s[i + k] != pat[k] {
            assert(s@.subrange(i as int, i + pat@.len())[k as int] != pat@[k as int]);
            return false;
        }
        k = k + 1;
    }
    assert(s@.subrange(i as int, i + pat@.len()) =~= pat@);
    true
}

/// `find_from` as code.
pub fn find_in(s: &Vec<char>, pat: &Vec<char>, from: usize) -> (r: Option<usize>)
    ensures
        match r {
            Some(k) => find_from(s@, pat@, from as int) == Some(k as int),
            None => find_from(s@, pat@, from as int) is None,
        },
{
    let n = s.len();
    if from > n {
        return None;
    }
    let mut k = from;
    while pat.len() <= n - k
        invariant
            n == s@.len(),
            find_from(s@, pat@, from as int) == find_from(s@, pat@, k as int),
            from <= k <= n,
        decreases n + 1 - k,
    {
        if occurs_at_exec(s, pat, k) {
            return Some(k);
        }
        proof {
            if pat@.len() == 0 {
                assert(s@.subrange(k as int, k as int) =~= pat@);
            }
        }
        k = k + 1;
    }
    None
}

/// The `<defs>` sections of a document from position `from` on, in order:
/// each runs from `<defs` to the next `</defs>`; the search stops at the
/// first section without an end.
pub open spec fn defs_from(s: Seq<char>, from: int) -> Seq<char>
    decreases s.len() + 1 - from,
{
    if from < 0 {
        Seq::empty()
    } else {
        match find_from(s, "<defs"@, from) {
            None => Seq::empty(),
            Some(a) => match find_from(s, "</defs>"@, a) {
                None => Seq::empty(),
                Some(e) => {
                    proof {
                        lemma_find_from(s, "<defs"@, from);
                        lemma_find_from(s, "</defs>"@, a);
                        reveal_strlit("</defs>");
                    }
                    s.subrange(a, e + 7) + defs_from(s, e + 7)
                },
            },
        }
    }
}

/// All `<defs>` sections of an SVG document, concatenated.
pub fn extract_defs(svg: &str) -> (r: String)
    ensures
        r@ == defs_from(svg@, 0),
{
    let cs = chars_of(svg);
    let open = chars_of("<defs");
    let close = chars_of("</defs>");
    proof {
        reveal_strlit("</defs>");
    }
    let n = cs.len();
    let mut out = String::new();
    let mut from: usize = 0;
    loop
        invariant
            n == cs@.len(),
            cs@ == svg@,
            open@ == "<defs"@,
            close@ == "</defs>"@,
            close@.len() == 7,
            from <= cs@.len(),
            out@ + defs_from(cs@, from as int) == defs_from(cs@, 0),
        ensures
            out@ == defs_from(cs@, 0),
        decreases cs@.len() + 1 - from,
    {
        match find_in(&cs, &open, from) {
            None => {
                return out;
            },
            Some(a) => {
                match find_in(&cs, &close, a) {
                    None => {
                        assert(defs_from(cs@, from as int) == Seq::<char>::empty());
                        return out;
                    },
                    Some(e) => {
                        proof {
                            lemma_find_from(cs@, open@, from as int);
                            lemma_find_from(cs@, close@, a as int);
                        }
                        let piece = svg.substring_char(a, e + 7);
                        let ghost before = out@;
                        out = out.concat(piece);
                        proof {
                            assert(out@ + defs_from(cs@, e + 7) == before + defs_from(cs@, from as int));
                        }
                        from = e + 7;
                    },
                }
            },
        }
    }
    out
}

/// Namespace declarations a standalone glyph document needs: XLink, when
/// the document uses the `xlink:` prefix.
pub open spec fn namespaces(s: Seq<char>) -> Seq<char> {
    if find_from(s, "xlink:"@, 0) is Some {
        " xmlns:xlink=\"http://www.w3.org/1999/xlink\""@
    } else {
        Seq::empty()
    }
}

/// The namespace declarations an extracted glyph document needs.
pub fn extract_namespaces(svg: &str) -> (r: String)
    ensures
        r@ == namespaces(svg@),
{
    let cs = chars_of(svg);
    let pat = chars_of("xlink:");
    if find_in(&cs, &pat, 0).is_some() {
        String::from_str(" xmlns:xlink=\"http://www.w3.org/1999/xlink\"")
    } else {
        String::new()
    }
}

/// A group opens at `p`: `<g` followed by a space or `>`, or by one last
/// ASCII character (the scan works on bytes, where only one byte follows).
pub open spec fn opens_group(s: Seq<char>, p: int) -> bool {
    &&& 0 <= p
    &&& p + 2 < s.len()
    &&& s[p] == '<'
    &&& s[p + 1] == 'g'
    &&& ((p + 3 == s.len() && (s[p + 2] as u32) < 128) || s[p + 2] == ' ' || s[p + 2] == '>')
}

/// A group closes at `p`.
pub open spec fn closes_group(s: Seq<char>, p: int) -> bool {
    occurs_at(s, "</g>"@, p)
}

/// Where the group that is `depth` levels deep at position `p` ends: the
/// position of its `</g>`, counting nested groups.
pub open spec fn group_end(s: Seq<char>, p: int, depth: int) -> Option<int>
    decreases s.len() - p,
{
    if p < 0 || p >= s.len() {
        None
    } else if p + 2 < s.len() && s[p] == '<' && s[p + 1] == 'g' {
        if opens_group(s, p) {
            group_end(s, p + 1, depth + 1)
        } else {
            group_end(s, p + 1, depth)
        }
    } else if closes_group(s, p) {
        if depth - 1 == 0 {
            Some(p)
        } else {
            group_end(s, p + 1, depth - 1)
        }
    } else {
        group_end(s, p + 1, depth)
    }
}

/// The content of a group element whose opening tag ends right before the
/// text: everything up to its matching `</g>`.
pub fn extract_group_content(svg_after_tag: &str) -> (r: Option<String>)
    ensures
        match group_end(svg_after_tag@, 0, 1) {
            Some(p) => r matches Some(c) && c@ == svg_after_tag@.subrange(0, p),
            None => r is None,
        },
{
    let cs = chars_of(svg_after_tag);
    let close = chars_of("</g>");
    proof {
        reveal_strlit("</g>");
    }
    let n = cs.len();
    let mut depth: usize = 1;
    let mut p: usize = 0;
    while p < n
        invariant
            cs@ == svg_after_tag@,
            close@ == "</g>"@,
            n == cs@.len(),
            0 <= p <= n,
            1 <= depth <= p + 1,
            group_end(cs@, 0, 1) == group_end(cs@, p as int, depth as int),
        decreases n - p,
    {
        if n - p > 2 && cs[p] == '<' && cs[p + 1] == 'g' {
            let c = cs[p + 2];
            if (n - p == 3 && (c as u32) < 128) || c == ' ' || c == '>' {
                depth = depth + 1;
            }
        } else if occurs_at_exec(&cs, &close, p) {
            if depth == 1 {
                let content = svg_after_tag.substring_char(0, p);
                return Some(String::from_str(content));
            }
            depth = depth - 1;
        }
        p = p + 1;
    }
    None
}

/// Why an SVG glyph could not be rendered.
#[derive(Debug, Clone, PartialEq, Eq)]
pub enum SvgRenderError {
    FontParseFailed,
    NoSvgTable,
    GlyphNotFound,
    DecompressionFailed,
    ParseFailed(String),
    RenderFailed,
    PixmapCreationFailed,
}

impl SvgRenderError {
    /// The error's message.
    pub fn message(&self) -> (r: String)
        ensures
            r@ == match self {
                SvgRenderError::FontParseFailed => "failed to parse font"@,
                SvgRenderError::NoSvgTable => "font has no SVG table"@,
                SvgRenderError::GlyphNotFound => "glyph not found in SVG table"@,
                SvgRenderError::DecompressionFailed => "SVG decompression failed"@,
                SvgRenderError::ParseFailed(e) => "SVG parse error: "@ + e@,
                SvgRenderError::RenderFailed => "SVG rendering failed"@,
                SvgRenderError::PixmapCreationFailed => "failed to create pixmap"@,
            },
    {
        match self {
            SvgRenderError::FontParseFailed => String::from_str("failed to parse font"),
            SvgRenderError::NoSvgTable => String::from_str("font has no SVG table"),
            SvgRenderError::GlyphNotFound => String::from_str("glyph not found in SVG table"),
            SvgRenderError::DecompressionFailed => String::from_str("SVG decompression failed"),
            SvgRenderError::ParseFailed(e) => String::from_str("SVG parse error: ").concat(e.as_str()),
            SvgRenderError::RenderFailed => String::from_str("SVG rendering failed"),
            SvgRenderError::PixmapCreationFailed => String::from_str("failed to create pixmap"),
        }
    }
}

/// The attribute that marks glyph `gid`'s element.
pub open spec fn glyph_id_attr(gid: nat) -> Seq<char> {
    "id=\"glyph"@ + decimal(gid) + "\""@
}

/// The start of glyph `gid`'s group element.
pub open spec fn glyph_group_tag(gid: nat) -> Seq<char> {
    "<g id=\"glyph"@ + decimal(gid) + "\""@
}

/// A standalone SVG document for one glyph's content: the document's
/// namespaces and `<defs>`, with a view box from `-upem` to `upem`
/// vertically (font units, Y up).
pub open spec fn standalone_svg(doc: Seq<char>, content: Seq<char>, upem: nat) -> Seq<char> {
    "<svg xmlns=\"http://www.w3.org/2000/svg\""@ + namespaces(doc) + " viewBox=\"0 -"@ + decimal(upem)
        + " "@ + decimal(upem) + " "@ + decimal(2 * upem) + "\">"@ + defs_from(doc, 0) + content
        + "</svg>"@
}

/// The glyph's group content in a document, given where its tag starts.
pub open spec fn group_after(doc: Seq<char>, tag_close: int) -> Option<Seq<char>> {
    let rest = doc.subrange(tag_close + 1, doc.len() as int);
    match group_end(rest, 0, 1) {
        Some(p) => Some(rest.subrange(0, p)),
        None => None,
    }
}

/// Extract glyph `glyph_id` from an OpenType-SVG document that may hold
/// many glyphs, as a standalone SVG document.  A document that never
/// mentions the glyph's id is taken as the glyph's own and returned as it
/// is.
pub fn extract_glyph_svg(svg_document: &str, glyph_id: u32, upem: u16) -> (r: Result<
    String,
    SvgRenderError,
>)
    requires
        upem * 2 <= u16::MAX,
    ensures
        ({
            let d = svg_document@;
            if find_from(d, glyph_id_attr(glyph_id as nat), 0) is None {
                r matches Ok(t) && t@ == d
            } else {
                match find_from(d, glyph_group_tag(glyph_id as nat), 0) {
                    None => r matches Err(SvgRenderError::GlyphNotFound),
                    Some(sp) => match find_from(d, ">"@, sp) {
                        None => r matches Err(SvgRenderError::ParseFailed(m)) && m@
                            == "malformed glyph group"@,
                        Some(k) => match group_after(d, k) {
                            None => r matches Err(SvgRenderError::ParseFailed(m)) && m@
                                == "malformed glyph group"@,
                            Some(c) => r matches Ok(t) && t@ == standalone_svg(d, c, upem as nat),
                        },
                    },
                }
            }
        }),
{
    let cs = chars_of(svg_document);
    let n = cs.len();
    let num = decimal_string(glyph_id as u64);
    let attr = String::from_str("id=\"glyph").concat(num.as_str()).concat("\"");
    let attr_cs = chars_of(attr.as_str());
    if find_in(&cs, &attr_cs, 0).is_none() {
        return Ok(String::from_str(svg_document));
    }
    let defs = extract_defs(svg_document);
    let ns = extract_namespaces(svg_document);
    let tag = String::from_str("<g id=\"glyph").concat(num.as_str()).concat("\"");
    let tag_cs = chars_of(tag.as_str());
    let start = match find_in(&cs, &tag_cs, 0) {
        Some(p) => p,
        None => {
            return Err(SvgRenderError::GlyphNotFound);
        },
    };
    let gt = chars_of(">");
    let close = match find_in(&cs, &gt, start) {
        Some(p) => p,
        None => {
            return Err(SvgRenderError::ParseFailed(String::from_str("malformed glyph group")));
        },
    };
    proof {
        reveal_strlit(">");
        lemma_find_from(cs@, gt@, start as int);
    }
    let rest = svg_document.substring_char(close + 1, n);
    let content = match extract_group_content(rest) {
        Some(c) => c,
        None => {
            return Err(SvgRenderError::ParseFailed(String::from_str("malformed glyph group")));
        },
    };
    let u = decimal_string(upem as u64);
    let u2 = decimal_string((upem * 2) as u64);
    let out = String::from_str("<svg xmlns=\"http://www.w3.org/2000/svg\"").concat(ns.as_str()).concat(
        " viewBox=\"0 -",
    ).concat(u.as_str()).concat(" ").concat(u.as_str()).concat(" ").concat(u2.as_str()).concat(
        "\">",
    ).concat(defs.as_str()).concat(content.as_str()).concat("</svg>");
    proof {
        let d = svg_document@;
        assert(tag@ =~= glyph_group_tag(glyph_id as nat));
        assert(tag_cs@ == tag@);
        assert(find_from(cs@, tag_cs@, 0) == Some(start as int));
        assert(find_from(d, glyph_group_tag(glyph_id as nat), 0) == Some(start as int));
        assert(find_from(d, ">"@, start as int) == Some(close as int));
        assert(rest@ =~= d.subrange(close + 1, d.len() as int));
        assert(group_after(d, close as int) == Some(content@));
        assert(out@ =~= standalone_svg(d, content@, upem as nat));
    }
    Ok(out)
}

/// Bytes of a character in UTF-8.
pub open spec fn utf8_len(c: char) -> int {
    if (c as u32) < 0x80 {
        1
    } else if (c as u32) < 0x800 {
        2
    } else if (c as u32) < 0x10000 {
        3
    } else {
        4
    }
}

/// Bytes of the characters of `s` from `i` up to `j` in UTF-8.
pub open spec fn byte_len(s: Seq<char>, i: int, j: int) -> int
    decreases j - i,
{
    if j <= i {
        0
    } else {
        byte_len(s, i, j - 1) + utf8_len(s[j - 1])
    }
}

pub proof fn lemma_byte_len_nonneg(s: Seq<char>, i: int, j: int)
    ensures
        byte_len(s, i, j) >= 0,
    decreases j - i,
{
    if j > i {
        lemma_byte_len_nonneg(s, i, j - 1);
    }
}

proof fn lemma_byte_len_monotone(s: Seq<char>, i: int, k: int, j: int)
    requires
        i <= k <= j,
    ensures
        byte_len(s, i, k) <= byte_len(s, i, j),
    decreases j - k,
{
    if k < j {
        lemma_byte_len_monotone(s, i, k, j - 1);
    }
}

/// Where the scan resumes after a replacement at `i` whose `)` is at `j`:
/// past as many characters as `s[i..j]` has UTF-8 bytes, plus one, but not
/// beyond the end.
pub open spec fn resume_at(s: Seq<char>, i: int, j: int) -> int {
    if i + 1 + byte_len(s, i, j) < s.len() {
        i + 1 + byte_len(s, i, j)
    } else {
        s.len() as int
    }
}

/// An ASCII decimal digit.
pub open spec fn is_digit(c: char) -> bool {
    '0' <= c && c <= '9'
}

/// `pat` occurs at `i` as a whole name: the character after it is there
/// and is not a digit, so `var(--color1` does not match the start of
/// `var(--color10`.
pub open spec fn name_at(s: Seq<char>, pat: Seq<char>, i: int) -> bool {
    occurs_at(s, pat, i) && i + pat.len() < s.len() && !is_digit(s[i + pat.len()])
}

/// `s` from position `i` on with every whole-name occurrence of `pat`
/// replaced by `hex` together with what follows up to the next `)`: the
/// scan steps past as many characters as that stretch has UTF-8 bytes (the
/// same stretch when it is ASCII).  Occurrences without a later `)` are
/// kept.
pub open spec fn replace_vars(s: Seq<char>, pat: Seq<char>, hex: Seq<char>, i: int) -> Seq<char>
    decreases s.len() - i,
{
    if i < 0 || i >= s.len() {
        Seq::empty()
    } else if name_at(s, pat, i) && find_from(s, ")"@, i) is Some {
        proof {
            lemma_byte_len_nonneg(s, i, find_from(s, ")"@, i).unwrap());
        }
        hex + replace_vars(s, pat, hex, resume_at(s, i, find_from(s, ")"@, i).unwrap()))
    } else {
        seq![s[i]] + replace_vars(s, pat, hex, i + 1)
    }
}

/// Where the scan continues after replacing at `i` with `)` at `j`,
/// stopping at the end `n` of the text.
fn skip_past(cs: &Vec<char>, i: usize, j: usize) -> (r: usize)
    requires
        i <= j <= cs@.len(),
    ensures
        r == resume_at(cs@, i as int, j as int),
{
    let n = cs.len();
    let mut next: u128 = i as u128 + 1;
    let mut k: usize = i;
    while k < j && next < n as u128
        invariant
            n == cs@.len(),
            i <= k <= j,
            j <= n,
            next == i + 1 + byte_len(cs@, i as int, k as int),
        decreases j - k,
    {
        let c = cs[k];
        let w: u128 = if (c as u32) < 0x80 {
            1
        } else if (c as u32) < 0x800 {
            2
        } else if (c as u32) < 0x10000 {
            3
        } else {
            4
        };
        next = next + w;
        k = k + 1;
    }
    proof {
        if k < j {
            lemma_byte_len_monotone(cs@, i as int, k as int, j as int);
        }
    }
    if next < n as u128 {
        next as usize
    } else {
        n
    }
}

/// `name_at` as code.
fn name_at_exec(s: &Vec<char>, pat: &Vec<char>, i: usize) -> (r: bool)
    ensures
        r == name_at(s@, pat@, i as int),
{
    if !occurs_at_exec(s, pat, i) {
        return false;
    }
    let n = s.len();
    if pat.len() >= n - i {
        return false;
    }
    let c = s[i + pat.len()];
    !('0' <= c && c <= '9')
}

/// `replace_vars` from the start, as code; `text` holds the characters `cs`.
fn replace_vars_in(text: &str, cs: &Vec<char>, pat: &Vec<char>, hex: &str) -> (r: String)
    requires
        cs@ == text@,
    ensures
        r@ == replace_vars(cs@, pat@, hex@, 0),
{
    let n = cs.len();
    let close = chars_of(")");
    let mut out = String::new();
    let mut run: usize = 0;
    let mut i: usize = 0;
    while i < n
        invariant
            n == cs@.len(),
            cs@ == text@,
            close@ == ")"@,
            run <= i <= n,
            out@ + cs@.subrange(run as int, i as int) + replace_vars(cs@, pat@, hex@, i as int)
                == replace_vars(cs@, pat@, hex@, 0),
        decreases n - i,
    {
        let found = if name_at_exec(cs, pat, i) {
            find_in(cs, &close, i)
        } else {
            None
        };
        match found {
            Some(j) => {
                proof {
                    lemma_find_from(cs@, close@, i as int);
                    reveal_strlit(")");
                }
                let ghost before = out@;
                let piece = text.substring_char(run, i);
                out = out.concat(piece).concat(hex);
                let next = skip_past(cs, i, j);
                proof {
                    lemma_byte_len_nonneg(cs@, i as int, j as int);
                    assert(replace_vars(cs@, pat@, hex@, i as int) == hex@ + replace_vars(
                        cs@,
                        pat@,
                        hex@,
                        next as int,
                    ));
                    assert(cs@.subrange(next as int, next as int) =~= Seq::<char>::empty());
                    assert(out@ + cs@.subrange(next as int, next as int) + replace_vars(
                        cs@,
                        pat@,
                        hex@,
                        next as int,
                    ) =~= before + cs@.subrange(run as int, i as int) + replace_vars(
                        cs@,
                        pat@,
                        hex@,
                        i as int,
                    ));
                }
                run = next;
                i = next;
            },
            None => {
                proof {
                    assert(cs@.subrange(run as int, i + 1) =~= cs@.subrange(run as int, i as int)
                        + seq![cs@[i as int]]);
                }
                i = i + 1;
            },
        }
    }
    let tail = text.substring_char(run, n);
    proof {
        assert(replace_vars(cs@, pat@, hex@, n as int) =~= Seq::<char>::empty());
    }
    out.concat(tail)
}

/// Hexadecimal digit `d`, upper case.
pub open spec fn hex_digit(d: int) -> char {
    "0123456789ABCDEF"@[d]
}

/// `#RRGGBB` for a color.
pub open spec fn hex_color(c: crate::types::Color) -> Seq<char> {
    seq![
        '#',
        hex_digit(c.r as int / 16),
        hex_digit(c.r as int % 16),
        hex_digit(c.g as int / 16),
        hex_digit(c.g as int % 16),
        hex_digit(c.b as int / 16),
        hex_digit(c.b as int % 16),
    ]
}

/// `hex_color` as a string.
fn hex_color_string(c: crate::types::Color) -> (r: String)
    ensures
        r@ == hex_color(c),
{
    let digits = "0123456789ABCDEF";
    proof {
        reveal_strlit("0123456789ABCDEF");
        reveal_strlit("#");
    }
    let mut out = String::from_str("#");
    let bytes: [u8; 3] = [c.r, c.g, c.b];
    let mut k: usize = 0;
    while k < 3
        invariant
            digits@ == "0123456789ABCDEF"@,
            bytes@ == seq![c.r, c.g, c.b],
            0 <= k <= 3,
            out@ == hex_color(c).subrange(0, 1 + 2 * k),
        decreases 3 - k,
    {
        proof {
            reveal_strlit("0123456789ABCDEF");
        }
        let b = bytes[k] as usize;
        let hi = digits.substring_char(b / 16, b / 16 + 1);
        let lo = digits.substring_char(b % 16, b % 16 + 1);
        out = out.concat(hi).concat(lo);
        proof {
            assert(out@ =~= hex_color(c).subrange(0, 1 + 2 * (k + 1)));
        }
        k = k + 1;
    }
    assert(out@ =~= hex_color(c));
    out
}

/// The CSS variable naming palette entry `i`.
pub open spec fn var_pattern(i: nat) -> Seq<char> {
    "var(--color"@ + decimal(i)
}

/// One substitution pass for palette entry `i`: when the text mentions the
/// entry's variable and the palette has the entry, every use of the
/// variable `--colorN` with exactly the number `i` is replaced by the
/// entry's color (a use of `--color10` is not a use of `--color1`).
pub open spec fn css_pass(s: Seq<char>, palette: Seq<crate::types::Color>, i: nat) -> Seq<char> {
    if find_from(s, var_pattern(i), 0) is None || i >= palette.len() {
        s
    } else {
        let r = replace_vars(s, var_pattern(i), hex_color(palette[i as int]), 0);
        if r.len() > 0 {
            r
        } else {
            s
        }
    }
}

/// The passes for palette entries `0 .. k`, in order.
pub open spec fn css_substituted(s: Seq<char>, palette: Seq<crate::types::Color>, k: nat) -> Seq<char>
    decreases k,
{
    if k == 0 {
        s
    } else {
        css_pass(css_substituted(s, palette, (k - 1) as nat), palette, (k - 1) as nat)
    }
}

/// Replace the CSS variables `var(--colorN, fallback)` of an SVG glyph with
/// the colors of palette entries 0 to 15: each `--colorN` takes palette
/// entry `N`.
pub fn substitute_css_variables(svg: &str, palette_colors: &[crate::types::Color]) -> (r: String)
    ensures
        r@ == css_substituted(svg@, palette_colors@, 16),
{
    let mut text = String::from_str(svg);
    let mut i: u64 = 0;
    while i < 16
        invariant
            0 <= i <= 16,
            text@ == css_substituted(svg@, palette_colors@, i as nat),
        decreases 16 - i,
    {
        let pat_text = String::from_str("var(--color").concat(decimal_string(i).as_str());
        let pat = chars_of(pat_text.as_str());
        let cs = chars_of(text.as_str());
        if find_in(&cs, &pat, 0).is_some() && (i as usize) < palette_colors.len() {
            let hex = hex_color_string(palette_colors[i as usize]);
            let replaced = replace_vars_in(text.as_str(), &cs, &pat, hex.as_str());
            if !replaced.as_str().is_empty() {
                text = replaced;
            }
        }
        i = i + 1;
    }
    text
}

/// The first of the first `n` document records whose glyph range holds `gid`.
pub open spec fn record_for(recs: Seq<(u32, u32, u32, u32)>, gid: u32, n: int) -> Option<int>
    decreases n,
{
    if n <= 0 {
        None
    } else {
        match record_for(recs, gid, n - 1) {
            Some(i) => Some(i),
            None => if recs[n - 1].0 <= gid <= recs[n - 1].1 {
                Some(n - 1)
            } else {
                None
            },
        }
    }
}

/// The document bytes start with the gzip magic number.
pub open spec fn gzipped(doc: Seq<u8>) -> bool {
    doc.len() >= 2 && doc[0] == 0x1f && doc[1] == 0x8b
}

/// The SVG document that covers glyph `glyph_id`, decompressed when it is
/// gzip-compressed.
pub fn get_svg_document(font_data: &[u8], glyph_id: u32) -> (r: Result<String, SvgRenderError>)
    ensures
        !font_parses(font_data@) ==> r matches Err(SvgRenderError::FontParseFailed),
        font_parses(font_data@) ==> match svg_document_list(font_data@) {
            None => r matches Err(SvgRenderError::NoSvgTable),
            Some((recs, bytes)) => match record_for(recs, glyph_id, recs.len() as int) {
                None => r matches Err(SvgRenderError::GlyphNotFound),
                Some(i) => {
                    let off = recs[i].2 as int;
                    let len = recs[i].3 as int;
                    if off + len > bytes.len() {
                        r matches Err(SvgRenderError::GlyphNotFound)
                    } else {
                        let doc = bytes.subrange(off, off + len);
                        if gzipped(doc) {
                            match gunzipped_text(doc) {
                                Some(t) => r matches Ok(s) && s@ == t,
                                None => r matches Err(SvgRenderError::DecompressionFailed),
                            }
                        } else {
                            match utf8_text(doc) {
                                Some(t) => r matches Ok(s) && s@ == t,
                                None => r matches Err(SvgRenderError::ParseFailed(m)) && m@
                                    == "invalid UTF-8"@,
                            }
                        }
                    }
                },
            },
        },
{
    if !parses_as_font(font_data) {
        return Err(SvgRenderError::FontParseFailed);
    }
    let (recs, bytes) = match svg_documents(font_data) {
        Some(v) => v,
        None => {
            return Err(SvgRenderError::NoSvgTable);
        },
    };
    let n = recs.len();
    let bl = bytes.len();
    let mut i: usize = 0;
    while i < n
        invariant
            font_parses(font_data@),
            svg_document_list(font_data@) == Some((recs@, bytes@)),
            bl == bytes@.len(),
            n == recs@.len(),
            0 <= i <= n,
            record_for(recs@, glyph_id, i as int) is None,
        decreases n - i,
    {
        let (start, end, off, len) = recs[i];
        if glyph_id >= start && glyph_id <= end {
            proof {
                assert(record_for(recs@, glyph_id, i + 1) == Some(i as int));
                lemma_record_for_stays(recs@, glyph_id, i + 1, n as int);
            }
            if off as u64 + len as u64 > bytes.len() as u64 {
                return Err(SvgRenderError::GlyphNotFound);
            }
            let o = off as usize;
            let l = len as usize;
            let mut doc: Vec<u8> = Vec::with_capacity(l);
            let mut k: usize = 0;
            while k < l
                invariant
                    bl == bytes@.len(),
                    o + l <= bytes@.len(),
                    0 <= k <= l,
                    doc@ == bytes@.subrange(o as int, o + k),
                decreases l - k,
            {
                doc.push(bytes[o + k]);
                proof {
                    assert(doc@ =~= bytes@.subrange(o as int, o + k + 1));
                }
                k = k + 1;
            }
            if doc.len() >= 2 && doc[0] == 0x1f && doc[1] == 0x8b {
                return match gunzip_text(doc.as_slice()) {
                    Some(t) => Ok(t),
                    None => Err(SvgRenderError::DecompressionFailed),
                };
            } else {
                return match decode_utf8(doc) {
                    Some(t) => Ok(t),
                    None => Err(SvgRenderError::ParseFailed(String::from_str("invalid UTF-8"))),
                };
            }
        }
        i = i + 1;
    }
    Err(SvgRenderError::GlyphNotFound)
}

/// Once a record covers the glyph, later records do not change the first.
proof fn lemma_record_for_stays(recs: Seq<(u32, u32, u32, u32)>, gid: u32, m: int, n: int)
    requires
        0 <= m <= n,
        record_for(recs, gid, m) is Some,
    ensures
        record_for(recs, gid, n) == record_for(recs, gid, m),
    decreases n - m,
{
    if m < n {
        lemma_record_for_stays(recs, gid, m, n - 1);
    }
}

} // verus!
