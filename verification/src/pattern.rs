//! The pattern library: one line matcher per resource kind.
//!
//! Every matcher takes a single trimmed line and either returns the captured
//! tokens or reports that the line has a different shape. The grammar is
//! anchored: the whole line must have the shape in question, token by token.

use vstd::prelude::*;

use crate::scan::digit_end;
use crate::scan::digits_value;
use crate::scan::is_space_char;
use crate::scan::keyword_at;
use crate::scan::match_keyword_at;
use crate::scan::scan_digit_end;
use crate::scan::scan_space_end;
use crate::scan::scan_word_end;
use crate::scan::space_end;
use crate::scan::word_end;
use crate::scan::parse_u32;
use crate::scan::append_char_of;

verus! {

/// Captures of a `<id> <KEYWORD> "<value>"` declaration line: the identifier
/// token and the quoted value.
pub open spec fn spec_match_decl(s: Seq<char>, kw: Seq<char>) -> Option<(Seq<char>, Seq<char>)> {
    let e = word_end(s, 0);
    let p = space_end(s, e);
    let q = space_end(s, p + kw.len());
    if e > 0 && p > e && keyword_at(s, p, kw) && q > p + kw.len() && q + 2 < s.len() && s[q] == '"'
        && s[s.len() - 1] == '"' {
        Some((s.subrange(0, e), s.subrange(q + 1, s.len() - 1)))
    } else {
        None
    }
}

/// Match a `<id> <KEYWORD> "<value>"` declaration line.
pub fn match_decl(s: &str, kw: &str) -> (r: Option<(String, String)>)
    ensures
        ({
            let m = spec_match_decl(s@, kw@);
            match r {
                Some(c) => m == Some((c.0@, c.1@)),
                None => m is None,
            }
        }),
{
    let n = s.unicode_len();
    let e = scan_word_end(s, 0);
    if e == 0 {
        return None;
    }
    let p = scan_space_end(s, e);
    if p == e {
        return None;
    }
    if !match_keyword_at(s, p, kw) {
        return None;
    }
    let kwlen = kw.unicode_len();
    let q = scan_space_end(s, p + kwlen);
    if q == p + kwlen {
        return None;
    }
    if n - q < 3 {
        return None;
    }
    if s.get_char(q) != '"' || s.get_char(n - 1) != '"' {
        return None;
    }
    let id = s.substring_char(0, e).to_owned();
    let value = s.substring_char(q + 1, n - 1).to_owned();
    Some((id, value))
}

/// Captures of a string-table item line `<id> "<text>"`.
pub open spec fn spec_match_item(s: Seq<char>) -> Option<(Seq<char>, Seq<char>)> {
    let e = word_end(s, 0);
    let q = space_end(s, e);
    if e > 0 && q > e && q + 2 < s.len() && s[q] == '"' && s[s.len() - 1] == '"' {
        Some((s.subrange(0, e), s.subrange(q + 1, s.len() - 1)))
    } else {
        None
    }
}

/// Match a string-table item line `<id> "<text>"`.
pub fn match_item(s: &str) -> (r: Option<(String, String)>)
    ensures
        ({
            let m = spec_match_item(s@);
            match r {
                Some(c) => m == Some((c.0@, c.1@)),
                None => m is None,
            }
        }),
{
    let n = s.unicode_len();
    let e = scan_word_end(s, 0);
    if e == 0 {
        return None;
    }
    let q = scan_space_end(s, e);
    if q == e {
        return None;
    }
    if n - q < 3 {
        return None;
    }
    if s.get_char(q) != '"' || s.get_char(n - 1) != '"' {
        return None;
    }
    let id = s.substring_char(0, e).to_owned();
    let text = s.substring_char(q + 1, n - 1).to_owned();
    Some((id, text))
}

/// Does the line start a block: the keyword alone followed by `BEGIN`,
/// all on this one line?
pub open spec fn spec_kw_begin(s: Seq<char>, kw: Seq<char>) -> bool {
    let p = space_end(s, kw.len() as int);
    keyword_at(s, 0, kw) && p > kw.len() && keyword_at(s, p, "BEGIN"@) && p + "BEGIN"@.len()
        == s.len()
}

/// Match a `<KEYWORD> BEGIN` single-line block opener.
pub fn kw_begin_line(s: &str, kw: &str) -> (r: bool)
    ensures
        r == spec_kw_begin(s@, kw@),
{
    if !match_keyword_at(s, 0, kw) {
        return false;
    }
    let kwlen = kw.unicode_len();
    let p = scan_space_end(s, kwlen);
    if p == kwlen {
        return false;
    }
    if !match_keyword_at(s, p, "BEGIN") {
        return false;
    }
    let n = s.unicode_len();
    let blen = "BEGIN".unicode_len();
    p + blen == n
}

/// Captures of a dialog header line `<id> DIALOGEX …`: the identifier token.
pub open spec fn spec_match_dialog(s: Seq<char>) -> Option<Seq<char>> {
    let kw = "DIALOGEX"@;
    let e = word_end(s, 0);
    let p = space_end(s, e);
    if e > 0 && p > e && keyword_at(s, p, kw) && (p + kw.len() == s.len() || is_space_char(
        s[p + kw.len()],
    )) {
        Some(s.subrange(0, e))
    } else {
        None
    }
}

/// Match a dialog header line `<id> DIALOGEX …`.
pub fn match_dialog(s: &str) -> (r: Option<String>)
    ensures
        ({
            let m = spec_match_dialog(s@);
            match r {
                Some(id) => m == Some(id@),
                None => m is None,
            }
        }),
{
    let n = s.unicode_len();
    let e = scan_word_end(s, 0);
    if e == 0 {
        return None;
    }
    let p = scan_space_end(s, e);
    if p == e {
        return None;
    }
    if !match_keyword_at(s, p, "DIALOGEX") {
        return None;
    }
    let kwlen = "DIALOGEX".unicode_len();
    if p + kwlen != n {
        let c = s.get_char(p + kwlen);
        if !crate::scan::space_char(c) {
            return None;
        }
    }
    Some(s.substring_char(0, e).to_owned())
}

/// Ghost captures of a `CONTROL` declaration line.
pub struct ControlModel {
    pub text: Seq<char>,
    pub id: Seq<char>,
    pub x: Seq<char>,
    pub y: Seq<char>,
    pub width: Seq<char>,
    pub height: Seq<char>,
}

/// Captures of a `CONTROL` declaration line.
pub struct RcControl {
    pub text: String,
    pub id: String,
    pub x: String,
    pub y: String,
    pub width: String,
    pub height: String,
}

impl View for RcControl {
    type V = ControlModel;

    open spec fn view(&self) -> ControlModel {
        ControlModel {
            text: self.text@,
            id: self.id@,
            x: self.x@,
            y: self.y@,
            width: self.width@,
            height: self.height@,
        }
    }
}

/// First index at or after `i` holding a double quote (or the end of line).
pub open spec fn quote_end(s: Seq<char>, i: int) -> int
    decreases s.len() - i,
{
    if i < 0 || i >= s.len() || s[i] == '"' {
        i
    } else {
        quote_end(s, i + 1)
    }
}

/// Scan forward from `i` to the next double quote.
pub fn scan_quote_end(s: &str, i: usize) -> (r: usize)
    requires
        i <= s@.len(),
    ensures
        r == quote_end(s@, i as int),
        i <= r <= s@.len(),
{
    let n = s.unicode_len();
    let mut j = i;
    while j < n && s.get_char(j) != '"'
        invariant
            i <= j <= n,
            n == s@.len(),
            quote_end(s@, i as int) == quote_end(s@, j as int),
        decreases n - j,
    {
        assert(quote_end(s@, j as int) == quote_end(s@, j + 1));
        j = j + 1;
    }
    j
}

/// Captures of a control line
/// `CONTROL "<text>", <id>, BUTTON, <style>, <x>, <y>, <width>, <height>`.
/// The style token is checked but not captured.
pub open spec fn spec_match_control(s: Seq<char>) -> Option<ControlModel> {
    let kw = "CONTROL"@;
    let p = space_end(s, kw.len() as int);
    let tq = quote_end(s, p + 1);
    let i0 = space_end(s, tq + 2);
    let ie = word_end(s, i0);
    let b0 = space_end(s, ie + 1);
    let a = b0 + "BUTTON"@.len();
    let st0 = space_end(s, a + 1);
    let ste = word_end(s, st0);
    let x0 = space_end(s, ste + 1);
    let xe = digit_end(s, x0);
    let y0 = space_end(s, xe + 1);
    let ye = digit_end(s, y0);
    let w0 = space_end(s, ye + 1);
    let we = digit_end(s, w0);
    let h0 = space_end(s, we + 1);
    let he = digit_end(s, h0);
    if keyword_at(s, 0, kw) && p > kw.len() && p < s.len() && s[p] == '"' && tq > p + 1 && tq
        < s.len() && tq + 1 < s.len() && s[tq + 1] == ',' && ie > i0 && ie < s.len() && s[ie] == ','
        && keyword_at(s, b0, "BUTTON"@) && a < s.len() && s[a] == ',' && ste > st0 && ste < s.len()
        && s[ste] == ',' && xe > x0 && xe < s.len() && s[xe] == ',' && ye > y0 && ye < s.len()
        && s[ye] == ',' && we > w0 && we < s.len() && s[we] == ',' && he > h0 && he == s.len() {
        Some(
            ControlModel {
                text: s.subrange(p + 1, tq),
                id: s.subrange(i0, ie),
                x: s.subrange(x0, xe),
                y: s.subrange(y0, ye),
                width: s.subrange(w0, we),
                height: s.subrange(h0, he),
            },
        )
    } else {
        None
    }
}

/// Match a `CONTROL` declaration line.
pub fn match_control(s: &str) -> (r: Option<RcControl>)
    ensures
        ({
            let m = spec_match_control(s@);
            match r {
                Some(c) => m == Some(c@),
                None => m is None,
            }
        }),
{
    let n = s.unicode_len();
    if !match_keyword_at(s, 0, "CONTROL") {
        return None;
    }
    let kwlen = "CONTROL".unicode_len();
    let p = scan_space_end(s, kwlen);
    if p == kwlen || p == n {
        return None;
    }
    if s.get_char(p) != '"' {
        return None;
    }
    let tq = scan_quote_end(s, p + 1);
    if tq == p + 1 || tq == n || n - tq < 2 {
        return None;
    }
    if s.get_char(tq + 1) != ',' {
        return None;
    }
    let i0 = scan_space_end(s, tq + 2);
    let ie = scan_word_end(s, i0);
    if ie == i0 || ie == n {
        return None;
    }
    if s.get_char(ie) != ',' {
        return None;
    }
    let b0 = scan_space_end(s, ie + 1);
    if !match_keyword_at(s, b0, "BUTTON") {
        return None;
    }
    let a = b0 + "BUTTON".unicode_len();
    if a == n {
        return None;
    }
    if s.get_char(a) != ',' {
        return None;
    }
    let st0 = scan_space_end(s, a + 1);
    let ste = scan_word_end(s, st0);
    if ste == st0 || ste == n {
        return None;
    }
    if s.get_char(ste) != ',' {
        return None;
    }
    let x0 = scan_space_end(s, ste + 1);
    let xe = scan_digit_end(s, x0);
    if xe == x0 || xe == n {
        return None;
    }
    if s.get_char(xe) != ',' {
        return None;
    }
    let y0 = scan_space_end(s, xe + 1);
    let ye = scan_digit_end(s, y0);
    if ye == y0 || ye == n {
        return None;
    }
    if s.get_char(ye) != ',' {
        return None;
    }
    let w0 = scan_space_end(s, ye + 1);
    let we = scan_digit_end(s, w0);
    if we == w0 || we == n {
        return None;
    }
    if s.get_char(we) != ',' {
        return None;
    }
    let h0 = scan_space_end(s, we + 1);
    let he = scan_digit_end(s, h0);
    if he == h0 || he != n {
        return None;
    }
    Some(
        RcControl {
            text: s.substring_char(p + 1, tq).to_owned(),
            id: s.substring_char(i0, ie).to_owned(),
            x: s.substring_char(x0, xe).to_owned(),
            y: s.substring_char(y0, ye).to_owned(),
            width: s.substring_char(w0, we).to_owned(),
            height: s.substring_char(h0, he).to_owned(),
        },
    )
}

/// One recognized attribute line inside an extended bitmap block, in ghost
/// form.
pub enum AttrModel {
    Width(u32),
    Height(u32),
    ColorDepth(u32),
    Compression(Seq<char>),
    Palette(Seq<char>),
    Dpi(u32),
    ColorMode(Seq<char>),
    CompressionLevel(u32),
    Author(Seq<char>),
    Unknown,
}

/// One classified attribute line inside an extended bitmap block.
#[derive(Debug, PartialEq, Eq)]
pub enum BitmapAttr {
    Width(u32),
    Height(u32),
    ColorDepth(u32),
    Compression(String),
    Palette(String),
    Dpi(u32),
    ColorMode(String),
    CompressionLevel(u32),
    Author(String),
    Unknown,
}

impl View for BitmapAttr {
    type V = AttrModel;

    open spec fn view(&self) -> AttrModel {
        match self {
            BitmapAttr::Width(v) => AttrModel::Width(*v),
            BitmapAttr::Height(v) => AttrModel::Height(*v),
            BitmapAttr::ColorDepth(v) => AttrModel::ColorDepth(*v),
            BitmapAttr::Compression(t) => AttrModel::Compression(t@),
            BitmapAttr::Palette(t) => AttrModel::Palette(t@),
            BitmapAttr::Dpi(v) => AttrModel::Dpi(*v),
            BitmapAttr::ColorMode(t) => AttrModel::ColorMode(t@),
            BitmapAttr::CompressionLevel(v) => AttrModel::CompressionLevel(*v),
            BitmapAttr::Author(t) => AttrModel::Author(t@),
            BitmapAttr::Unknown => AttrModel::Unknown,
        }
    }
}

/// Does the line have the shape `<KEYWORD> <digits>` with a value that fits
/// in a `u32`?
pub open spec fn num_attr_matches(l: Seq<char>, kw: Seq<char>) -> bool {
    let p = space_end(l, kw.len() as int);
    keyword_at(l, 0, kw) && p > kw.len() && p < l.len() && digit_end(l, p) == l.len()
        && digits_value(l.subrange(p, l.len() as int)) <= u32::MAX as nat
}

/// The numeric capture of a `<KEYWORD> <digits>` line.
pub open spec fn num_attr_value(l: Seq<char>, kw: Seq<char>) -> nat {
    digits_value(l.subrange(space_end(l, kw.len() as int), l.len() as int))
}

/// Does the line have the shape `<KEYWORD> <rest>` with a non-empty rest?
pub open spec fn text_attr_matches(l: Seq<char>, kw: Seq<char>) -> bool {
    let p = space_end(l, kw.len() as int);
    keyword_at(l, 0, kw) && p > kw.len() && p < l.len()
}

/// The text capture of a `<KEYWORD> <rest>` line.
pub open spec fn text_attr_value(l: Seq<char>, kw: Seq<char>) -> Seq<char> {
    l.subrange(space_end(l, kw.len() as int), l.len() as int)
}

/// Match a numeric attribute line `<KEYWORD> <digits>`.
fn num_attr(l: &str, kw: &str) -> (r: Option<u32>)
    ensures
        r is Some <==> num_attr_matches(l@, kw@),
        match r {
            Some(v) => v as nat == num_attr_value(l@, kw@),
            None => true,
        },
{
    if !match_keyword_at(l, 0, kw) {
        return None;
    }
    let kwlen = kw.unicode_len();
    let p = scan_space_end(l, kwlen);
    if p == kwlen {
        return None;
    }
    let n = l.unicode_len();
    if p == n {
        return None;
    }
    let e = scan_digit_end(l, p);
    if e != n {
        return None;
    }
    let piece = l.substring_char(p, n);
    proof {
        crate::scan::lemma_digit_end_bounds(l@, p as int);
        assert(piece@.len() > 0);
        assert(forall|k: int| 0 <= k < piece@.len() ==> piece@[k] == l@[p + k]);
    }
    parse_u32(piece)
}

/// Match a text attribute line `<KEYWORD> <rest>`.
fn text_attr(l: &str, kw: &str) -> (r: Option<String>)
    ensures
        r is Some <==> text_attr_matches(l@, kw@),
        match r {
            Some(t) => t@ == text_attr_value(l@, kw@),
            None => true,
        },
{
    if !match_keyword_at(l, 0, kw) {
        return None;
    }
    let kwlen = kw.unicode_len();
    let p = scan_space_end(l, kwlen);
    if p == kwlen {
        return None;
    }
    let n = l.unicode_len();
    if p == n {
        return None;
    }
    Some(l.substring_char(p, n).to_owned())
}

/// Which attribute an extended-bitmap block line declares, if any.
///
/// The matchers are tried in a fixed priority order; the first match wins.
pub open spec fn spec_classify_attr(l: Seq<char>) -> AttrModel {
    if num_attr_matches(l, "WIDTH"@) {
        AttrModel::Width(num_attr_value(l, "WIDTH"@) as u32)
    } else if num_attr_matches(l, "HEIGHT"@) {
        AttrModel::Height(num_attr_value(l, "HEIGHT"@) as u32)
    } else if num_attr_matches(l, "COLOR_DEPTH"@) {
        AttrModel::ColorDepth(num_attr_value(l, "COLOR_DEPTH"@) as u32)
    } else if text_attr_matches(l, "COMPRESSION"@) {
        AttrModel::Compression(text_attr_value(l, "COMPRESSION"@))
    } else if text_attr_matches(l, "PALETTE"@) {
        AttrModel::Palette(text_attr_value(l, "PALETTE"@))
    } else if num_attr_matches(l, "DPI"@) {
        AttrModel::Dpi(num_attr_value(l, "DPI"@) as u32)
    } else if text_attr_matches(l, "COLOR_MODE"@) {
        AttrModel::ColorMode(text_attr_value(l, "COLOR_MODE"@))
    } else if num_attr_matches(l, "COMPRESSION_LEVEL"@) {
        AttrModel::CompressionLevel(num_attr_value(l, "COMPRESSION_LEVEL"@) as u32)
    } else if text_attr_matches(l, "AUTHOR"@) {
        AttrModel::Author(text_attr_value(l, "AUTHOR"@))
    } else {
        AttrModel::Unknown
    }
}

/// Classify an extended-bitmap block line.
pub fn classify_attr(l: &str) -> (r: BitmapAttr)
    ensures
        r@ == spec_classify_attr(l@),
{
    if let Some(v) = num_attr(l, "WIDTH") {
        return BitmapAttr::Width(v);
    }
    if let Some(v) = num_attr(l, "HEIGHT") {
        return BitmapAttr::Height(v);
    }
    if let Some(v) = num_attr(l, "COLOR_DEPTH") {
        return BitmapAttr::ColorDepth(v);
    }
    if let Some(t) = text_attr(l, "COMPRESSION") {
        return BitmapAttr::Compression(t);
    }
    if let Some(t) = text_attr(l, "PALETTE") {
        return BitmapAttr::Palette(t);
    }
    if let Some(v) = num_attr(l, "DPI") {
        return BitmapAttr::Dpi(v);
    }
    if let Some(t) = text_attr(l, "COLOR_MODE") {
        return BitmapAttr::ColorMode(t);
    }
    if let Some(v) = num_attr(l, "COMPRESSION_LEVEL") {
        return BitmapAttr::CompressionLevel(v);
    }
    if let Some(t) = text_attr(l, "AUTHOR") {
        return BitmapAttr::Author(t);
    }
    BitmapAttr::Unknown
}

/// A file path with every backslash replaced by a forward slash.
pub open spec fn spec_normalize(s: Seq<char>) -> Seq<char> {
    s.map_values(|c: char| if c == '\\' { '/' } else { c })
}

/// On a path without backslashes, normalization is the identity.
pub proof fn lemma_normalize_identity(s: Seq<char>)
    requires
        forall|k: int| 0 <= k < s.len() ==> s[k] != '\\',
    ensures
        spec_normalize(s) == s,
{
    assert(spec_normalize(s) =~= s);
}

/// Normalize a file path to forward slashes.
pub fn normalize_path(s: &str) -> (r: String)
    ensures
        r@ == spec_normalize(s@),
{
    let n = s.unicode_len();
    let mut out = String::new();
    let mut i: usize = 0;
    while i < n
        invariant
            0 <= i <= n,
            n == s@.len(),
            out@ == spec_normalize(s@.take(i as int)),
        decreases n - i,
    {
        let c = s.get_char(i);
        if c == '\\' {
            proof {
                reveal_strlit("/");
                assert("/"@ =~= seq!['/']);
            }
            out.append("/");
        } else {
            append_char_of(&mut out, s, i);
        }
        proof {
            assert(spec_normalize(s@.take(i + 1)) =~= spec_normalize(s@.take(i as int)).push(
                if s@[i as int] == '\\' {
                    '/'
                } else {
                    s@[i as int]
                },
            ));
            if c == '\\' {
                assert(out@ =~= spec_normalize(s@.take(i as int)).push('/'));
            }
        }
        i = i + 1;
    }
    assert(s@.take(n as int) =~= s@);
    out
}

} // verus!
