use vstd::prelude::*;
use vstd::string::StringSliceAdditionalSpecFns;
use crate::bytes_util::{push_bytes, push_str, str_bytes, slice_vec, contains, occurs, has_at, trim_end_to, trim_end_pos, ws_len_before, ws_len_before_at, truncate_chars, char_count, bytes_eq, eq_str, first_occ, lemma_first_occ_range, find_occ, splice, splice_vec, trimmed, is_blank, ends_with_spec, ends_with, push_i64, idec};
use crate::error::{DocError, DocResult, ErrorKind, bytes_to_string};
use crate::xml_scan::{scan_open, scan_next, XmlToken, TokenV, xml_events};
use crate::locate::BlockSpan;

verus! {

/// The three scopes of a table element edit.
#[derive(Debug, Clone, Copy, PartialEq, Eq, Structural)]
pub enum TableLevel {
    Table,
    Row,
    Cell,
}

/// The direction of a cell merge or split.
#[derive(Debug, Clone, Copy, PartialEq, Eq, Structural)]
pub enum MergeDirection {
    Horizontal,
    Vertical,
}

/// What one applied operation did, for the caller to read back.
#[derive(Debug, Clone)]
pub struct AppliedOp {
    pub op: &'static str,
    pub block: usize,
    /// Projection of the block before (first 60 characters).
    pub before: String,
    /// Projection of the block after (first 60 characters; empty for a deletion).
    pub after: String,
    /// The style ID applied by a style change.
    pub style: Option<String>,
    /// A style change whose paragraph already had that style.
    pub style_unchanged: Option<bool>,
    /// Where a definition edit (styles, numbering) took place.
    pub target: Option<String>,
}

// ---------------------------------------------------------------------------
// Element lists (schema order)
// ---------------------------------------------------------------------------

/// The names of [`ppr_elements`].
pub open spec fn spec_ppr_elements() -> Seq<&'static str> {
    seq![
        "pStyle", "keepNext", "keepLines", "pageBreakBefore", "framePr", "widowControl",
        "numPr", "suppressLineNumbers", "pBdr", "shd", "tabs", "suppressAutoHyphens",
        "kinsoku", "wordWrap", "overflowPunct", "topLinePunct", "autoSpaceDE", "autoSpaceDN",
        "bidi", "adjustRightInd", "snapToGrid", "spacing", "ind", "contextualSpacing",
        "mirrorIndents", "suppressOverlap", "jc", "textDirection", "textAlignment",
        "textboxTightWrap", "outlineLvl", "divId", "cnfStyle", "rPr",
    ]
}

/// The children of `w:pPr` that can be edited, in schema order (`sectPr` and
/// `pPrChange` are left out on purpose).
pub fn ppr_elements() -> (r: Vec<&'static str>)
    ensures
        r@ == spec_ppr_elements(),
{
    vec![
        "pStyle", "keepNext", "keepLines", "pageBreakBefore", "framePr", "widowControl",
        "numPr", "suppressLineNumbers", "pBdr", "shd", "tabs", "suppressAutoHyphens",
        "kinsoku", "wordWrap", "overflowPunct", "topLinePunct", "autoSpaceDE", "autoSpaceDN",
        "bidi", "adjustRightInd", "snapToGrid", "spacing", "ind", "contextualSpacing",
        "mirrorIndents", "suppressOverlap", "jc", "textDirection", "textAlignment",
        "textboxTightWrap", "outlineLvl", "divId", "cnfStyle", "rPr",
    ]
}

/// The names of [`tblpr_elements`].
pub open spec fn spec_tblpr_elements() -> Seq<&'static str> {
    seq![
        "tblStyle", "tblpPr", "tblOverlap", "bidiVisual", "tblStyleRowBandSize",
        "tblStyleColBandSize", "tblW", "jc", "tblCellSpacing", "tblInd",
        "tblBorders", "shd", "tblLayout", "tblCellMar", "tblLook",
        "tblCaption", "tblDescription",
    ]
}

/// The children of `w:tblPr`, in schema order.
pub fn tblpr_elements() -> (r: Vec<&'static str>)
    ensures
        r@ == spec_tblpr_elements(),
{
    vec![
        "tblStyle", "tblpPr", "tblOverlap", "bidiVisual", "tblStyleRowBandSize",
        "tblStyleColBandSize", "tblW", "jc", "tblCellSpacing", "tblInd",
        "tblBorders", "shd", "tblLayout", "tblCellMar", "tblLook",
        "tblCaption", "tblDescription",
    ]
}

/// The index of the first name of `list` from `k` on equal to `name`.
pub open spec fn index_in(list: Seq<&'static str>, name: Seq<u8>, k: int) -> Option<int>
    decreases list.len() - k,
{
    if k < 0 || k >= list.len() {
        None
    } else if list[k].spec_bytes() == name {
        Some(k)
    } else {
        index_in(list, name, k + 1)
    }
}


pub proof fn lemma_index_in(list: Seq<&'static str>, name: Seq<u8>, k: int)
    requires
        0 <= k,
    ensures
        index_in(list, name, k) matches Some(i) ==> k <= i < list.len() && list[i].spec_bytes() == name,
        index_in(list, name, k) is None ==> forall|i: int| k <= i < list.len() ==> (#[trigger] list[i]).spec_bytes() != name,
    decreases list.len() - k,
{
    if k < list.len() && list[k].spec_bytes() != name {
        lemma_index_in(list, name, k + 1);
    }
}


/// The index of `name` in `list`, as [`index_in`] states it.
pub fn index_in_exec(list: &Vec<&'static str>, name: &[u8]) -> (r: Option<usize>)
    ensures
        match index_in(list@, name@, 0) {
            Some(i) => r matches Some(x) && x as int == i && x < list@.len(),
            None => r is None,
        },
{
    let mut i: usize = 0;
    while i < list.len()
        invariant
            i <= list@.len(),
            index_in(list@, name@, i as int) == index_in(list@, name@, 0),
        decreases list@.len() - i,
    {
        if eq_str(name, list[i]) {
            return Some(i);
        }
        i = i + 1;
    }
    None
}

/// Whether `name` is one of the names of `list`.
pub open spec fn listed(list: Seq<&'static str>, name: Seq<u8>) -> bool {
    exists|i: int| 0 <= i < list.len() && (#[trigger] list[i]).spec_bytes() == name
}

/// The index of `name` in `list`.
pub fn position_in(list: &Vec<&'static str>, name: &[u8]) -> (r: Option<usize>)
    ensures
        match r {
            Some(i) => i < list@.len() && list@[i as int].spec_bytes() == name@ && forall|j: int|
                0 <= j < i ==> (#[trigger] list@[j]).spec_bytes() != name@,
            None => !listed(list@, name@),
        },
{
    let mut i: usize = 0;
    while i < list.len()
        invariant
            i <= list@.len(),
            forall|j: int| 0 <= j < i ==> (#[trigger] list@[j]).spec_bytes() != name@,
        decreases list@.len() - i,
    {
        if eq_str(name, list[i]) {
            return Some(i);
        }
        i = i + 1;
    }
    None
}

// ---------------------------------------------------------------------------
// Attributes of an opening tag
// ---------------------------------------------------------------------------

/// The first index `>= from` where byte `b` stands.
pub open spec fn find_byte(s: Seq<u8>, b: u8, from: int) -> Option<int>
    decreases s.len() - from,
{
    if from < 0 || from >= s.len() {
        None
    } else if s[from] == b {
        Some(from)
    } else {
        find_byte(s, b, from + 1)
    }
}

pub proof fn lemma_find_byte(s: Seq<u8>, b: u8, from: int)
    ensures
        find_byte(s, b, from) matches Some(k) ==> from <= k < s.len() && s[k] == b,
    decreases s.len() - from,
{
    if 0 <= from < s.len() && s[from] != b {
        lemma_find_byte(s, b, from + 1);
    }
}

pub fn find_byte_from(s: &[u8], b: u8, from: usize) -> (r: Option<usize>)
    ensures
        match find_byte(s@, b, from as int) {
            Some(k) => r matches Some(x) && x as int == k,
            None => r is None,
        },
        r matches Some(k) ==> from <= k < s@.len() && s@[k as int] == b,
{
    proof {
        lemma_find_byte(s@, b, from as int);
    }
    let mut i = from;
    while i < s.len()
        invariant
            from <= i,
            find_byte(s@, b, i as int) == find_byte(s@, b, from as int),
        decreases s@.len() - i,
    {
        if s[i] == b {
            return Some(i);
        }
        i = i + 1;
    }
    None
}

/// Where the last word of `h[..j]` starts: just after its last white-space character.
pub open spec fn last_ws_end(h: Seq<u8>, j: int) -> int
    decreases j,
{
    if j <= 0 {
        0
    } else if ws_len_before(h, j) > 0 {
        j
    } else {
        last_ws_end(h, j - 1)
    }
}

/// The attribute name before a `=`: the last word of the text before it.
pub open spec fn attr_name(head: Seq<u8>) -> Seq<u8> {
    let e = trim_end_pos(head, 0, head.len() as int);
    head.subrange(last_ws_end(head, e), e)
}

/// The opening tag of an element text: up to the first `>`.
pub open spec fn tag_part(el: Seq<u8>) -> Seq<u8> {
    match find_byte(el, 62, 0) {
        Some(g) => el.subrange(0, g),
        None => el,
    }
}

/// The `name="value"` pairs of a tag text, in order. A `=` not followed by a
/// quote is skipped; an unclosed value ends the list; a pair without a name
/// is dropped.
pub open spec fn attrs_from(t: Seq<u8>) -> Seq<(Seq<u8>, Seq<u8>)>
    decreases t.len(),
{
    match find_byte(t, 61, 0) {
        None => seq![],
        Some(eq) => {
            proof {
                lemma_find_byte(t, 61, 0);
            }
            let name = attr_name(t.subrange(0, eq));
            let after = t.subrange(eq + 1, t.len() as int);
            if after.len() == 0 || after[0] != 34 {
                attrs_from(after)
            } else {
                match find_byte(after, 34, 1) {
                    None => seq![],
                    Some(q) => {
                        proof {
                            lemma_find_byte(after, 34, 1);
                        }
                        (if name.len() > 0 {
                            seq![(name, after.subrange(1, q))]
                        } else {
                            seq![]
                        }) + attrs_from(after.subrange(q + 1, after.len() as int))
                    },
                }
            }
        },
    }
}

pub open spec fn attrs_view(v: Seq<(Vec<u8>, Vec<u8>)>) -> Seq<(Seq<u8>, Seq<u8>)> {
    v.map_values(|a: (Vec<u8>, Vec<u8>)| (a.0@, a.1@))
}

fn attr_name_of(head: &[u8]) -> (r: Vec<u8>)
    ensures
        r@ == attr_name(head@),
{
    let e = trim_end_to(head, 0, head.len());
    let mut j = e;
    while j > 0 && ws_len_before_at(head, j) == 0
        invariant
            j <= e <= head@.len(),
            last_ws_end(head@, j as int) == last_ws_end(head@, e as int),
        decreases j,
    {
        j = j - 1;
    }
    slice_vec(head, j, e)
}

/// The attributes of the opening tag of `el`, in order.
pub fn parse_attrs(el: &[u8]) -> (r: Vec<(Vec<u8>, Vec<u8>)>)
    ensures
        attrs_view(r@) == attrs_from(tag_part(el@)),
{
    let fb = find_byte_from(el, 62, 0);
    let gt = match fb {
        Some(g) => g,
        None => el.len(),
    };
    proof {
        lemma_find_byte(el@, 62, 0);
    }
    let mut rest = slice_vec(el, 0, gt);
    proof {
        match find_byte(el@, 62, 0) {
            Some(g) => {
                assert(gt as int == g);
            },
            None => {
                assert(el@.subrange(0, el@.len() as int) =~= el@);
            },
        }
    }
    assert(rest@ =~= tag_part(el@));
    let mut out: Vec<(Vec<u8>, Vec<u8>)> = Vec::new();
    loop
        invariant
            attrs_view(out@) + attrs_from(rest@) == attrs_from(tag_part(el@)),
        decreases rest@.len(),
    {
        let ghost r0 = rest@;
        let ghost o0 = attrs_view(out@);
        proof {
            lemma_find_byte(rest@, 61, 0);
        }
        let eq = match find_byte_from(rest.as_slice(), 61, 0) {
            Some(e) => e,
            None => {
                assert(attrs_view(out@) =~= attrs_from(tag_part(el@)));
                return out;
            },
        };
        let n = rest.len();
        assert(eq < n);
        let head = slice_vec(rest.as_slice(), 0, eq);
        let name = attr_name_of(head.as_slice());
        let after = slice_vec(rest.as_slice(), eq + 1, rest.len());
        if after.len() == 0 || after[0] != 34 {
            rest = after;
        } else {
            proof {
                lemma_find_byte(after@, 34, 1);
            }
            match find_byte_from(after.as_slice(), 34, 1) {
                Some(q) => {
                    let value = slice_vec(after.as_slice(), 1, q);
                    if name.len() > 0 {
                        out.push((name, value));
                        assert(attrs_view(out@) =~= o0.push((head@.subrange(0, 0) + attr_name(head@), value@)));
                    }
                    rest = slice_vec(after.as_slice(), q + 1, after.len());
                    assert(attrs_view(out@) + attrs_from(rest@) =~= attrs_from(tag_part(el@)));
                },
                None => {
                    assert(attrs_view(out@) =~= attrs_from(tag_part(el@)));
                    return out;
                },
            }
        }
    }
}

/// The value of the first attribute named `key` among `attrs[k..]`.
pub open spec fn first_attr(attrs: Seq<(Seq<u8>, Seq<u8>)>, key: Seq<u8>, k: int) -> Option<Seq<u8>>
    decreases attrs.len() - k,
{
    if k < 0 || k >= attrs.len() {
        None
    } else if attrs[k].0 == key {
        Some(attrs[k].1)
    } else {
        first_attr(attrs, key, k + 1)
    }
}

/// The value of attribute `key` in the opening tag of `el` (first match).
pub open spec fn attr_of(el: Seq<u8>, key: Seq<u8>) -> Option<Seq<u8>> {
    first_attr(attrs_from(tag_part(el)), key, 0)
}

/// The value of attribute `key` in the opening tag of `el` (first match).
pub fn attr_value(el: &[u8], key: &str) -> (r: Option<Vec<u8>>)
    ensures
        match r {
            Some(v) => attr_of(el@, key.spec_bytes()) == Some(v@),
            None => attr_of(el@, key.spec_bytes()) is None,
        },
        match r {
            Some(v) => exists|i: int| 0 <= i < attrs_from(tag_part(el@)).len() && (#[trigger] attrs_from(tag_part(el@))[i]) == (key.spec_bytes(), v@),
            None => forall|i: int| 0 <= i < attrs_from(tag_part(el@)).len() ==> (#[trigger] attrs_from(tag_part(el@))[i]).0 != key.spec_bytes(),
        },
{
    let attrs = parse_attrs(el);
    let mut i: usize = 0;
    while i < attrs.len()
        invariant
            i <= attrs@.len(),
            attrs_view(attrs@) == attrs_from(tag_part(el@)),
            forall|j: int| 0 <= j < i ==> (#[trigger] attrs_view(attrs@)[j]).0 != key.spec_bytes(),
            first_attr(attrs_view(attrs@), key.spec_bytes(), i as int) == attr_of(el@, key.spec_bytes()),
        decreases attrs@.len() - i,
    {
        if eq_str(attrs[i].0.as_slice(), key) {
            let v = slice_vec(attrs[i].1.as_slice(), 0, attrs[i].1.len());
            assert(attrs_view(attrs@)[i as int] == (attrs@[i as int].0@, attrs@[i as int].1@));
            return Some(v);
        }
        i = i + 1;
    }
    None
}


// ---------------------------------------------------------------------------
// Locating a `w:` element in markup text
// ---------------------------------------------------------------------------

/// The bytes of the literals that frame a `w:` tag.
pub proof fn lemma_w_lits()
    ensures
        "<w:".spec_bytes() == seq![60u8, 119u8, 58u8],
        "</w:".spec_bytes() == seq![60u8, 47u8, 119u8, 58u8],
        ">".spec_bytes() == seq![62u8],
        "/>".spec_bytes() == seq![47u8, 62u8],
{
    reveal_strlit("<w:");
    reveal_strlit("</w:");
    reveal_strlit(">");
    reveal_strlit("/>");
    vstd::utf8::is_ascii_chars_encode_utf8("<w:"@);
    vstd::utf8::is_ascii_chars_encode_utf8("</w:"@);
    vstd::utf8::is_ascii_chars_encode_utf8(">"@);
    vstd::utf8::is_ascii_chars_encode_utf8("/>"@);
    assert("<w:".spec_bytes() =~= seq![60u8, 119u8, 58u8]);
    assert("</w:".spec_bytes() =~= seq![60u8, 47u8, 119u8, 58u8]);
    assert(">".spec_bytes() =~= seq![62u8]);
    assert("/>".spec_bytes() =~= seq![47u8, 62u8]);
}

/// `<w:name`.
pub open spec fn w_open(name: Seq<u8>) -> Seq<u8> {
    "<w:".spec_bytes() + name
}

/// `</w:name>`.
pub open spec fn w_close(name: Seq<u8>) -> Seq<u8> {
    "</w:".spec_bytes() + name + ">".spec_bytes()
}

pub open spec fn is_ascii_alnum(b: u8) -> bool {
    (48 <= b <= 57) || (65 <= b <= 90) || (97 <= b <= 122)
}

/// The span `[start, end)` of the first element `w:name` from `from` on: an
/// occurrence of `<w:name` followed by a letter or digit belongs to a longer
/// name and is passed over; the element ends at its `/>` or at the first
/// `</w:name>` after its opening tag.
pub open spec fn element_span_from(s: Seq<u8>, name: Seq<u8>, from: int) -> Option<(int, int)>
    decreases s.len() + 1 - from,
{
    if from < 0 || from > s.len() {
        None
    } else {
        match first_occ(s, w_open(name), from) {
            None => None,
            Some(start) => {
                let after = start + w_open(name).len();
                if after >= s.len() {
                    None
                } else if is_ascii_alnum(s[after]) {
                    proof {
                        lemma_first_occ_range(s, w_open(name), from);
                        lemma_w_lits();
                    }
                    element_span_from(s, name, after)
                } else {
                    match find_byte(s, 62, after) {
                        None => None,
                        Some(gt) => if s[gt - 1] == 47 {
                            Some((start, gt + 1))
                        } else {
                            match first_occ(s, w_close(name), gt + 1) {
                                None => None,
                                Some(c) => Some((start, c + w_close(name).len())),
                            }
                        },
                    }
                }
            },
        }
    }
}

/// The span of the first element `w:name` in `s`; see [`element_span_from`].
pub open spec fn element_span(s: Seq<u8>, name: Seq<u8>) -> Option<(int, int)> {
    element_span_from(s, name, 0)
}

pub proof fn lemma_element_span_from(s: Seq<u8>, name: Seq<u8>, from: int)
    ensures
        element_span_from(s, name, from) matches Some((a, b)) ==> 0 <= from <= a < b <= s.len()
            && has_at(s, a, w_open(name)),
    decreases s.len() + 1 - from,
{
    lemma_w_lits();
    if 0 <= from <= s.len() {
        lemma_first_occ_range(s, w_open(name), from);
        match first_occ(s, w_open(name), from) {
            None => {},
            Some(start) => {
                let after = start + w_open(name).len();
                if after < s.len() {
                    if is_ascii_alnum(s[after]) {
                        lemma_element_span_from(s, name, after);
                    } else {
                        lemma_find_byte(s, 62, after);
                        match find_byte(s, 62, after) {
                            None => {},
                            Some(gt) => {
                                if s[gt - 1] != 47 {
                                    lemma_first_occ_range(s, w_close(name), gt + 1);
                                }
                            },
                        }
                    }
                }
            },
        }
    }
}

fn w_open_of(name: &[u8]) -> (r: Vec<u8>)
    ensures
        r@ == w_open(name@),
{
    let mut v = str_bytes("<w:");
    push_bytes(&mut v, name);
    v
}

fn w_close_of(name: &[u8]) -> (r: Vec<u8>)
    ensures
        r@ == w_close(name@),
{
    let mut v = str_bytes("</w:");
    push_bytes(&mut v, name);
    push_str(&mut v, ">");
    v
}

fn is_alnum_byte(b: u8) -> (r: bool)
    ensures
        r == is_ascii_alnum(b),
{
    (48 <= b && b <= 57) || (65 <= b && b <= 90) || (97 <= b && b <= 122)
}

/// The byte span of the first element `w:name` in `s`, self-closed or paired.
pub fn find_element_span(s: &[u8], name: &[u8]) -> (r: Option<(usize, usize)>)
    ensures
        match element_span(s@, name@) {
            Some((a, b)) => r matches Some((x, y)) && x as int == a && y as int == b,
            None => r is None,
        },
        r matches Some((x, y)) ==> x < y <= s@.len() && has_at(s@, x as int, w_open(name@)),
{
    let pat = w_open_of(name);
    let close = w_close_of(name);
    let n = s.len();
    let mut from: usize = 0;
    proof {
        lemma_element_span_from(s@, name@, 0);
        lemma_w_lits();
    }
    loop
        invariant
            from <= n == s@.len(),
            pat@ == w_open(name@),
            pat@.len() == 3 + name@.len(),
            close@ == w_close(name@),
            element_span_from(s@, name@, from as int) == element_span(s@, name@),
        decreases n - from,
    {
        proof {
            lemma_element_span_from(s@, name@, from as int);
        }
        let start = match find_occ(s, pat.as_slice(), from) {
            Some(st) => st,
            None => return None,
        };
        let after = start + pat.len();
        if after >= n {
            return None;
        }
        if is_alnum_byte(s[after]) {
            from = after;
            continue;
        }
        proof {
            lemma_find_byte(s@, 62, after as int);
        }
        let gt = match find_byte_from(s, 62, after) {
            Some(g) => g,
            None => return None,
        };
        if s[gt - 1] == 47 {
            return Some((start, gt + 1));
        }
        match find_occ(s, close.as_slice(), gt + 1) {
            Some(c) => {
                return Some((start, c + close.len()));
            },
            None => {
                return None;
            },
        }
    }
}


// ---------------------------------------------------------------------------
// Attribute lists and element upserts
// ---------------------------------------------------------------------------

/// ` k1="v1" k2="v2"…`: each pair with a leading space.
pub open spec fn attrs_text(a: Seq<(Seq<u8>, Seq<u8>)>) -> Seq<u8>
    decreases a.len(),
{
    if a.len() == 0 {
        seq![]
    } else {
        attrs_text(a.drop_last()) + " ".spec_bytes() + a.last().0 + "=\"".spec_bytes() + a.last().1
            + "\"".spec_bytes()
    }
}

/// The self-closed tag `<w:name k="v" …/>` (`<w:name/>` without attributes).
pub open spec fn spec_build_tag(name: Seq<u8>, a: Seq<(Seq<u8>, Seq<u8>)>) -> Seq<u8> {
    w_open(name) + attrs_text(a) + "/>".spec_bytes()
}

/// Builds a self-closed tag from an attribute list, attributes in list order.
pub fn build_tag(name: &[u8], attrs: &Vec<(Vec<u8>, Vec<u8>)>) -> (r: Vec<u8>)
    ensures
        r@ == spec_build_tag(name@, attrs_view(attrs@)),
{
    let mut out = w_open_of(name);
    let mut i: usize = 0;
    while i < attrs.len()
        invariant
            i <= attrs@.len(),
            out@ == w_open(name@) + attrs_text(attrs_view(attrs@).subrange(0, i as int)),
        decreases attrs@.len() - i,
    {
        let ghost pre = attrs_view(attrs@).subrange(0, i as int);
        assert(attrs_view(attrs@).subrange(0, i + 1).drop_last() =~= pre);
        assert(attrs_view(attrs@)[i as int] == (attrs@[i as int].0@, attrs@[i as int].1@));
        push_str(&mut out, " ");
        push_bytes(&mut out, attrs[i].0.as_slice());
        push_str(&mut out, "=\"");
        push_bytes(&mut out, attrs[i].1.as_slice());
        push_str(&mut out, "\"");
        assert(out@ =~= w_open(name@) + attrs_text(attrs_view(attrs@).subrange(0, i + 1)));
        i = i + 1;
    }
    assert(attrs_view(attrs@).subrange(0, i as int) =~= attrs_view(attrs@));
    push_str(&mut out, "/>");
    out
}

/// The index of the first pair keyed `k` from `i` on.
pub open spec fn key_index(a: Seq<(Seq<u8>, Seq<u8>)>, k: Seq<u8>, i: int) -> Option<int>
    decreases a.len() - i,
{
    if i < 0 || i >= a.len() {
        None
    } else if a[i].0 == k {
        Some(i)
    } else {
        key_index(a, k, i + 1)
    }
}

/// Sets `k` to `v`: in place on the first pair keyed `k`, else appended.
pub open spec fn spec_attr_set(a: Seq<(Seq<u8>, Seq<u8>)>, k: Seq<u8>, v: Seq<u8>) -> Seq<(Seq<u8>, Seq<u8>)> {
    match key_index(a, k, 0) {
        Some(i) => a.update(i, (k, v)),
        None => a.push((k, v)),
    }
}

/// Sets attribute `key` to `val` in the list (in place, else appended).
pub fn attr_set(attrs: &mut Vec<(Vec<u8>, Vec<u8>)>, key: &str, val: &[u8])
    ensures
        attrs_view(final(attrs)@) == spec_attr_set(attrs_view(old(attrs)@), key.spec_bytes(), val@),
{
    let ghost a0 = attrs_view(attrs@);
    assert(a0 == attrs_view(old(attrs)@));
    let mut i: usize = 0;
    while i < attrs.len()
        invariant
            i <= attrs@.len(),
            a0 == attrs_view(attrs@),
            a0 == attrs_view(old(attrs)@),
            key_index(a0, key.spec_bytes(), i as int) == key_index(a0, key.spec_bytes(), 0),
        decreases attrs@.len() - i,
    {
        assert(a0[i as int] == (attrs@[i as int].0@, attrs@[i as int].1@));
        if eq_str(attrs[i].0.as_slice(), key) {
            let k = str_bytes(key);
            let v = slice_vec(val, 0, val.len());
            assert(v@ =~= val@);
            assert(a0.len() == attrs@.len());
            assert(key_index(a0, key.spec_bytes(), i as int) == Some(i as int));
            attrs.set(i, (k, v));
            assert(attrs_view(attrs@) =~= a0.update(i as int, (key.spec_bytes(), val@)));
            assert(attrs_view(attrs@) == spec_attr_set(a0, key.spec_bytes(), val@));
            return;
        }
        i = i + 1;
    }
    let k = str_bytes(key);
    let v = slice_vec(val, 0, val.len());
    assert(v@ =~= val@);
    attrs.push((k, v));
    assert(attrs_view(attrs@) =~= a0.push((key.spec_bytes(), val@)));
}

/// The list without the pairs keyed `k`.
pub open spec fn spec_attr_remove(a: Seq<(Seq<u8>, Seq<u8>)>, k: Seq<u8>) -> Seq<(Seq<u8>, Seq<u8>)>
    decreases a.len(),
{
    if a.len() == 0 {
        seq![]
    } else if a.last().0 == k {
        spec_attr_remove(a.drop_last(), k)
    } else {
        spec_attr_remove(a.drop_last(), k).push(a.last())
    }
}

/// Removes every pair keyed `key`.
pub fn attr_remove(attrs: &mut Vec<(Vec<u8>, Vec<u8>)>, key: &str)
    ensures
        attrs_view(final(attrs)@) == spec_attr_remove(attrs_view(old(attrs)@), key.spec_bytes()),
{
    let ghost a0 = attrs_view(attrs@);
    let mut kept: Vec<(Vec<u8>, Vec<u8>)> = Vec::new();
    let mut i: usize = 0;
    assert(a0.subrange(0, 0) =~= seq![]);
    assert(attrs_view(kept@) =~= seq![]);
    while i < attrs.len()
        invariant
            i <= attrs@.len(),
            a0 == attrs_view(attrs@),
            attrs_view(kept@) == spec_attr_remove(a0.subrange(0, i as int), key.spec_bytes()),
        decreases attrs@.len() - i,
    {
        assert(a0.subrange(0, i + 1).drop_last() =~= a0.subrange(0, i as int));
        assert(a0[i as int] == (attrs@[i as int].0@, attrs@[i as int].1@));
        if !eq_str(attrs[i].0.as_slice(), key) {
            let k = slice_vec(attrs[i].0.as_slice(), 0, attrs[i].0.len());
            let v = slice_vec(attrs[i].1.as_slice(), 0, attrs[i].1.len());
            assert(k@ =~= attrs@[i as int].0@);
            assert(v@ =~= attrs@[i as int].1@);
            let ghost kv = attrs_view(kept@);
            kept.push((k, v));
            assert(attrs_view(kept@) =~= kv.push(a0[i as int]));
        }
        i = i + 1;
    }
    assert(a0.subrange(0, i as int) =~= a0);
    *attrs = kept;
}

/// The earliest start of `<w:l` over the names `l` of `later`, if before `acc`.
pub open spec fn later_pos(p: Seq<u8>, later: Seq<&'static str>, acc: int) -> int
    decreases later.len(),
{
    if later.len() == 0 {
        acc
    } else {
        let rest = later_pos(p, later.drop_last(), acc);
        match first_occ(p, w_open(later.last().spec_bytes()), 0) {
            Some(q) => if q < rest {
                q
            } else {
                rest
            },
            None => rest,
        }
    }
}

pub proof fn lemma_later_pos(p: Seq<u8>, later: Seq<&'static str>, acc: int)
    requires
        0 <= acc <= p.len(),
    ensures
        0 <= later_pos(p, later, acc) <= acc,
    decreases later.len(),
{
    if later.len() > 0 {
        lemma_later_pos(p, later.drop_last(), acc);
        lemma_first_occ_range(p, w_open(later.last().spec_bytes()), 0);
    }
}

/// Where a missing element is put: before the first of `later` to occur, or
/// before `end`, or at the end.
pub open spec fn insert_pos(p: Seq<u8>, later: Seq<&'static str>, end: Seq<u8>) -> int {
    let base = match first_occ(p, end, 0) {
        Some(x) => x,
        None => p.len() as int,
    };
    later_pos(p, later, base)
}

/// `p` with element `w:name` replaced whole by `tag`, or, where it is
/// missing, `tag` inserted at [`insert_pos`].
pub open spec fn spec_upsert(p: Seq<u8>, name: Seq<u8>, tag: Seq<u8>, later: Seq<&'static str>, end: Seq<u8>) -> Seq<u8> {
    match element_span(p, name) {
        Some((s, e)) => splice(p, s, e, tag),
        None => splice(p, insert_pos(p, later, end), insert_pos(p, later, end), tag),
    }
}

pub proof fn lemma_insert_pos(p: Seq<u8>, later: Seq<&'static str>, end: Seq<u8>)
    ensures
        0 <= insert_pos(p, later, end) <= p.len(),
{
    lemma_first_occ_range(p, end, 0);
    let base = match first_occ(p, end, 0) {
        Some(x) => x,
        None => p.len() as int,
    };
    lemma_later_pos(p, later, base);
}

fn insert_pos_of(p: &[u8], later: &Vec<&'static str>, end: &[u8]) -> (r: usize)
    ensures
        r as int == insert_pos(p@, later@, end@),
        r <= p@.len(),
{
    proof {
        lemma_first_occ_range(p@, end@, 0);
    }
    let base = match find_occ(p, end, 0) {
        Some(x) => x,
        None => p.len(),
    };
    let mut at = base;
    let mut i: usize = 0;
    while i < later.len()
        invariant
            i <= later@.len(),
            base <= p@.len(),
            base as int == match first_occ(p@, end@, 0) {
                Some(x) => x,
                None => p@.len() as int,
            },
            at as int == later_pos(p@, later@.subrange(0, i as int), base as int),
        decreases later@.len() - i,
    {
        assert(later@.subrange(0, i + 1).drop_last() =~= later@.subrange(0, i as int));
        assert(later@.subrange(0, i + 1).last() == later@[i as int]);
        let pat = w_open_of(later[i].as_bytes());
        match find_occ(p, pat.as_slice(), 0) {
            Some(q) => {
                if q < at {
                    at = q;
                }
            },
            None => {},
        }
        i = i + 1;
    }
    assert(later@.subrange(0, i as int) =~= later@);
    proof {
        lemma_insert_pos(p@, later@, end@);
    }
    at
}

/// Replaces element `w:name` of `parent` by `new_tag`, or inserts `new_tag`
/// before the first of the `later` siblings (schema order) or before
/// `end_marker`; see [`spec_upsert`].
pub fn upsert_element(parent: &[u8], name: &[u8], new_tag: &[u8], later: &Vec<&'static str>, end_marker: &[u8]) -> (r: Vec<u8>)
    ensures
        r@ == spec_upsert(parent@, name@, new_tag@, later@, end_marker@),
{
    match find_element_span(parent, name) {
        Some((s, e)) => splice_vec(parent, s, e, new_tag),
        None => {
            let at = insert_pos_of(parent, later, end_marker);
            splice_vec(parent, at, at, new_tag)
        },
    }
}


// ---------------------------------------------------------------------------
// Runs and paragraphs written from text
// ---------------------------------------------------------------------------

/// Escaping of one byte of character data.
pub open spec fn esc_byte(c: u8) -> Seq<u8> {
    if c == 38 {
        "&amp;".spec_bytes()
    } else if c == 60 {
        "&lt;".spec_bytes()
    } else if c == 62 {
        "&gt;".spec_bytes()
    } else {
        seq![c]
    }
}

/// Character data with `&`, `<` and `>` escaped.
pub open spec fn escape_text(t: Seq<u8>) -> Seq<u8>
    decreases t.len(),
{
    if t.len() == 0 {
        seq![]
    } else {
        escape_text(t.drop_last()) + esc_byte(t.last())
    }
}

/// Appends `text` to `out` as character data (`&`, `<`, `>` escaped).
pub fn escape_into(text: &[u8], out: &mut Vec<u8>)
    ensures
        final(out)@ == old(out)@ + escape_text(text@),
{
    let ghost o0 = out@;
    let mut i: usize = 0;
    while i < text.len()
        invariant
            i <= text@.len(),
            out@ == o0 + escape_text(text@.subrange(0, i as int)),
        decreases text@.len() - i,
    {
        assert(text@.subrange(0, i + 1).drop_last() =~= text@.subrange(0, i as int));
        let c = text[i];
        if c == 38 {
            push_str(out, "&amp;");
        } else if c == 60 {
            push_str(out, "&lt;");
        } else if c == 62 {
            push_str(out, "&gt;");
        } else {
            out.push(c);
        }
        assert(out@ =~= o0 + escape_text(text@.subrange(0, i + 1)));
        i = i + 1;
    }
    assert(text@.subrange(0, i as int) =~= text@);
}

pub open spec fn is_break_byte(c: u8) -> bool {
    c == 10 || c == 9
}

/// The first line break or tab at or after `i`.
pub open spec fn next_break(t: Seq<u8>, i: int) -> Option<int>
    decreases t.len() - i,
{
    if i < 0 || i >= t.len() {
        None
    } else if is_break_byte(t[i]) {
        Some(i)
    } else {
        next_break(t, i + 1)
    }
}

pub proof fn lemma_next_break(t: Seq<u8>, i: int)
    ensures
        next_break(t, i) matches Some(k) ==> i <= k < t.len() && is_break_byte(t[k]),
    decreases t.len() - i,
{
    if 0 <= i < t.len() && !is_break_byte(t[i]) {
        lemma_next_break(t, i + 1);
    }
}

/// A `w:t` holding `b` (nothing for empty text).
pub open spec fn text_piece(b: Seq<u8>) -> Seq<u8> {
    if b.len() == 0 {
        seq![]
    } else {
        "<w:t xml:space=\"preserve\">".spec_bytes() + escape_text(b) + "</w:t>".spec_bytes()
    }
}

/// `<w:br/>` for a line break, `<w:tab/>` for a tab.
pub open spec fn break_tag(c: u8) -> Seq<u8> {
    if c == 10 {
        "<w:br/>".spec_bytes()
    } else {
        "<w:tab/>".spec_bytes()
    }
}

/// The run content written for `t[i..]`: text pieces between breaks and tabs.
pub open spec fn run_body_from(t: Seq<u8>, i: int) -> Seq<u8>
    decreases t.len() - i,
{
    if i < 0 || i > t.len() {
        seq![]
    } else {
        match next_break(t, i) {
            None => text_piece(t.subrange(i, t.len() as int)),
            Some(k) => {
                proof {
                    lemma_next_break(t, i);
                }
                text_piece(t.subrange(i, k)) + break_tag(t[k]) + run_body_from(t, k + 1)
            },
        }
    }
}

/// A run with properties `rpr` and text `t` (`\n` a break, `\t` a tab).
pub open spec fn spec_run_xml(rpr: Seq<u8>, t: Seq<u8>) -> Seq<u8> {
    "<w:r>".spec_bytes() + rpr + run_body_from(t, 0) + "</w:r>".spec_bytes()
}

fn push_text_piece(out: &mut Vec<u8>, b: &[u8])
    ensures
        final(out)@ == old(out)@ + text_piece(b@),
{
    if b.len() > 0 {
        push_str(out, "<w:t xml:space=\"preserve\">");
        escape_into(b, out);
        push_str(out, "</w:t>");
    } else {
        assert(old(out)@ + text_piece(b@) =~= old(out)@);
    }
}

/// Builds a run: properties `rpr`, then the text as pieces, breaks and tabs.
pub fn run_xml(rpr: &[u8], text: &[u8]) -> (r: Vec<u8>)
    ensures
        r@ == spec_run_xml(rpr@, text@),
{
    let mut out = str_bytes("<w:r>");
    push_bytes(&mut out, rpr);
    let ghost head = out@;
    let n = text.len();
    let mut seg: usize = 0;
    let mut i: usize = 0;
    while i < n
        invariant
            seg <= i <= n == text@.len(),
            next_break(text@, seg as int) == next_break(text@, i as int),
            out@ + run_body_from(text@, seg as int) == head + run_body_from(text@, 0),
        decreases n - i,
    {
        if text[i] == 10 || text[i] == 9 {
            assert(next_break(text@, i as int) == Some(i as int));
            let piece = slice_vec(text, seg, i);
            push_text_piece(&mut out, piece.as_slice());
            if text[i] == 10 {
                push_str(&mut out, "<w:br/>");
            } else {
                push_str(&mut out, "<w:tab/>");
            }
            seg = i + 1;
            i = i + 1;
            assert(out@ + run_body_from(text@, seg as int) =~= head + run_body_from(text@, 0));
        } else {
            i = i + 1;
        }
    }
    assert(next_break(text@, n as int) is None);
    let piece = slice_vec(text, seg, n);
    push_text_piece(&mut out, piece.as_slice());
    assert(out@ =~= head + run_body_from(text@, 0));
    push_str(&mut out, "</w:r>");
    out
}

/// The first `\n` at or after `i`.
pub open spec fn next_newline(t: Seq<u8>, i: int) -> Option<int> {
    find_byte(t, 10, i)
}

/// One paragraph per line of `t[i..]`, each with properties `ppr` and one
/// run with `rpr`.
pub open spec fn line_paras_from(t: Seq<u8>, i: int, ppr: Seq<u8>, rpr: Seq<u8>) -> Seq<u8>
    decreases t.len() - i,
{
    if i < 0 || i > t.len() {
        seq![]
    } else {
        match next_newline(t, i) {
            None => "<w:p>".spec_bytes() + ppr + spec_run_xml(rpr, t.subrange(i, t.len() as int))
                + "</w:p>".spec_bytes(),
            Some(k) => {
                proof {
                    lemma_find_byte(t, 10, i);
                }
                "<w:p>".spec_bytes() + ppr + spec_run_xml(rpr, t.subrange(i, k)) + "</w:p>".spec_bytes()
                    + line_paras_from(t, k + 1, ppr, rpr)
            },
        }
    }
}

/// The paragraphs of a new table cell: `<w:p/>` for empty text, else one
/// paragraph per line, bold in a header row.
pub open spec fn spec_cell_paragraphs(t: Seq<u8>, bold: bool) -> Seq<u8> {
    let rpr = if bold {
        "<w:rPr><w:b/></w:rPr>".spec_bytes()
    } else {
        seq![]
    };
    if t.len() == 0 {
        "<w:p/>".spec_bytes()
    } else {
        line_paras_from(t, 0, seq![], rpr)
    }
}

/// Appends one paragraph per line of `text[from..]`, each with properties
/// `ppr` and one run using `rpr`.
pub fn push_line_paras(out: &mut Vec<u8>, text: &[u8], from: usize, ppr: &[u8], rpr: &[u8])
    requires
        from <= text@.len(),
    ensures
        final(out)@ == old(out)@ + line_paras_from(text@, from as int, ppr@, rpr@),
{
    let ghost o0 = out@;
    let n = text.len();
    let mut start = from;
    loop
        invariant
            from <= start <= n == text@.len(),
            o0 == old(out)@,
            out@ + line_paras_from(text@, start as int, ppr@, rpr@) == o0 + line_paras_from(text@, from as int, ppr@, rpr@),
        decreases n - start,
    {
        proof {
            lemma_find_byte(text@, 10, start as int);
        }
        match find_byte_from(text, 10, start) {
            None => {
                let line = slice_vec(text, start, n);
                let ghost o1 = out@;
                push_str(out, "<w:p>");
                push_bytes(out, ppr);
                let r = run_xml(rpr, line.as_slice());
                push_bytes(out, r.as_slice());
                push_str(out, "</w:p>");
                assert(line_paras_from(text@, start as int, ppr@, rpr@) == "<w:p>".spec_bytes() + ppr@ + spec_run_xml(rpr@, line@) + "</w:p>".spec_bytes());
                assert(out@ =~= o1 + line_paras_from(text@, start as int, ppr@, rpr@));
                assert(out@ =~= o0 + line_paras_from(text@, from as int, ppr@, rpr@));
                return;
            },
            Some(k) => {
                let line = slice_vec(text, start, k);
                push_str(out, "<w:p>");
                push_bytes(out, ppr);
                let r = run_xml(rpr, line.as_slice());
                push_bytes(out, r.as_slice());
                push_str(out, "</w:p>");
                start = k + 1;
                assert(out@ + line_paras_from(text@, start as int, ppr@, rpr@) =~= o0 + line_paras_from(text@, from as int, ppr@, rpr@));
            },
        }
    }
}

/// The paragraphs of a new table cell; see [`spec_cell_paragraphs`].
pub fn cell_paragraphs_xml(text: &[u8], bold: bool) -> (r: Vec<u8>)
    ensures
        r@ == spec_cell_paragraphs(text@, bold),
{
    let rpr = if bold {
        str_bytes("<w:rPr><w:b/></w:rPr>")
    } else {
        Vec::new()
    };
    assert(rpr@ =~= (if bold {
        "<w:rPr><w:b/></w:rPr>".spec_bytes()
    } else {
        seq![]
    }));
    if text.len() == 0 {
        return str_bytes("<w:p/>");
    }
    let mut out: Vec<u8> = Vec::new();
    let none: Vec<u8> = Vec::new();
    push_line_paras(&mut out, text, 0, none.as_slice(), rpr.as_slice());
    assert(none@ =~= seq![]);
    assert(out@ =~= line_paras_from(text@, 0, seq![], rpr@));
    out
}

/// The `<w:pPr>…</w:pPr>` of a paragraph, bytes as they stand (empty if none).
pub open spec fn spec_slice_ppr(b: Seq<u8>) -> Seq<u8> {
    match first_occ(b, "<w:pPr>".spec_bytes(), 0) {
        None => seq![],
        Some(s) => match first_occ(b, "</w:pPr>".spec_bytes(), s) {
            None => seq![],
            Some(e) => b.subrange(s, e + "</w:pPr>".spec_bytes().len()),
        },
    }
}

pub fn slice_ppr(b: &[u8]) -> (r: Vec<u8>)
    ensures
        r@ == spec_slice_ppr(b@),
{
    let n = b.len();
    let close = "</w:pPr>".as_bytes();
    let cl = close.len();
    match find_occ(b, "<w:pPr>".as_bytes(), 0) {
        None => Vec::new(),
        Some(s) => match find_occ(b, close, s) {
            None => Vec::new(),
            Some(e) => slice_vec(b, s, e + cl),
        },
    }
}

/// Where the first run's properties are looked for: after the paragraph's
/// `</w:pPr>`, else after its opening tag.
pub open spec fn run_search_from(b: Seq<u8>) -> int {
    match first_occ(b, "</w:pPr>".spec_bytes(), 0) {
        Some(e) => e + "</w:pPr>".spec_bytes().len(),
        None => match find_byte(b, 62, 0) {
            Some(g) => g + 1,
            None => 0,
        },
    }
}

/// The `<w:rPr>…</w:rPr>` of the first run (empty if none).
pub open spec fn spec_slice_first_run_rpr(b: Seq<u8>) -> Seq<u8> {
    match first_occ(b, "<w:rPr>".spec_bytes(), run_search_from(b)) {
        None => seq![],
        Some(s) => match first_occ(b, "</w:rPr>".spec_bytes(), s) {
            None => seq![],
            Some(e) => b.subrange(s, e + "</w:rPr>".spec_bytes().len()),
        },
    }
}

pub fn slice_first_run_rpr(b: &[u8]) -> (r: Vec<u8>)
    ensures
        r@ == spec_slice_first_run_rpr(b@),
{
    proof {
        lemma_find_byte(b@, 62, 0);
    }
    let n = b.len();
    let pclose = "</w:pPr>".as_bytes();
    let pl = pclose.len();
    let from = match find_occ(b, pclose, 0) {
        Some(e) => e + pl,
        None => match find_byte_from(b, 62, 0) {
            Some(g) => g + 1,
            None => 0,
        },
    };
    let rclose = "</w:rPr>".as_bytes();
    let rl = rclose.len();
    match find_occ(b, "<w:rPr>".as_bytes(), from) {
        None => Vec::new(),
        Some(s) => match find_occ(b, rclose, s) {
            None => Vec::new(),
            Some(e) => slice_vec(b, s, e + rl),
        },
    }
}


// ---------------------------------------------------------------------------
// Property containers (`w:pPr`, `w:tblPr`, `w:trPr`, `w:tcPr`)
// ---------------------------------------------------------------------------

/// The names of [`trpr_elements`].
pub open spec fn spec_trpr_elements() -> Seq<&'static str> {
    seq![
        "cnfStyle", "divId", "gridBefore", "gridAfter", "wBefore", "wAfter",
        "cantSplit", "trHeight", "tblHeader", "tblCellSpacing", "jc", "hidden",
    ]
}

/// The children of `w:trPr`, in schema order.
pub fn trpr_elements() -> (r: Vec<&'static str>)
    ensures
        r@ == spec_trpr_elements(),
{
    vec![
        "cnfStyle", "divId", "gridBefore", "gridAfter", "wBefore", "wAfter",
        "cantSplit", "trHeight", "tblHeader", "tblCellSpacing", "jc", "hidden",
    ]
}

/// The names of [`tcpr_elements`].
pub open spec fn spec_tcpr_elements() -> Seq<&'static str> {
    seq![
        "cnfStyle", "tcW", "gridSpan", "hMerge", "vMerge", "tcBorders", "shd",
        "noWrap", "tcMar", "textDirection", "tcFitText", "vAlign", "hideMark",
    ]
}

/// The children of `w:tcPr`, in schema order.
pub fn tcpr_elements() -> (r: Vec<&'static str>)
    ensures
        r@ == spec_tcpr_elements(),
{
    vec![
        "cnfStyle", "tcW", "gridSpan", "hMerge", "vMerge", "tcBorders", "shd",
        "noWrap", "tcMar", "textDirection", "tcFitText", "vAlign", "hideMark",
    ]
}

/// The structural children of `w:tcPr`: changing them breaks the grid, so
/// merges and splits own them.
pub open spec fn spec_tcpr_protected() -> Seq<&'static str> {
    seq!["gridSpan", "hMerge", "vMerge"]
}

pub fn tcpr_protected() -> (r: Vec<&'static str>)
    ensures
        r@ == spec_tcpr_protected(),
{
    vec!["gridSpan", "hMerge", "vMerge"]
}

/// The names of `list` from `from` on.
pub fn tail_list(list: &Vec<&'static str>, from: usize) -> (r: Vec<&'static str>)
    requires
        from <= list@.len(),
    ensures
        r@ == list@.subrange(from as int, list@.len() as int),
{
    let mut out: Vec<&'static str> = Vec::new();
    let mut i = from;
    while i < list.len()
        invariant
            from <= i <= list@.len(),
            out@ == list@.subrange(from as int, i as int),
        decreases list@.len() - i,
    {
        out.push(list[i]);
        assert(out@ =~= list@.subrange(from as int, i + 1));
        i = i + 1;
    }
    out
}

/// The first `pat` in `sc`, where it opens a tag (followed by `>`, `/` or a
/// space; `<w:pPrChange` is no `<w:pPr`).
pub open spec fn container_at(sc: Seq<u8>, pat: Seq<u8>) -> Option<int> {
    match first_occ(sc, pat, 0) {
        Some(s) => if s + pat.len() < sc.len() && (sc[s + pat.len()] == 62 || sc[s + pat.len()] == 47
            || sc[s + pat.len()] == 32) {
            Some(s)
        } else {
            None
        },
        None => None,
    }
}

pub fn find_container(sc: &[u8], pat: &[u8]) -> (r: Option<usize>)
    ensures
        match container_at(sc@, pat@) {
            Some(s) => r matches Some(x) && x as int == s,
            None => r is None,
        },
        r matches Some(x) ==> x + pat@.len() < sc@.len() && has_at(sc@, x as int, pat@),
{
    let n = sc.len();
    let pl = pat.len();
    match find_occ(sc, pat, 0) {
        Some(s) => {
            if s + pl < n && (sc[s + pl] == 62 || sc[s + pl] == 47 || sc[s + pl] == 32) {
                Some(s)
            } else {
                None
            }
        },
        None => None,
    }
}

/// `<w:c>inner</w:c>`.
pub open spec fn wrap(c: Seq<u8>, inner: Seq<u8>) -> Seq<u8> {
    w_open(c) + ">".spec_bytes() + inner + w_close(c)
}

fn wrap_of(c: &[u8], inner: &[u8]) -> (r: Vec<u8>)
    ensures
        r@ == wrap(c@, inner@),
{
    let mut v = w_open_of(c);
    push_str(&mut v, ">");
    push_bytes(&mut v, inner);
    let cl = w_close_of(c);
    push_bytes(&mut v, cl.as_slice());
    v
}

pub open spec fn oview(o: Option<&[u8]>) -> Option<Seq<u8>> {
    match o {
        Some(f) => Some(f@),
        None => None,
    }
}

/// What an edit of element `w:el` of container `w:c` makes of the scope
/// element `sc` (a table, row or cell), and whether it changed anything.
/// Without a fragment the element is cut (no change if it is missing; a
/// container left blank goes too); with one it replaces the element or is
/// inserted in schema order (`wl`); a missing container is created right
/// after the scope's opening tag, a self-closed one is written out.
/// `None`: malformed markup, or `el` not in `wl`.
#[verifier::opaque]
pub open spec fn spec_set_container_element(
    sc: Seq<u8>,
    c: Seq<u8>,
    el: Seq<u8>,
    frag: Option<Seq<u8>>,
    wl: Seq<&'static str>,
) -> Option<(Seq<u8>, bool)> {
    match container_at(sc, w_open(c)) {
        None => match frag {
            None => Some((sc, false)),
            Some(f) => match find_byte(sc, 62, 0) {
                None => None,
                Some(gt) => if gt > 0 && sc[gt - 1] == 47 {
                    None
                } else {
                    Some((splice(sc, gt + 1, gt + 1, wrap(c, f)), true))
                },
            },
        },
        Some(s) => match find_byte(sc, 62, s) {
            None => None,
            Some(g) => if sc[g - 1] == 47 {
                match frag {
                    None => Some((sc, false)),
                    Some(f) => Some((splice(sc, s, g + 1, wrap(c, f)), true)),
                }
            } else {
                match first_occ(sc, w_close(c), g + 1) {
                    None => None,
                    Some(ca) => match frag {
                        None => {
                            let inner = sc.subrange(g + 1, ca);
                            match element_span(inner, el) {
                                None => Some((sc, false)),
                                Some((es, ee)) => {
                                    let ni = splice(inner, es, ee, seq![]);
                                    if trimmed(ni).len() == 0 {
                                        Some((splice(sc, s, ca + w_close(c).len(), seq![]), true))
                                    } else {
                                        Some((splice(sc, g + 1, ca, ni), true))
                                    }
                                },
                            }
                        },
                        Some(f) => match index_in(wl, el, 0) {
                            None => None,
                            Some(idx) => {
                                let ce = ca + w_close(c).len();
                                Some((splice(sc, s, ce, spec_upsert(sc.subrange(s, ce), el, f,
                                    wl.subrange(idx + 1, wl.len() as int), w_close(c))), true))
                            },
                        },
                    },
                }
            },
        },
    }
}

/// Edits element `w:element` of container `w:container` in a scope element;
/// see [`spec_set_container_element`].
pub fn set_container_element_xml(
    scope_xml: &[u8],
    container: &[u8],
    element: &[u8],
    frag: Option<&[u8]>,
    whitelist: &Vec<&'static str>,
) -> (r: Option<(Vec<u8>, bool)>)
    ensures
        match spec_set_container_element(scope_xml@, container@, element@, oview(frag), whitelist@) {
            Some((x, ch)) => r matches Some((y, c2)) && y@ == x && c2 == ch,
            None => r is None,
        },
{
    reveal(spec_set_container_element);
    let n = scope_xml.len();
    let pat = w_open_of(container);
    let close = w_close_of(container);
    let cl = close.len();
    proof {
        lemma_w_lits();
    }
    match find_container(scope_xml, pat.as_slice()) {
        None => {
            match frag {
                None => {
                    let same = slice_vec(scope_xml, 0, n);
                    assert(same@ =~= scope_xml@);
                    Some((same, false))
                },
                Some(f) => {
                    proof {
                        lemma_find_byte(scope_xml@, 62, 0);
                    }
                    match find_byte_from(scope_xml, 62, 0) {
                        None => None,
                        Some(gt) => {
                            if gt > 0 && scope_xml[gt - 1] == 47 {
                                None
                            } else {
                                let w = wrap_of(container, f);
                                Some((splice_vec(scope_xml, gt + 1, gt + 1, w.as_slice()), true))
                            }
                        },
                    }
                },
            }
        },
        Some(s) => {
            proof {
                lemma_find_byte(scope_xml@, 62, s as int);
            }
            let g = match find_byte_from(scope_xml, 62, s) {
                Some(g) => g,
                None => return None,
            };
            assert(scope_xml@.subrange(s as int, s + pat@.len())[0] == pat@[0]);
            assert(g > s);
            if scope_xml[g - 1] == 47 {
                match frag {
                    None => {
                        let same = slice_vec(scope_xml, 0, n);
                        assert(same@ =~= scope_xml@);
                        Some((same, false))
                    },
                    Some(f) => {
                        let w = wrap_of(container, f);
                        Some((splice_vec(scope_xml, s, g + 1, w.as_slice()), true))
                    },
                }
            } else {
                let ca = match find_occ(scope_xml, close.as_slice(), g + 1) {
                    Some(x) => x,
                    None => return None,
                };
                match frag {
                    None => {
                        let inner = slice_vec(scope_xml, g + 1, ca);
                        match find_element_span(inner.as_slice(), element) {
                            None => {
                                let same = slice_vec(scope_xml, 0, n);
                                assert(same@ =~= scope_xml@);
                                Some((same, false))
                            },
                            Some((es, ee)) => {
                                let empty: Vec<u8> = Vec::new();
                                let ni = splice_vec(inner.as_slice(), es, ee, empty.as_slice());
                                assert(empty@ =~= seq![]);
                                if is_blank(ni.as_slice()) {
                                    Some((splice_vec(scope_xml, s, ca + cl, empty.as_slice()), true))
                                } else {
                                    Some((splice_vec(scope_xml, g + 1, ca, ni.as_slice()), true))
                                }
                            },
                        }
                    },
                    Some(f) => {
                        let wn = whitelist.len();
                        let idx = match index_in_exec(whitelist, element) {
                            Some(i) => i,
                            None => return None,
                        };
                        let later = tail_list(whitelist, idx + 1);
                        let ce = ca + cl;
                        let cont = slice_vec(scope_xml, s, ce);
                        let nc = upsert_element(cont.as_slice(), element, f, &later, close.as_slice());
                        Some((splice_vec(scope_xml, s, ce, nc.as_slice()), true))
                    },
                }
            }
        },
    }
}


// ---------------------------------------------------------------------------
// Paragraph surgery
// ---------------------------------------------------------------------------

/// `<w:pPr>inner</w:pPr>`.
pub open spec fn wrap_ppr(inner: Seq<u8>) -> Seq<u8> {
    "<w:pPr>".spec_bytes() + inner + "</w:pPr>".spec_bytes()
}

fn wrap_ppr_of(inner: &[u8]) -> (r: Vec<u8>)
    ensures
        r@ == wrap_ppr(inner@),
{
    let mut v = str_bytes("<w:pPr>");
    push_bytes(&mut v, inner);
    push_str(&mut v, "</w:pPr>");
    v
}

/// The paragraph's own `w:pPr` (not a `w:pPrChange`): the first `<w:pPr`,
/// where it opens that element.
pub open spec fn ppr_at(b: Seq<u8>) -> Option<int> {
    container_at(b, "<w:pPr".spec_bytes())
}

/// The opening tag of a paragraph block, written as a pair's opening tag.
pub open spec fn block_open_tag(b: Seq<u8>) -> Seq<u8> {
    if ends_with_spec(b, "/>".spec_bytes()) {
        b.subrange(0, b.len() - 2) + ">".spec_bytes()
    } else {
        match find_byte(b, 62, 0) {
            Some(g) => b.subrange(0, g + 1),
            None => b,
        }
    }
}

/// A paragraph rebuilt with new text: its opening tag, `w:pPr` and first
/// run's `w:rPr` kept, one run holding the text; nothing for a deletion.
pub open spec fn spec_rebuild_paragraph(b: Seq<u8>, text: Option<Seq<u8>>) -> Seq<u8> {
    match text {
        None => seq![],
        Some(t) => block_open_tag(b) + spec_slice_ppr(b) + spec_run_xml(spec_slice_first_run_rpr(b), t)
            + "</w:p>".spec_bytes(),
    }
}

/// Rebuilds the paragraph at `span` of `xml`; see [`spec_rebuild_paragraph`].
pub fn rebuild_paragraph(xml: &[u8], span: BlockSpan, new_text: Option<&[u8]>) -> (r: Vec<u8>)
    requires
        span.start <= span.end <= xml@.len(),
        find_byte(xml@.subrange(span.start as int, span.end as int), 62, 0) is Some,
    ensures
        r@ == spec_rebuild_paragraph(xml@.subrange(span.start as int, span.end as int), oview(new_text)),
{
    let b = slice_vec(xml, span.start, span.end);
    let text = match new_text {
        Some(t) => t,
        None => return Vec::new(),
    };
    let n = b.len();
    let mut out = if ends_with(b.as_slice(), "/>".as_bytes()) {
        proof {
            lemma_w_lits();
        }
        let mut o = slice_vec(b.as_slice(), 0, n - 2);
        push_str(&mut o, ">");
        o
    } else {
        proof {
            lemma_find_byte(b@, 62, 0);
        }
        match find_byte_from(b.as_slice(), 62, 0) {
            Some(g) => slice_vec(b.as_slice(), 0, g + 1),
            None => slice_vec(b.as_slice(), 0, n),
        }
    };
    let ppr = slice_ppr(b.as_slice());
    push_bytes(&mut out, ppr.as_slice());
    let rpr = slice_first_run_rpr(b.as_slice());
    let run = run_xml(rpr.as_slice(), text);
    push_bytes(&mut out, run.as_slice());
    push_str(&mut out, "</w:p>");
    out
}

/// `<w:pStyle w:val="id"/>`.
pub open spec fn pstyle_tag(id: Seq<u8>) -> Seq<u8> {
    "<w:pStyle w:val=\"".spec_bytes() + id + "\"/>".spec_bytes()
}

/// A paragraph with its style set to `id`, nothing else touched: an
/// existing `w:pStyle` (the first) replaced whole; else one put first in
/// `w:pPr`; else a `w:pPr` holding it created after the opening tag (a
/// self-closed paragraph written as a pair). `None` for malformed markup.
pub open spec fn spec_restyle(b: Seq<u8>, id: Seq<u8>) -> Option<Seq<u8>> {
    let tag = pstyle_tag(id);
    match first_occ(b, "<w:pStyle".spec_bytes(), 0) {
        Some(s) => match find_byte(b, 62, s) {
            None => None,
            Some(g) => if b[g - 1] == 47 {
                Some(splice(b, s, g + 1, tag))
            } else {
                match first_occ(b, "</w:pStyle>".spec_bytes(), g + 1) {
                    None => None,
                    Some(c) => Some(splice(b, s, c + "</w:pStyle>".spec_bytes().len(), tag)),
                }
            },
        },
        None => match ppr_at(b) {
            Some(s) => match find_byte(b, 62, s) {
                None => None,
                Some(g) => if b[g - 1] == 47 {
                    Some(splice(b, s, g + 1, wrap_ppr(tag)))
                } else {
                    Some(splice(b, g + 1, g + 1, tag))
                },
            },
            None => match find_byte(b, 62, 0) {
                None => None,
                Some(g) => if g > 0 && b[g - 1] == 47 {
                    Some(b.subrange(0, g - 1) + ">".spec_bytes() + wrap_ppr(tag) + "</w:p>".spec_bytes())
                } else {
                    Some(splice(b, g + 1, g + 1, wrap_ppr(tag)))
                },
            },
        },
    }
}

/// Sets a paragraph's style; see [`spec_restyle`].
pub fn restyle_paragraph(block_xml: &[u8], style_id: &[u8]) -> (r: Option<Vec<u8>>)
    ensures
        match spec_restyle(block_xml@, style_id@) {
            Some(v) => r matches Some(x) && x@ == v,
            None => r is None,
        },
{
    let b = block_xml;
    let n = b.len();
    let mut tag = str_bytes("<w:pStyle w:val=\"");
    push_bytes(&mut tag, style_id);
    push_str(&mut tag, "\"/>");
    let ps = "<w:pStyle".as_bytes();
    let pl = ps.len();
    match find_occ(b, ps, 0) {
        Some(s) => {
            proof {
                lemma_find_byte(b@, 62, s as int);
                reveal_strlit("<w:pStyle");
                vstd::utf8::is_ascii_chars_encode_utf8("<w:pStyle"@);
            }
            assert(b@.subrange(s as int, s + pl)[0] == ps@[0]);
            let g = match find_byte_from(b, 62, s) {
                Some(g) => g,
                None => return None,
            };
            assert(g > s);
            if b[g - 1] == 47 {
                Some(splice_vec(b, s, g + 1, tag.as_slice()))
            } else {
                let close = "</w:pStyle>".as_bytes();
                let cl = close.len();
                match find_occ(b, close, g + 1) {
                    None => None,
                    Some(c) => Some(splice_vec(b, s, c + cl, tag.as_slice())),
                }
            }
        },
        None => match find_container(b, "<w:pPr".as_bytes()) {
            Some(s) => {
                proof {
                    lemma_find_byte(b@, 62, s as int);
                    reveal_strlit("<w:pPr");
                    vstd::utf8::is_ascii_chars_encode_utf8("<w:pPr"@);
                }
                assert(b@.subrange(s as int, s + "<w:pPr".spec_bytes().len())[0] == "<w:pPr".spec_bytes()[0]);
                let g = match find_byte_from(b, 62, s) {
                    Some(g) => g,
                    None => return None,
                };
                assert(g > s);
                if b[g - 1] == 47 {
                    let w = wrap_ppr_of(tag.as_slice());
                    Some(splice_vec(b, s, g + 1, w.as_slice()))
                } else {
                    Some(splice_vec(b, g + 1, g + 1, tag.as_slice()))
                }
            },
            None => {
                proof {
                    lemma_find_byte(b@, 62, 0);
                }
                match find_byte_from(b, 62, 0) {
                    None => None,
                    Some(g) => {
                        let w = wrap_ppr_of(tag.as_slice());
                        if g > 0 && b[g - 1] == 47 {
                            let mut o = slice_vec(b, 0, g - 1);
                            push_str(&mut o, ">");
                            push_bytes(&mut o, w.as_slice());
                            push_str(&mut o, "</w:p>");
                            Some(o)
                        } else {
                            Some(splice_vec(b, g + 1, g + 1, w.as_slice()))
                        }
                    },
                }
            },
        },
    }
}

/// A paragraph with element `w:el` cut from its `w:pPr` (a `w:pPr` left
/// blank goes too), and whether anything changed. `None` for a paragraph
/// without `w:pPr` or malformed markup.
pub open spec fn spec_remove_ppr_element(b: Seq<u8>, el: Seq<u8>) -> Option<(Seq<u8>, bool)> {
    match ppr_at(b) {
        None => None,
        Some(s) => match find_byte(b, 62, s) {
            None => None,
            Some(g) => if b[g - 1] == 47 {
                Some((b, false))
            } else {
                match first_occ(b, "</w:pPr>".spec_bytes(), g + 1) {
                    None => None,
                    Some(c) => {
                        let inner = b.subrange(g + 1, c);
                        match element_span(inner, el) {
                            None => Some((b, false)),
                            Some((es, ee)) => {
                                let ni = splice(inner, es, ee, seq![]);
                                if trimmed(ni).len() == 0 {
                                    Some((splice(b, s, c + "</w:pPr>".spec_bytes().len(), seq![]), true))
                                } else {
                                    Some((splice(b, g + 1, c, ni), true))
                                }
                            },
                        }
                    },
                }
            },
        },
    }
}

/// Cuts element `w:element` from a paragraph's `w:pPr`; see [`spec_remove_ppr_element`].
pub fn remove_ppr_element(block_xml: &[u8], element: &[u8]) -> (r: Option<(Vec<u8>, bool)>)
    ensures
        match spec_remove_ppr_element(block_xml@, element@) {
            Some((v, ch)) => r matches Some((x, c2)) && x@ == v && c2 == ch,
            None => r is None,
        },
{
    let b = block_xml;
    let n = b.len();
    let s = match find_container(b, "<w:pPr".as_bytes()) {
        Some(s) => s,
        None => return None,
    };
    proof {
        lemma_find_byte(b@, 62, s as int);
        reveal_strlit("<w:pPr");
        vstd::utf8::is_ascii_chars_encode_utf8("<w:pPr"@);
    }
    assert(b@.subrange(s as int, s + "<w:pPr".spec_bytes().len())[0] == "<w:pPr".spec_bytes()[0]);
    let g = match find_byte_from(b, 62, s) {
        Some(g) => g,
        None => return None,
    };
    assert(g > s);
    if b[g - 1] == 47 {
        return Some((slice_vec(b, 0, n), false));
    }
    let close = "</w:pPr>".as_bytes();
    let cl = close.len();
    let c = match find_occ(b, close, g + 1) {
        Some(c) => c,
        None => return None,
    };
    let inner = slice_vec(b, g + 1, c);
    match find_element_span(inner.as_slice(), element) {
        None => Some((slice_vec(b, 0, n), false)),
        Some((es, ee)) => {
            let empty: Vec<u8> = Vec::new();
            assert(empty@ =~= seq![]);
            let ni = splice_vec(inner.as_slice(), es, ee, empty.as_slice());
            if is_blank(ni.as_slice()) {
                Some((splice_vec(b, s, c + cl, empty.as_slice()), true))
            } else {
                Some((splice_vec(b, g + 1, c, ni.as_slice()), true))
            }
        },
    }
}

/// A paragraph with `frag` put in its `w:pPr` as element `w:el` (replacing
/// the one there, else in schema order), or with that element cut when
/// there is no fragment; a missing `w:pPr` is created after the opening tag.
/// Also whether anything changed. `None` for malformed markup or an element
/// not in the schema list.
pub open spec fn spec_set_ppr_element(b: Seq<u8>, el: Seq<u8>, frag: Option<Seq<u8>>) -> Option<(Seq<u8>, bool)> {
    match frag {
        None => spec_remove_ppr_element(b, el),
        Some(f) => match ppr_at(b) {
            None => match find_byte(b, 62, 0) {
                None => None,
                Some(g) => if g > 0 && b[g - 1] == 47 {
                    Some((b.subrange(0, g - 1) + ">".spec_bytes() + wrap_ppr(f) + "</w:p>".spec_bytes(), true))
                } else {
                    Some((splice(b, g + 1, g + 1, wrap_ppr(f)), true))
                },
            },
            Some(s) => match find_byte(b, 62, s) {
                None => None,
                Some(g) => if b[g - 1] == 47 {
                    Some((splice(b, s, g + 1, wrap_ppr(f)), true))
                } else {
                    match index_in(spec_ppr_elements(), el, 0) {
                        None => None,
                        Some(idx) => match first_occ(b, "</w:pPr>".spec_bytes(), g + 1) {
                            None => None,
                            Some(c) => {
                                let pe = c + "</w:pPr>".spec_bytes().len();
                                Some((splice(b, s, pe, spec_upsert(b.subrange(s, pe), el, f,
                                    spec_ppr_elements().subrange(idx + 1, spec_ppr_elements().len() as int),
                                    "</w:pPr>".spec_bytes())), true))
                            },
                        },
                    }
                },
            },
        },
    }
}

/// Edits element `w:element` of a paragraph's `w:pPr`; see [`spec_set_ppr_element`].
pub fn set_ppr_element(block_xml: &[u8], element: &[u8], xml: Option<&[u8]>) -> (r: Option<(Vec<u8>, bool)>)
    ensures
        match spec_set_ppr_element(block_xml@, element@, oview(xml)) {
            Some((v, ch)) => r matches Some((x, c2)) && x@ == v && c2 == ch,
            None => r is None,
        },
{
    let f = match xml {
        Some(f) => f,
        None => return remove_ppr_element(block_xml, element),
    };
    let b = block_xml;
    let n = b.len();
    match find_container(b, "<w:pPr".as_bytes()) {
        None => {
            proof {
                lemma_find_byte(b@, 62, 0);
            }
            let g = match find_byte_from(b, 62, 0) {
                Some(g) => g,
                None => return None,
            };
            let w = wrap_ppr_of(f);
            if g > 0 && b[g - 1] == 47 {
                let mut o = slice_vec(b, 0, g - 1);
                push_str(&mut o, ">");
                push_bytes(&mut o, w.as_slice());
                push_str(&mut o, "</w:p>");
                Some((o, true))
            } else {
                Some((splice_vec(b, g + 1, g + 1, w.as_slice()), true))
            }
        },
        Some(s) => {
            proof {
                lemma_find_byte(b@, 62, s as int);
                reveal_strlit("<w:pPr");
                vstd::utf8::is_ascii_chars_encode_utf8("<w:pPr"@);
            }
            assert(b@.subrange(s as int, s + "<w:pPr".spec_bytes().len())[0] == "<w:pPr".spec_bytes()[0]);
            let g = match find_byte_from(b, 62, s) {
                Some(g) => g,
                None => return None,
            };
            assert(g > s);
            if b[g - 1] == 47 {
                let w = wrap_ppr_of(f);
                return Some((splice_vec(b, s, g + 1, w.as_slice()), true));
            }
            let list = ppr_elements();
            let ln = list.len();
            let idx = match index_in_exec(&list, element) {
                Some(i) => i,
                None => return None,
            };
            let later = tail_list(&list, idx + 1);
            let close = "</w:pPr>".as_bytes();
            let cl = close.len();
            let c = match find_occ(b, close, g + 1) {
                Some(c) => c,
                None => return None,
            };
            let pe = c + cl;
            let ppr = slice_vec(b, s, pe);
            let np = upsert_element(ppr.as_slice(), element, f, &later, close);
            Some((splice_vec(b, s, pe, np.as_slice()), true))
        },
    }
}

// ---------------------------------------------------------------------------
// Direct formatting
// ---------------------------------------------------------------------------

/// Paragraph formatting, as written into `w:pPr`; a field left `None` is
/// not touched. `line` is the `w:line` of the spacing (240 per line, rule
/// `auto`); spacing before and after and indents are in twips.
#[derive(Debug, Clone)]
pub struct ParaFormat {
    /// `w:jc` value: left, center, right, both, distribute, start or end.
    pub align: Option<Vec<u8>>,
    pub line: Option<i64>,
    pub space_before: Option<i64>,
    pub space_after: Option<i64>,
    /// First-line indent (not negative).
    pub indent_first_line_tw: Option<i32>,
    /// Left indent (negative hangs out).
    pub indent_left_tw: Option<i32>,
}

impl ParaFormat {
    pub open spec fn spec_is_empty(&self) -> bool {
        self.align is None && self.line is None && self.space_before is None && self.space_after is None
            && self.indent_first_line_tw is None && self.indent_left_tw is None
    }

    /// No field is set.
    pub fn is_empty(&self) -> (r: bool)
        ensures
            r == self.spec_is_empty(),
    {
        self.align.is_none() && self.line.is_none() && self.space_before.is_none() && self.space_after.is_none()
            && self.indent_first_line_tw.is_none() && self.indent_left_tw.is_none()
    }
}

impl Default for ParaFormat {
    /// No field set.
    fn default() -> (r: Self)
        ensures
            r.spec_is_empty(),
    {
        ParaFormat {
            align: None,
            line: None,
            space_before: None,
            space_after: None,
            indent_first_line_tw: None,
            indent_left_tw: None,
        }
    }
}

/// Character formatting, applied to every run; a field left `None` is not
/// touched. Size in half-points; colour `RRGGBB`; the font for East Asian,
/// ASCII and high-ANSI text alike.
#[derive(Debug, Clone)]
pub struct CharFormat {
    pub bold: Option<bool>,
    pub italic: Option<bool>,
    pub size_half_pt: Option<i64>,
    pub color: Option<Vec<u8>>,
    pub font: Option<Vec<u8>>,
}

impl CharFormat {
    pub open spec fn spec_is_empty(&self) -> bool {
        self.bold is None && self.italic is None && self.size_half_pt is None && self.color is None && self.font is None
    }

    /// No field is set.
    pub fn is_empty(&self) -> (r: bool)
        ensures
            r == self.spec_is_empty(),
    {
        self.bold.is_none() && self.italic.is_none() && self.size_half_pt.is_none() && self.color.is_none()
            && self.font.is_none()
    }
}

impl Default for CharFormat {
    /// No field set.
    fn default() -> (r: Self)
        ensures
            r.spec_is_empty(),
    {
        CharFormat { bold: None, italic: None, size_half_pt: None, color: None, font: None }
    }
}

pub type Attrs = Seq<(Seq<u8>, Seq<u8>)>;

/// The attributes of element `w:name` in `out` (none when it is missing).
pub open spec fn existing_attrs(out: Seq<u8>, name: Seq<u8>) -> Attrs {
    match element_span(out, name) {
        Some((s, e)) => attrs_from(tag_part(out.subrange(s, e))),
        None => seq![],
    }
}

fn existing_attrs_of(out: &[u8], name: &[u8]) -> (r: Vec<(Vec<u8>, Vec<u8>)>)
    ensures
        attrs_view(r@) == existing_attrs(out@, name@),
{
    match find_element_span(out, name) {
        Some((s, e)) => {
            let el = slice_vec(out, s, e);
            parse_attrs(el.as_slice())
        },
        None => {
            let v: Vec<(Vec<u8>, Vec<u8>)> = Vec::new();
            assert(attrs_view(v@) =~= seq![]);
            v
        },
    }
}

/// The `w:spacing` attributes after a format: line spacing with rule
/// `auto`; spacing before and after, dropping their line-unit and
/// automatic variants.
pub open spec fn spacing_attrs(a: Attrs, p: ParaFormat) -> Attrs {
    let a1 = match p.line {
        Some(v) => spec_attr_set(spec_attr_set(a, "w:line".spec_bytes(), idec(v as int)), "w:lineRule".spec_bytes(),
            "auto".spec_bytes()),
        None => a,
    };
    let a2 = match p.space_before {
        Some(v) => spec_attr_remove(spec_attr_remove(spec_attr_set(a1, "w:before".spec_bytes(), idec(v as int)),
            "w:beforeLines".spec_bytes()), "w:beforeAutospacing".spec_bytes()),
        None => a1,
    };
    match p.space_after {
        Some(v) => spec_attr_remove(spec_attr_remove(spec_attr_set(a2, "w:after".spec_bytes(), idec(v as int)),
            "w:afterLines".spec_bytes()), "w:afterAutospacing".spec_bytes()),
        None => a2,
    }
}

/// The `w:ind` attributes after a format. The character-unit variants are
/// written as 0 so that a style's own value cannot show through; a zero
/// first-line indent also zeroes the hanging indent, a non-zero one drops it.
pub open spec fn ind_attrs(a: Attrs, p: ParaFormat) -> Attrs {
    let a1 = match p.indent_first_line_tw {
        Some(v) => {
            let b = spec_attr_set(spec_attr_set(a, "w:firstLine".spec_bytes(), idec(v as int)),
                "w:firstLineChars".spec_bytes(), "0".spec_bytes());
            if v == 0 {
                spec_attr_set(spec_attr_set(b, "w:hanging".spec_bytes(), "0".spec_bytes()), "w:hangingChars".spec_bytes(),
                    "0".spec_bytes())
            } else {
                spec_attr_remove(spec_attr_remove(b, "w:hanging".spec_bytes()), "w:hangingChars".spec_bytes())
            }
        },
        None => a,
    };
    match p.indent_left_tw {
        Some(v) => spec_attr_set(spec_attr_set(a1, "w:left".spec_bytes(), idec(v as int)), "w:leftChars".spec_bytes(),
            "0".spec_bytes()),
        None => a1,
    }
}

/// `<w:name w:val="v"/>`.
pub open spec fn val_tag(name: Seq<u8>, v: Seq<u8>) -> Seq<u8> {
    w_open(name) + " w:val=\"".spec_bytes() + v + "\"/>".spec_bytes()
}

fn val_tag_of(name: &[u8], v: &[u8]) -> (r: Vec<u8>)
    ensures
        r@ == val_tag(name@, v@),
{
    let mut t = w_open_of(name);
    push_str(&mut t, " w:val=\"");
    push_bytes(&mut t, v);
    push_str(&mut t, "\"/>");
    t
}

/// The content of a `w:pPr` with a paragraph format applied: `w:spacing`
/// and `w:ind` merged attribute by attribute, `w:jc` replaced; each put in
/// schema order when missing.
pub open spec fn spec_apply_para(inner: Seq<u8>, p: ParaFormat) -> Seq<u8> {
    let o1 = if p.line is Some || p.space_before is Some || p.space_after is Some {
        spec_upsert(inner, "spacing".spec_bytes(), spec_build_tag("spacing".spec_bytes(), spacing_attrs(
            existing_attrs(inner, "spacing".spec_bytes()), p)), seq!["ind", "jc", "rPr", "sectPr", "pPrChange"],
            "</w:pPr>".spec_bytes())
    } else {
        inner
    };
    let o2 = if p.indent_first_line_tw is Some || p.indent_left_tw is Some {
        spec_upsert(o1, "ind".spec_bytes(), spec_build_tag("ind".spec_bytes(), ind_attrs(
            existing_attrs(o1, "ind".spec_bytes()), p)), seq!["jc", "rPr", "sectPr", "pPrChange"], "</w:pPr>".spec_bytes())
    } else {
        o1
    };
    match p.align {
        Some(v) => spec_upsert(o2, "jc".spec_bytes(), val_tag("jc".spec_bytes(), v@), seq![
            "textDirection", "outlineLvl", "rPr", "sectPr", "pPrChange"], "</w:pPr>".spec_bytes()),
        None => o2,
    }
}

fn dec_i64(v: i64) -> (r: Vec<u8>)
    ensures
        r@ == idec(v as int),
{
    let mut o: Vec<u8> = Vec::new();
    push_i64(&mut o, v);
    assert(o@ =~= idec(v as int));
    o
}

/// Applies a paragraph format to the content of a `w:pPr`; see [`spec_apply_para`].
pub fn apply_para_formats(ppr_inner: &[u8], p: &ParaFormat) -> (r: Vec<u8>)
    ensures
        r@ == spec_apply_para(ppr_inner@, *p),
{
    let mut out = slice_vec(ppr_inner, 0, ppr_inner.len());
    assert(out@ =~= ppr_inner@);
    let end = str_bytes("</w:pPr>");
    if p.line.is_some() || p.space_before.is_some() || p.space_after.is_some() {
        let mut attrs = existing_attrs_of(out.as_slice(), "spacing".as_bytes());
        match p.line {
            Some(v) => {
                let d = dec_i64(v);
                attr_set(&mut attrs, "w:line", d.as_slice());
                attr_set(&mut attrs, "w:lineRule", "auto".as_bytes());
            },
            None => {},
        }
        match p.space_before {
            Some(v) => {
                let d = dec_i64(v);
                attr_set(&mut attrs, "w:before", d.as_slice());
                attr_remove(&mut attrs, "w:beforeLines");
                attr_remove(&mut attrs, "w:beforeAutospacing");
            },
            None => {},
        }
        match p.space_after {
            Some(v) => {
                let d = dec_i64(v);
                attr_set(&mut attrs, "w:after", d.as_slice());
                attr_remove(&mut attrs, "w:afterLines");
                attr_remove(&mut attrs, "w:afterAutospacing");
            },
            None => {},
        }
        let tag = build_tag("spacing".as_bytes(), &attrs);
        let later = vec!["ind", "jc", "rPr", "sectPr", "pPrChange"];
        out = upsert_element(out.as_slice(), "spacing".as_bytes(), tag.as_slice(), &later, end.as_slice());
    }
    if p.indent_first_line_tw.is_some() || p.indent_left_tw.is_some() {
        let mut attrs = existing_attrs_of(out.as_slice(), "ind".as_bytes());
        match p.indent_first_line_tw {
            Some(v) => {
                let d = dec_i64(v as i64);
                attr_set(&mut attrs, "w:firstLine", d.as_slice());
                attr_set(&mut attrs, "w:firstLineChars", "0".as_bytes());
                if v == 0 {
                    attr_set(&mut attrs, "w:hanging", "0".as_bytes());
                    attr_set(&mut attrs, "w:hangingChars", "0".as_bytes());
                } else {
                    attr_remove(&mut attrs, "w:hanging");
                    attr_remove(&mut attrs, "w:hangingChars");
                }
            },
            None => {},
        }
        match p.indent_left_tw {
            Some(v) => {
                let d = dec_i64(v as i64);
                attr_set(&mut attrs, "w:left", d.as_slice());
                attr_set(&mut attrs, "w:leftChars", "0".as_bytes());
            },
            None => {},
        }
        let tag = build_tag("ind".as_bytes(), &attrs);
        let later = vec!["jc", "rPr", "sectPr", "pPrChange"];
        out = upsert_element(out.as_slice(), "ind".as_bytes(), tag.as_slice(), &later, end.as_slice());
    }
    match &p.align {
        Some(v) => {
            let tag = val_tag_of("jc".as_bytes(), v.as_slice());
            let later = vec!["textDirection", "outlineLvl", "rPr", "sectPr", "pPrChange"];
            out = upsert_element(out.as_slice(), "jc".as_bytes(), tag.as_slice(), &later, end.as_slice());
        },
        None => {},
    }
    out
}


/// The `w:spacing` attributes of a new `w:pPr`.
pub open spec fn fresh_spacing(p: ParaFormat) -> Attrs {
    let a1: Attrs = match p.line {
        Some(v) => seq![("w:line".spec_bytes(), idec(v as int)), ("w:lineRule".spec_bytes(), "auto".spec_bytes())],
        None => seq![],
    };
    let a2 = match p.space_before {
        Some(v) => a1.push(("w:before".spec_bytes(), idec(v as int))),
        None => a1,
    };
    match p.space_after {
        Some(v) => a2.push(("w:after".spec_bytes(), idec(v as int))),
        None => a2,
    }
}

/// The `w:ind` attributes of a new `w:pPr`.
pub open spec fn fresh_ind(p: ParaFormat) -> Attrs {
    let a1: Attrs = match p.indent_first_line_tw {
        Some(v) => {
            let b = seq![("w:firstLine".spec_bytes(), idec(v as int)), ("w:firstLineChars".spec_bytes(), "0".spec_bytes())];
            if v == 0 {
                b + seq![("w:hanging".spec_bytes(), "0".spec_bytes()), ("w:hangingChars".spec_bytes(), "0".spec_bytes())]
            } else {
                b
            }
        },
        None => seq![],
    };
    match p.indent_left_tw {
        Some(v) => a1 + seq![("w:left".spec_bytes(), idec(v as int)), ("w:leftChars".spec_bytes(), "0".spec_bytes())],
        None => a1,
    }
}

/// The content of a new `w:pPr` for a paragraph format: `w:spacing`,
/// `w:ind`, `w:jc`, each only when it has something.
pub open spec fn spec_fresh_ppr(p: ParaFormat) -> Seq<u8> {
    (if fresh_spacing(p).len() > 0 {
        spec_build_tag("spacing".spec_bytes(), fresh_spacing(p))
    } else {
        seq![]
    }) + (if fresh_ind(p).len() > 0 {
        spec_build_tag("ind".spec_bytes(), fresh_ind(p))
    } else {
        seq![]
    }) + match p.align {
        Some(v) => val_tag("jc".spec_bytes(), v@),
        None => seq![],
    }
}

fn pair(k: &str, v: &[u8]) -> (r: (Vec<u8>, Vec<u8>))
    ensures
        r.0@ == k.spec_bytes(),
        r.1@ == v@,
{
    (str_bytes(k), slice_vec(v, 0, v.len()))
}

/// The content of a new `w:pPr`; see [`spec_fresh_ppr`].
pub fn fresh_ppr_inner(p: &ParaFormat) -> (r: Vec<u8>)
    ensures
        r@ == spec_fresh_ppr(*p),
{
    let mut inner: Vec<u8> = Vec::new();
    let mut attrs: Vec<(Vec<u8>, Vec<u8>)> = Vec::new();
    match p.line {
        Some(v) => {
            let d = dec_i64(v);
            attrs.push(pair("w:line", d.as_slice()));
            attrs.push(pair("w:lineRule", "auto".as_bytes()));
        },
        None => {},
    }
    match p.space_before {
        Some(v) => {
            let d = dec_i64(v);
            attrs.push(pair("w:before", d.as_slice()));
        },
        None => {},
    }
    match p.space_after {
        Some(v) => {
            let d = dec_i64(v);
            attrs.push(pair("w:after", d.as_slice()));
        },
        None => {},
    }
    assert(attrs_view(attrs@) =~= fresh_spacing(*p));
    if attrs.len() > 0 {
        let t = build_tag("spacing".as_bytes(), &attrs);
        push_bytes(&mut inner, t.as_slice());
    }
    let ghost i1 = inner@;
    let mut ind: Vec<(Vec<u8>, Vec<u8>)> = Vec::new();
    match p.indent_first_line_tw {
        Some(v) => {
            let d = dec_i64(v as i64);
            ind.push(pair("w:firstLine", d.as_slice()));
            ind.push(pair("w:firstLineChars", "0".as_bytes()));
            if v == 0 {
                ind.push(pair("w:hanging", "0".as_bytes()));
                ind.push(pair("w:hangingChars", "0".as_bytes()));
            }
        },
        None => {},
    }
    match p.indent_left_tw {
        Some(v) => {
            let d = dec_i64(v as i64);
            ind.push(pair("w:left", d.as_slice()));
            ind.push(pair("w:leftChars", "0".as_bytes()));
        },
        None => {},
    }
    assert(attrs_view(ind@) =~= fresh_ind(*p));
    if ind.len() > 0 {
        let t = build_tag("ind".as_bytes(), &ind);
        push_bytes(&mut inner, t.as_slice());
    }
    match &p.align {
        Some(v) => {
            let t = val_tag_of("jc".as_bytes(), v.as_slice());
            push_bytes(&mut inner, t.as_slice());
        },
        None => {},
    }
    proof {
        let s1 = if fresh_spacing(*p).len() > 0 {
            spec_build_tag("spacing".spec_bytes(), fresh_spacing(*p))
        } else {
            seq![]
        };
        let s2 = if fresh_ind(*p).len() > 0 {
            spec_build_tag("ind".spec_bytes(), fresh_ind(*p))
        } else {
            seq![]
        };
        let s3 = match &p.align {
            Some(v) => val_tag("jc".spec_bytes(), v@),
            None => seq![],
        };
        assert(inner@ =~= s1 + s2 + s3);
    }
    inner
}

/// A paragraph with a format applied to its `w:pPr` (one created after the
/// opening tag when missing, a self-closed one written out); the rest kept.
/// `None` for malformed markup.
pub open spec fn spec_reformat_ppr(b: Seq<u8>, p: ParaFormat) -> Option<Seq<u8>> {
    match ppr_at(b) {
        None => match find_byte(b, 62, 0) {
            None => None,
            Some(g) => if g > 0 && b[g - 1] == 47 {
                Some(b.subrange(0, g - 1) + ">".spec_bytes() + wrap_ppr(spec_fresh_ppr(p)) + "</w:p>".spec_bytes())
            } else {
                Some(splice(b, g + 1, g + 1, wrap_ppr(spec_fresh_ppr(p))))
            },
        },
        Some(s) => match find_byte(b, 62, s) {
            None => None,
            Some(g) => if b[g - 1] == 47 {
                Some(splice(b, s, g + 1, wrap_ppr(spec_fresh_ppr(p))))
            } else {
                match first_occ(b, "</w:pPr>".spec_bytes(), g + 1) {
                    None => None,
                    Some(c) => Some(splice(b, g + 1, c, spec_apply_para(b.subrange(g + 1, c), p))),
                }
            },
        },
    }
}

/// Applies a paragraph format to a paragraph; see [`spec_reformat_ppr`].
pub fn reformat_ppr(block_xml: &[u8], p: &ParaFormat) -> (r: Option<Vec<u8>>)
    ensures
        match spec_reformat_ppr(block_xml@, *p) {
            Some(v) => r matches Some(x) && x@ == v,
            None => r is None,
        },
{
    let b = block_xml;
    match find_container(b, "<w:pPr".as_bytes()) {
        None => {
            proof {
                lemma_find_byte(b@, 62, 0);
            }
            let g = match find_byte_from(b, 62, 0) {
                Some(g) => g,
                None => return None,
            };
            let fresh = fresh_ppr_inner(p);
            let w = wrap_ppr_of(fresh.as_slice());
            if g > 0 && b[g - 1] == 47 {
                let mut o = slice_vec(b, 0, g - 1);
                push_str(&mut o, ">");
                push_bytes(&mut o, w.as_slice());
                push_str(&mut o, "</w:p>");
                Some(o)
            } else {
                Some(splice_vec(b, g + 1, g + 1, w.as_slice()))
            }
        },
        Some(s) => {
            proof {
                lemma_find_byte(b@, 62, s as int);
                reveal_strlit("<w:pPr");
                vstd::utf8::is_ascii_chars_encode_utf8("<w:pPr"@);
            }
            assert(b@.subrange(s as int, s + "<w:pPr".spec_bytes().len())[0] == "<w:pPr".spec_bytes()[0]);
            let g = match find_byte_from(b, 62, s) {
                Some(g) => g,
                None => return None,
            };
            assert(g > s);
            if b[g - 1] == 47 {
                let fresh = fresh_ppr_inner(p);
                let w = wrap_ppr_of(fresh.as_slice());
                return Some(splice_vec(b, s, g + 1, w.as_slice()));
            }
            let c = match find_occ(b, "</w:pPr>".as_bytes(), g + 1) {
                Some(c) => c,
                None => return None,
            };
            let inner = slice_vec(b, g + 1, c);
            let ni = apply_para_formats(inner.as_slice(), p);
            Some(splice_vec(b, g + 1, c, ni.as_slice()))
        },
    }
}

/// `tag_true` when `v`, else `tag_false`.
pub open spec fn pick(v: bool, t: Seq<u8>, f: Seq<u8>) -> Seq<u8> {
    if v {
        t
    } else {
        f
    }
}

/// The content of a `w:rPr` with a character format applied: bold and
/// italic with their complex-script twins, size with its twin, colour, and
/// `w:rFonts` merged; each put in schema order when missing.
pub open spec fn spec_apply_char(inner: Seq<u8>, c: CharFormat) -> Seq<u8> {
    let end = "</w:rPr>".spec_bytes();
    let o1 = match c.bold {
        Some(v) => spec_upsert(spec_upsert(inner, "b".spec_bytes(), pick(v, "<w:b/>".spec_bytes(),
            "<w:b w:val=\"0\"/>".spec_bytes()), seq!["i", "color", "sz", "u"], end), "bCs".spec_bytes(), pick(v,
            "<w:bCs/>".spec_bytes(), "<w:bCs w:val=\"0\"/>".spec_bytes()), seq!["i", "color", "sz", "u"], end),
        None => inner,
    };
    let o2 = match c.italic {
        Some(v) => spec_upsert(spec_upsert(o1, "i".spec_bytes(), pick(v, "<w:i/>".spec_bytes(),
            "<w:i w:val=\"0\"/>".spec_bytes()), seq!["color", "sz", "u"], end), "iCs".spec_bytes(), pick(v,
            "<w:iCs/>".spec_bytes(), "<w:iCs w:val=\"0\"/>".spec_bytes()), seq!["color", "sz", "u"], end),
        None => o1,
    };
    let o3 = match c.size_half_pt {
        Some(h) => spec_upsert(spec_upsert(o2, "sz".spec_bytes(), val_tag("sz".spec_bytes(), idec(h as int)), seq![
            "szCs", "highlight", "u"], end), "szCs".spec_bytes(), val_tag("szCs".spec_bytes(), idec(h as int)),
            seq!["highlight", "u"], end),
        None => o2,
    };
    let o4 = match c.color {
        Some(v) => spec_upsert(o3, "color".spec_bytes(), val_tag("color".spec_bytes(), v@), seq!["sz", "u"], end),
        None => o3,
    };
    match c.font {
        Some(v) => spec_upsert(o4, "rFonts".spec_bytes(), spec_build_tag("rFonts".spec_bytes(), spec_attr_set(
            spec_attr_set(spec_attr_set(existing_attrs(o4, "rFonts".spec_bytes()), "w:ascii".spec_bytes(), v@),
            "w:hAnsi".spec_bytes(), v@), "w:eastAsia".spec_bytes(), v@)), seq!["b", "i", "color", "sz", "u"], end),
        None => o4,
    }
}

/// Applies a character format to the content of a `w:rPr`; see [`spec_apply_char`].
pub fn apply_char_formats(rpr_inner: &[u8], c: &CharFormat) -> (r: Vec<u8>)
    ensures
        r@ == spec_apply_char(rpr_inner@, *c),
{
    let mut out = slice_vec(rpr_inner, 0, rpr_inner.len());
    assert(out@ =~= rpr_inner@);
    let end = str_bytes("</w:rPr>");
    match c.bold {
        Some(v) => {
            let t = if v {
                str_bytes("<w:b/>")
            } else {
                str_bytes("<w:b w:val=\"0\"/>")
            };
            let later = vec!["i", "color", "sz", "u"];
            out = upsert_element(out.as_slice(), "b".as_bytes(), t.as_slice(), &later, end.as_slice());
            let t2 = if v {
                str_bytes("<w:bCs/>")
            } else {
                str_bytes("<w:bCs w:val=\"0\"/>")
            };
            out = upsert_element(out.as_slice(), "bCs".as_bytes(), t2.as_slice(), &later, end.as_slice());
        },
        None => {},
    }
    match c.italic {
        Some(v) => {
            let t = if v {
                str_bytes("<w:i/>")
            } else {
                str_bytes("<w:i w:val=\"0\"/>")
            };
            let later = vec!["color", "sz", "u"];
            out = upsert_element(out.as_slice(), "i".as_bytes(), t.as_slice(), &later, end.as_slice());
            let t2 = if v {
                str_bytes("<w:iCs/>")
            } else {
                str_bytes("<w:iCs w:val=\"0\"/>")
            };
            out = upsert_element(out.as_slice(), "iCs".as_bytes(), t2.as_slice(), &later, end.as_slice());
        },
        None => {},
    }
    match c.size_half_pt {
        Some(h) => {
            let d = dec_i64(h);
            let t = val_tag_of("sz".as_bytes(), d.as_slice());
            let later = vec!["szCs", "highlight", "u"];
            out = upsert_element(out.as_slice(), "sz".as_bytes(), t.as_slice(), &later, end.as_slice());
            let t2 = val_tag_of("szCs".as_bytes(), d.as_slice());
            let later2 = vec!["highlight", "u"];
            out = upsert_element(out.as_slice(), "szCs".as_bytes(), t2.as_slice(), &later2, end.as_slice());
        },
        None => {},
    }
    match &c.color {
        Some(v) => {
            let t = val_tag_of("color".as_bytes(), v.as_slice());
            let later = vec!["sz", "u"];
            out = upsert_element(out.as_slice(), "color".as_bytes(), t.as_slice(), &later, end.as_slice());
        },
        None => {},
    }
    match &c.font {
        Some(v) => {
            let mut attrs = existing_attrs_of(out.as_slice(), "rFonts".as_bytes());
            attr_set(&mut attrs, "w:ascii", v.as_slice());
            attr_set(&mut attrs, "w:hAnsi", v.as_slice());
            attr_set(&mut attrs, "w:eastAsia", v.as_slice());
            let t = build_tag("rFonts".as_bytes(), &attrs);
            let later = vec!["b", "i", "color", "sz", "u"];
            out = upsert_element(out.as_slice(), "rFonts".as_bytes(), t.as_slice(), &later, end.as_slice());
        },
        None => {},
    }
    out
}

/// Where the runs of `b` start from `from` on: each `<w:r>` or `<w:r `.
pub open spec fn run_starts_from(b: Seq<u8>, from: int) -> Seq<int>
    decreases b.len() + 1 - from,
{
    if from < 0 || from > b.len() {
        seq![]
    } else {
        let a = first_occ(b, "<w:r>".spec_bytes(), from);
        let c = first_occ(b, "<w:r ".spec_bytes(), from);
        let hit: Option<int> = match (a, c) {
            (Some(x), Some(y)) => Some(if x < y {
                x
            } else {
                y
            }),
            (Some(x), None) => Some(x),
            (None, Some(y)) => Some(y),
            (None, None) => None,
        };
        match hit {
            None => seq![],
            Some(pos) => {
                proof {
                    crate::bytes_util::lemma_first_occ_range(b, "<w:r>".spec_bytes(), from);
                    crate::bytes_util::lemma_first_occ_range(b, "<w:r ".spec_bytes(), from);
                    reveal_strlit("<w:r>");
                    vstd::utf8::is_ascii_chars_encode_utf8("<w:r>"@);
                    reveal_strlit("<w:r ");
                    vstd::utf8::is_ascii_chars_encode_utf8("<w:r "@);
                }
                seq![pos] + run_starts_from(b, pos + 5)
            },
        }
    }
}

/// One run's formatting: its `w:rPr` content formatted, or a new `w:rPr`
/// made when it has none; a run whose `w:rPr` carries attributes or is
/// self-closed is left alone.
pub open spec fn run_step(out: Seq<u8>, rs: int, c: CharFormat) -> Option<Seq<u8>> {
    match find_byte(out, 62, rs) {
        None => None,
        Some(g) => {
            let oe = g + 1;
            if has_at(out, oe, "<w:rPr>".spec_bytes()) {
                let close = oe + "<w:rPr>".spec_bytes().len();
                match first_occ(out, "</w:rPr>".spec_bytes(), close) {
                    None => None,
                    Some(ie) => Some(splice(out, close, ie, spec_apply_char(out.subrange(close, ie), c))),
                }
            } else if has_at(out, oe, "<w:rPr ".spec_bytes()) || has_at(out, oe, "<w:rPr/".spec_bytes()) {
                Some(out)
            } else {
                let inner = spec_apply_char(seq![], c);
                if inner.len() > 0 {
                    Some(splice(out, oe, oe, "<w:rPr>".spec_bytes() + inner + "</w:rPr>".spec_bytes()))
                } else {
                    Some(out)
                }
            }
        },
    }
}

/// The runs at `starts[..k]` formatted, last first.
pub open spec fn runs_fold(out: Seq<u8>, starts: Seq<int>, k: int, c: CharFormat) -> Option<Seq<u8>>
    decreases k,
{
    if k <= 0 || k > starts.len() {
        Some(out)
    } else {
        match run_step(out, starts[k - 1], c) {
            None => None,
            Some(o) => runs_fold(o, starts, k - 1, c),
        }
    }
}

/// A block with a character format applied to every run (those inside
/// hyperlinks too).
pub open spec fn spec_reformat_runs(b: Seq<u8>, c: CharFormat) -> Option<Seq<u8>> {
    let starts = run_starts_from(b, 0);
    runs_fold(b, starts, starts.len() as int, c)
}

fn run_step_exec(out: &[u8], rs: usize, c: &CharFormat) -> (r: Option<Vec<u8>>)
    ensures
        match run_step(out@, rs as int, *c) {
            Some(v) => r matches Some(x) && x@ == v,
            None => r is None,
        },
{
    proof {
        lemma_find_byte(out@, 62, rs as int);
    }
    let n = out.len();
    let g = match find_byte_from(out, 62, rs) {
        Some(g) => g,
        None => return None,
    };
    let oe = g + 1;
    if crate::bytes_util::matches_at(out, oe, "<w:rPr>".as_bytes()) {
        let ol = "<w:rPr>".as_bytes().len();
        let close = oe + ol;
        match find_occ(out, "</w:rPr>".as_bytes(), close) {
            None => None,
            Some(ie) => {
                let inner = slice_vec(out, close, ie);
                let ni = apply_char_formats(inner.as_slice(), c);
                Some(splice_vec(out, close, ie, ni.as_slice()))
            },
        }
    } else if crate::bytes_util::matches_at(out, oe, "<w:rPr ".as_bytes()) || crate::bytes_util::matches_at(out, oe,
        "<w:rPr/".as_bytes()) {
        Some(slice_vec(out, 0, n))
    } else {
        let empty: Vec<u8> = Vec::new();
        let inner = apply_char_formats(empty.as_slice(), c);
        assert(empty@ =~= seq![]);
        if inner.len() > 0 {
            let mut fresh = str_bytes("<w:rPr>");
            push_bytes(&mut fresh, inner.as_slice());
            push_str(&mut fresh, "</w:rPr>");
            Some(splice_vec(out, oe, oe, fresh.as_slice()))
        } else {
            Some(slice_vec(out, 0, n))
        }
    }
}

fn run_starts(b: &[u8]) -> (r: Vec<usize>)
    ensures
        r@.map_values(|x: usize| x as int) == run_starts_from(b@, 0),
{
    let n = b.len();
    let mut out: Vec<usize> = Vec::new();
    let mut from: usize = 0;
    proof {
        reveal_strlit("<w:r>");
        vstd::utf8::is_ascii_chars_encode_utf8("<w:r>"@);
        reveal_strlit("<w:r ");
        vstd::utf8::is_ascii_chars_encode_utf8("<w:r "@);
    }
    loop
        invariant
            from <= n == b@.len(),
            "<w:r>".spec_bytes().len() == 5,
            "<w:r ".spec_bytes().len() == 5,
            out@.map_values(|x: usize| x as int) + run_starts_from(b@, from as int) == run_starts_from(b@, 0),
        decreases n + 1 - from,
    {
        let a = find_occ(b, "<w:r>".as_bytes(), from);
        let c = find_occ(b, "<w:r ".as_bytes(), from);
        let hit = match (a, c) {
            (Some(x), Some(y)) => Some(if x < y {
                x
            } else {
                y
            }),
            (Some(x), None) => Some(x),
            (None, Some(y)) => Some(y),
            (None, None) => None,
        };
        match hit {
            None => {
                assert(out@.map_values(|x: usize| x as int) =~= run_starts_from(b@, 0));
                return out;
            },
            Some(pos) => {
                let ghost o0 = out@.map_values(|x: usize| x as int);
                out.push(pos);
                assert(out@.map_values(|x: usize| x as int) =~= o0.push(pos as int));
                if pos + 5 > n {
                    assert(run_starts_from(b@, pos + 5) =~= seq![]);
                    assert(out@.map_values(|x: usize| x as int) =~= run_starts_from(b@, 0));
                    return out;
                }
                from = pos + 5;
                assert(out@.map_values(|x: usize| x as int) + run_starts_from(b@, from as int) =~= run_starts_from(b@, 0));
            },
        }
    }
}

/// Applies a character format to every run of a block; see [`spec_reformat_runs`].
pub fn reformat_runs(block_xml: &[u8], c: &CharFormat) -> (r: Option<Vec<u8>>)
    ensures
        match spec_reformat_runs(block_xml@, *c) {
            Some(v) => r matches Some(x) && x@ == v,
            None => r is None,
        },
{
    let starts = run_starts(block_xml);
    let ghost sv = starts@.map_values(|x: usize| x as int);
    let mut out = slice_vec(block_xml, 0, block_xml.len());
    assert(out@ =~= block_xml@);
    let mut k = starts.len();
    while k > 0
        invariant
            k <= starts@.len(),
            sv == starts@.map_values(|x: usize| x as int),
            sv == run_starts_from(block_xml@, 0),
            runs_fold(out@, sv, k as int, *c) == spec_reformat_runs(block_xml@, *c),
        decreases k,
    {
        assert(sv[k - 1] == starts@[k - 1] as int);
        match run_step_exec(out.as_slice(), starts[k - 1], c) {
            Some(o) => {
                out = o;
            },
            None => return None,
        }
        k = k - 1;
    }
    Some(out)
}

/// A new paragraph after an anchor block: with the style `style_id` when
/// given, else the anchor's `w:pPr` and (for a paragraph without revisions)
/// its first run's `w:rPr`; one run holding the text.
pub open spec fn spec_inserted_paragraph(anchor: Seq<u8>, anchor_is_table: bool, text: Seq<u8>,
    style_id: Option<Seq<u8>>, anchor_has_revision: bool) -> Seq<u8> {
    let (ppr, rpr) = match style_id {
        Some(id) => (wrap_ppr(pstyle_tag(id)), seq![]),
        None => (spec_slice_ppr(anchor), if anchor_has_revision || anchor_is_table {
            seq![]
        } else {
            spec_slice_first_run_rpr(anchor)
        }),
    };
    "<w:p>".spec_bytes() + ppr + spec_run_xml(rpr, text) + "</w:p>".spec_bytes()
}

/// The style ID a style reference gives: the reference itself when it is
/// a style ID, else the ID of the first style shown under that name.
pub open spec fn spec_style_id_of(ss: Seq<crate::styles::StyleV>, n: Seq<u8>) -> Option<Seq<u8>> {
    match crate::styles::index_of_id(ss, n, 0) {
        Some(_) => Some(n),
        None => match crate::styles::index_of_name(ss, n, 0) {
            Some(j) => Some(ss[j].id),
            None => None,
        },
    }
}

/// Builds a paragraph to insert after the block at `anchor`; the style
/// given by name or ID is looked up in `styles` (an unknown one counts as
/// none); see [`spec_inserted_paragraph`].
pub fn build_inserted_paragraph(
    xml: &[u8],
    anchor: BlockSpan,
    text: &[u8],
    style: Option<&[u8]>,
    styles: &crate::styles::Stylesheet,
    anchor_has_revision: bool,
) -> (r: Vec<u8>)
    requires
        anchor.start <= anchor.end <= xml@.len(),
    ensures
        r@ == spec_inserted_paragraph(xml@.subrange(anchor.start as int, anchor.end as int), anchor.is_table, text@,
            match style {
                Some(n) => spec_style_id_of(styles.view_styles(), n@),
                None => None,
            }, anchor_has_revision),
{
    let a = slice_vec(xml, anchor.start, anchor.end);
    let sid = match style {
        Some(n) => styles.id_of(n),
        None => None,
    };
    let mut out = str_bytes("<w:p>");
    match &sid {
        Some(id) => {
            let mut t = str_bytes("<w:pStyle w:val=\"");
            push_bytes(&mut t, id.as_slice());
            push_str(&mut t, "\"/>");
            let w = wrap_ppr_of(t.as_slice());
            push_bytes(&mut out, w.as_slice());
            let empty: Vec<u8> = Vec::new();
            let run = run_xml(empty.as_slice(), text);
            assert(empty@ =~= seq![]);
            push_bytes(&mut out, run.as_slice());
        },
        None => {
            let ppr = slice_ppr(a.as_slice());
            push_bytes(&mut out, ppr.as_slice());
            let rpr = if anchor_has_revision || anchor.is_table {
                Vec::new()
            } else {
                slice_first_run_rpr(a.as_slice())
            };
            assert(rpr@ == (if anchor_has_revision || anchor.is_table {
                seq![]
            } else {
                spec_slice_first_run_rpr(a@)
            }));
            let run = run_xml(rpr.as_slice(), text);
            push_bytes(&mut out, run.as_slice());
        },
    }
    push_str(&mut out, "</w:p>");
    out
}

// ---------------------------------------------------------------------------
// Text helpers
// ---------------------------------------------------------------------------

/// At most `max_chars` characters of `s`, as a string.
pub fn truncate(s: &[u8], max_chars: usize) -> (r: String)
    ensures
        vstd::utf8::valid_utf8(s@) && char_count(s@) <= max_chars ==> r@ == vstd::utf8::decode_utf8(s@),
{
    let t = truncate_chars(s, max_chars);
    bytes_to_string(t.as_slice())
}

/// Bytes that are ASCII white space (space, tab, line feed, form feed, carriage return).
pub open spec fn all_ascii_ws(t: Seq<u8>) -> bool {
    forall|i: int| 0 <= i < t.len() ==> (t[i] == 32 || t[i] == 9 || t[i] == 10 || t[i] == 12 || t[i] == 13)
}

fn is_ascii_ws_all(t: &[u8]) -> (r: bool)
    ensures
        r == all_ascii_ws(t@),
{
    let mut i: usize = 0;
    while i < t.len()
        invariant
            i <= t@.len(),
            forall|k: int| 0 <= k < i ==> (t@[k] == 32 || t@[k] == 9 || t@[k] == 10 || t@[k] == 12 || t@[k] == 13),
        decreases t@.len() - i,
    {
        let b = t[i];
        if !(b == 32 || b == 9 || b == 10 || b == 12 || b == 13) {
            return false;
        }
        i = i + 1;
    }
    true
}

fn fragment_error(m: Vec<u8>) -> (e: DocError)
    ensures
        e.kind == ErrorKind::Validation,
{
    let mut msg = str_bytes("片段校验失败: ");
    push_bytes(&mut msg, m.as_slice());
    DocError::validation(msg)
}

fn wrong_root(element: &[u8], actual: &[u8], source_hint: &str) -> (e: DocError)
    ensures
        e.kind == ErrorKind::Validation,
{
    let mut m = str_bytes("根元素必须是 <w:");
    push_bytes(&mut m, element);
    push_str(&mut m, ">（与 element 参数一致），实际是 <");
    push_bytes(&mut m, actual);
    push_str(&mut m, ">。请从 inspect_docx projection=");
    push_str(&mut m, source_hint);
    push_str(&mut m, " 看到的原文复制后修改。");
    fragment_error(m)
}

/// Where the check of a fragment stands: the depth inside its root, whether
/// the root was seen, whether the root has been closed.
pub struct FragWalk {
    pub depth: int,
    pub root_seen: bool,
    pub trailing: bool,
}

/// The check of the fragment's tokens from the `k`-th on: one root named
/// `expected`, nothing but white space outside it, every tag closed.
pub open spec fn frag_from(evs: Seq<(TokenV, nat)>, k: int, w: FragWalk, expected: Seq<u8>) -> bool
    decreases evs.len() - k,
{
    if k < 0 || k >= evs.len() {
        false
    } else {
        match evs[k].0 {
            TokenV::Eof => w.root_seen && w.depth == 0,
            TokenV::Error => false,
            TokenV::Start(n) => if w.depth == 0 && (w.trailing || w.root_seen || n != expected) {
                false
            } else {
                frag_from(evs, k + 1, FragWalk { depth: w.depth + 1, root_seen: w.root_seen || w.depth == 0, ..w }, expected)
            },
            TokenV::Empty(n) => if w.depth == 0 && (w.trailing || w.root_seen || n != expected) {
                false
            } else {
                frag_from(evs, k + 1, FragWalk { root_seen: w.root_seen || w.depth == 0, ..w }, expected)
            },
            TokenV::End(_) => frag_from(
                evs,
                k + 1,
                FragWalk { depth: w.depth - 1, trailing: w.trailing || w.depth - 1 == 0, ..w },
                expected,
            ),
            TokenV::Text(t) => if !all_ascii_ws(t) && (w.depth == 0 || w.trailing) {
                false
            } else {
                frag_from(evs, k + 1, w, expected)
            },
            _ => frag_from(evs, k + 1, w, expected),
        }
    }
}

/// Whether an element fragment is accepted: no `xmlns`, no `w:sectPr` or
/// `w:pPrChange`, and, read with text trimmed, exactly one root element
/// `w:element`, closed, with nothing but white space around it.
pub open spec fn fragment_ok(element: Seq<u8>, xml: Seq<u8>) -> bool {
    &&& !occurs(xml, "xmlns".spec_bytes())
    &&& !occurs(xml, "<w:sectPr".spec_bytes())
    &&& !occurs(xml, "<w:pPrChange".spec_bytes())
    &&& frag_from(xml_events(xml, true), 0, FragWalk { depth: 0, root_seen: false, trailing: false }, seq![119u8, 58u8] + element)
}

/// Checks an element fragment handed in for a property edit: no namespace
/// declaration, no `sectPr` or `pPrChange` inside, one root named
/// `w:{element}`, well-formed, nothing but white space after the root.
/// `source_hint` names the projection the fragment should be copied from.
pub fn validate_fragment(element: &[u8], xml: &[u8], source_hint: &str) -> (r: DocResult<()>)
    ensures
        r matches Err(e) ==> e.kind == ErrorKind::Validation,
        occurs(xml@, "xmlns".spec_bytes()) ==> r is Err,
        occurs(xml@, "<w:sectPr".spec_bytes()) ==> r is Err,
        occurs(xml@, "<w:pPrChange".spec_bytes()) ==> r is Err,
        r is Ok <==> fragment_ok(element@, xml@),
{
    if contains(xml, "xmlns".as_bytes()) {
        return Err(fragment_error(str_bytes("不得携带 xmlns 声明（w 前缀已在文档根声明）。请去掉 xmlns 属性。")));
    }
    if contains(xml, "<w:sectPr".as_bytes()) || contains(xml, "<w:pPrChange".as_bytes()) {
        return Err(fragment_error(str_bytes("不得包含 sectPr/pPrChange（分节符载体/修订记录，受保护）。")));
    }
    let mut expected: Vec<u8> = Vec::new();
    expected.push(119u8);
    expected.push(58u8);
    push_bytes(&mut expected, element);
    assert(expected@ =~= seq![119u8, 58u8] + element@);
    let mut sc = scan_open(xml, true);
    let ghost evs = xml_events(xml@, true);
    let mut depth: i128 = 0;
    let mut root_seen = false;
    let mut trailing = false;
    loop
        invariant_except_break
            sc.count() < evs.len(),
            frag_from(evs, sc.count() as int, FragWalk { depth: depth as int, root_seen, trailing }, expected@)
                == frag_from(evs, 0, FragWalk { depth: 0, root_seen: false, trailing: false }, expected@),
        invariant
            sc.src() == xml@,
            sc.trim(),
            evs == xml_events(xml@, true),
            sc.len() == xml@.len(),
            sc.pos() <= xml@.len(),
            -(sc.pos() as int) <= depth <= sc.pos(),
            expected@ == seq![119u8, 58u8] + element@,
            !occurs(xml@, "xmlns".spec_bytes()),
            !occurs(xml@, "<w:sectPr".spec_bytes()),
            !occurs(xml@, "<w:pPrChange".spec_bytes()),
        ensures
            frag_from(evs, 0, FragWalk { depth: 0, root_seen: false, trailing: false }, expected@) == (root_seen && depth
                == 0),
        decreases xml@.len() - sc.pos(),
    {
        let (tok, _st, _en) = scan_next(&mut sc);
        match tok {
            XmlToken::Start(name) => {
                if depth == 0 {
                    if trailing || root_seen {
                        return Err(fragment_error(str_bytes("必须恰好一个根元素（不得平铺多个）。")));
                    }
                    root_seen = true;
                    if !bytes_eq(name.as_slice(), expected.as_slice()) {
                        return Err(wrong_root(element, name.as_slice(), source_hint));
                    }
                }
                depth = depth + 1;
            },
            XmlToken::Empty(name) => {
                if depth == 0 {
                    if trailing || root_seen {
                        return Err(fragment_error(str_bytes("必须恰好一个根元素（不得平铺多个）。")));
                    }
                    root_seen = true;
                    if !bytes_eq(name.as_slice(), expected.as_slice()) {
                        return Err(wrong_root(element, name.as_slice(), source_hint));
                    }
                }
            },
            XmlToken::End(_) => {
                depth = depth - 1;
                if depth == 0 {
                    trailing = true;
                }
            },
            XmlToken::Text(t) => {
                if !is_ascii_ws_all(t.as_slice()) && (depth == 0 || trailing) {
                    return Err(fragment_error(str_bytes("根元素闭合后不得再有文本。")));
                }
            },
            XmlToken::Eof => {
                break;
            },
            XmlToken::Error(msg) => {
                let mut m = str_bytes("XML 不合法（");
                push_bytes(&mut m, msg.as_slice());
                push_str(&mut m, "）。请从 inspect_docx projection=");
                push_str(&mut m, source_hint);
                push_str(&mut m, " 看到的原文复制后修改，不要凭记忆手写。");
                return Err(fragment_error(m));
            },
            _ => {},
        }
    }
    if !root_seen {
        let mut m = str_bytes("缺少根元素 <w:");
        push_bytes(&mut m, element);
        push_str(&mut m, ">。");
        return Err(fragment_error(m));
    }
    if depth != 0 {
        return Err(fragment_error(str_bytes("元素未闭合（标签不配对）。")));
    }
    Ok(())
}

} // verus!
