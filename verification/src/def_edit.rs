use vstd::prelude::*;
use vstd::string::StringSliceAdditionalSpecFns;
use crate::bytes_util::{joined, views, str_views, push_joined, push_joined_strs, splice, splice_vec, push_bytes, push_str, str_bytes, slice_vec, contains, occurs, has_at, bytes_eq, eq_str, ends_with, ends_with_spec, rfind, trim, trimmed, push_usize, usize_dec};
use crate::error::{DocError, DocResult, ErrorKind, bytes_to_string};
use crate::xml_scan::{root_children, children_ok, Child, child_views, child_view, spec_root_children};
use crate::styles::{Stylesheet, StyleV, count_named, index_of_name, index_of_id};
use crate::docx_edit::{spec_ppr_elements, spec_tblpr_elements, index_in, index_in_exec, lemma_index_in};
use crate::docx_edit::{AppliedOp, ppr_elements, tblpr_elements, listed, position_in, attr_value,
    validate_fragment, truncate, find_byte, find_byte_from, lemma_find_byte};

verus! {

// ---------------------------------------------------------------------------
// Element lists (schema order)
// ---------------------------------------------------------------------------

/// The names of [`style_elements`].
pub open spec fn spec_style_elements() -> Seq<&'static str> {
    seq![
        "name", "aliases", "basedOn", "next", "link", "autoRedefine", "hidden",
        "uiPriority", "semiHidden", "unhideWhenUsed", "qFormat", "locked",
        "personal", "personalCompose", "personalReply", "rsid",
        "pPr", "rPr", "tblPr", "trPr", "tcPr", "tblStylePr",
    ]
}

/// The children of `w:style`, in schema order (`sectPr` is left out on purpose).
pub fn style_elements() -> (r: Vec<&'static str>)
    ensures
        r@ == spec_style_elements(),
{
    vec![
        "name", "aliases", "basedOn", "next", "link", "autoRedefine", "hidden",
        "uiPriority", "semiHidden", "unhideWhenUsed", "qFormat", "locked",
        "personal", "personalCompose", "personalReply", "rsid",
        "pPr", "rPr", "tblPr", "trPr", "tcPr", "tblStylePr",
    ]
}

/// The names of [`rpr_elements`].
pub open spec fn spec_rpr_elements() -> Seq<&'static str> {
    seq![
        "rStyle", "rFonts", "b", "bCs", "i", "iCs", "caps", "smallCaps", "strike",
        "dstrike", "outline", "shadow", "emboss", "imprint", "noProof",
        "snapToGrid", "vanish", "webHidden", "color", "spacing", "w", "kern",
        "position", "sz", "szCs", "highlight", "u", "effect", "bdr", "shd",
        "fitText", "vertAlign", "rtl", "cs", "em", "lang", "eastAsianLayout",
        "specVanish", "oMath",
    ]
}

/// The children of `w:rPr`, in schema order.
pub fn rpr_elements() -> (r: Vec<&'static str>)
    ensures
        r@ == spec_rpr_elements(),
{
    vec![
        "rStyle", "rFonts", "b", "bCs", "i", "iCs", "caps", "smallCaps", "strike",
        "dstrike", "outline", "shadow", "emboss", "imprint", "noProof",
        "snapToGrid", "vanish", "webHidden", "color", "spacing", "w", "kern",
        "position", "sz", "szCs", "highlight", "u", "effect", "bdr", "shd",
        "fitText", "vertAlign", "rtl", "cs", "em", "lang", "eastAsianLayout",
        "specVanish", "oMath",
    ]
}

/// The names of [`lvl_elements`].
pub open spec fn spec_lvl_elements() -> Seq<&'static str> {
    seq![
        "start", "numFmt", "lvlRestart", "pStyle", "isLgl", "suff", "lvlText",
        "lvlPicBulletId", "legacy", "lvlJc", "pPr", "rPr",
    ]
}

/// The children of `w:lvl`, in schema order.
pub fn lvl_elements() -> (r: Vec<&'static str>)
    ensures
        r@ == spec_lvl_elements(),
{
    vec![
        "start", "numFmt", "lvlRestart", "pStyle", "isLgl", "suff", "lvlText",
        "lvlPicBulletId", "legacy", "lvlJc", "pPr", "rPr",
    ]
}

/// The names of [`change_elements`].
pub open spec fn spec_change_elements() -> Seq<&'static str> {
    seq!["pPrChange", "rPrChange", "tblPrChange", "trPrChange", "tcPrChange"]
}

/// Revision records: a definition or a fragment holding one is refused.
pub fn change_elements() -> (r: Vec<&'static str>)
    ensures
        r@ == spec_change_elements(),
{
    vec!["pPrChange", "rPrChange", "tblPrChange", "trPrChange", "tcPrChange"]
}

// ---------------------------------------------------------------------------
// Operations
// ---------------------------------------------------------------------------

/// The four values of `w:style/@w:type`.
#[derive(Debug, Clone, Copy, PartialEq, Eq, Structural)]
pub enum StyleType {
    Paragraph,
    Character,
    Table,
    Numbering,
}

impl StyleType {
    /// The `w:type` value.
    pub fn as_str(self) -> (r: &'static str)
        ensures
            r@ == match self {
                StyleType::Paragraph => "paragraph"@,
                StyleType::Character => "character"@,
                StyleType::Table => "table"@,
                StyleType::Numbering => "numbering"@,
            },
    {
        match self {
            StyleType::Paragraph => "paragraph",
            StyleType::Character => "character",
            StyleType::Table => "table",
            StyleType::Numbering => "numbering",
        }
    }
}

/// Where a style element edit applies: a direct child of `w:style`, or a
/// child of its `pPr`, `rPr` or `tblPr`.
#[derive(Debug, Clone, Copy, PartialEq, Eq, Structural)]
pub enum StyleContainer {
    Style,
    PPr,
    RPr,
    TblPr,
}

impl StyleContainer {
    /// The tag name of the container (without the `w:` prefix).
    pub fn tag(self) -> (r: &'static str)
        ensures
            r@ == match self {
                StyleContainer::Style => "style"@,
                StyleContainer::PPr => "pPr"@,
                StyleContainer::RPr => "rPr"@,
                StyleContainer::TblPr => "tblPr"@,
            },
            r.spec_bytes() == container_tag(self),
    {
        match self {
            StyleContainer::Style => "style",
            StyleContainer::PPr => "pPr",
            StyleContainer::RPr => "rPr",
            StyleContainer::TblPr => "tblPr",
        }
    }

    /// The legal children of the container, in schema order.
    pub fn whitelist(self) -> (r: Vec<&'static str>)
        ensures
            r@ == container_list(self),
    {
        match self {
            StyleContainer::Style => style_elements(),
            StyleContainer::PPr => ppr_elements(),
            StyleContainer::RPr => rpr_elements(),
            StyleContainer::TblPr => tblpr_elements(),
        }
    }
}

/// An edit of `word/styles.xml` (a batch applies whole or not at all).
#[derive(Debug, Clone)]
pub enum StyleEditOp {
    /// A new style: type, name, `basedOn`, `qFormat`.
    CreateStyle {
        style_type: StyleType,
        name: String,
        /// Derived from the name without white space when absent.
        style_id: Option<String>,
        based_on: Option<String>,
    },
    /// An element edit inside a `w:style`.
    SetStyleElement {
        /// Display name or ID (a display name shared by several styles is refused).
        style: String,
        container: StyleContainer,
        element: String,
        /// `None` removes the element; `Some` replaces it or inserts it in schema order.
        xml: Option<String>,
    },
}

/// An edit of `word/numbering.xml` (a batch applies whole or not at all).
#[derive(Debug, Clone)]
pub enum NumberingEditOp {
    /// An element edit inside the `w:lvl` of an `abstractNum`.
    SetNumberingElement {
        num_id: u32,
        /// ilvl (0-8).
        level: u32,
        element: String,
        /// `None` removes the element; `Some` replaces it or inserts it in schema order.
        xml: Option<String>,
    },
}

// ---------------------------------------------------------------------------
// Locating by structure
// ---------------------------------------------------------------------------

/// The value of attribute `attr` on the opening tag of a child of `s`.
pub fn child_attr(s: &[u8], child: &Child, attr: &str) -> (r: Option<Vec<u8>>)
    requires
        child.start <= child.end <= s@.len(),
    ensures
        ({
            let attrs = crate::docx_edit::attrs_from(crate::docx_edit::tag_part(s@.subrange(child.start as int, child.end as int)));
            match r {
                Some(v) => exists|i: int| 0 <= i < attrs.len() && (#[trigger] attrs[i]) == (attr.spec_bytes(), v@),
                None => forall|i: int| 0 <= i < attrs.len() ==> (#[trigger] attrs[i]).0 != attr.spec_bytes(),
            }
        }),
        match r {
            Some(v) => crate::docx_edit::attr_of(s@.subrange(child.start as int, child.end as int), attr.spec_bytes()) == Some(v@),
            None => crate::docx_edit::attr_of(s@.subrange(child.start as int, child.end as int), attr.spec_bytes()) is None,
        },
{
    let el = slice_vec(s, child.start, child.end);
    attr_value(el.as_slice(), attr)
}

/// `<w:` followed by `name`.
pub open spec fn open_tag(name: Seq<u8>) -> Seq<u8> {
    seq![60u8, 119u8, 58u8] + name
}

/// `w:` followed by `name`.
pub open spec fn w_name(name: Seq<u8>) -> Seq<u8> {
    seq![119u8, 58u8] + name
}

fn w_name_of(name: &[u8]) -> (r: Vec<u8>)
    ensures
        r@ == w_name(name@),
{
    let mut v: Vec<u8> = Vec::new();
    v.push(119u8);
    v.push(58u8);
    push_bytes(&mut v, name);
    assert(v@ =~= w_name(name@));
    v
}

fn open_tag_of(name: &[u8]) -> (r: Vec<u8>)
    ensures
        r@ == open_tag(name@),
{
    let mut v: Vec<u8> = Vec::new();
    v.push(60u8);
    v.push(119u8);
    v.push(58u8);
    push_bytes(&mut v, name);
    assert(v@ =~= open_tag(name@));
    v
}

/// The first revision record whose opening tag occurs in `s`.
pub fn change_marker(s: &[u8]) -> (r: Option<&'static str>)
    ensures
        match r {
            Some(m) => listed(spec_change_elements(), m.spec_bytes()) && occurs(s@, open_tag(m.spec_bytes())),
            None => forall|i: int| 0 <= i < spec_change_elements().len() ==> !occurs(s@, open_tag((#[trigger] spec_change_elements()[i]).spec_bytes())),
        },
{
    let list = change_elements();
    let mut i: usize = 0;
    while i < list.len()
        invariant
            i <= list@.len(),
            list@ == spec_change_elements(),
            forall|k: int| 0 <= k < i ==> !occurs(s@, open_tag((#[trigger] list@[k]).spec_bytes())),
        decreases list@.len() - i,
    {
        let pat = open_tag_of(list[i].as_bytes());
        if contains(s, pat.as_slice()) {
            return Some(list[i]);
        }
        i = i + 1;
    }
    None
}

// ---------------------------------------------------------------------------
// Element surgery
// ---------------------------------------------------------------------------

/// The index of the first child from `k` on named `tag`.
pub open spec fn first_named(cs: Seq<Child>, tag: Seq<u8>, k: int) -> Option<int>
    decreases cs.len() - k,
{
    if k < 0 || k >= cs.len() {
        None
    } else if cs[k].name@ == tag {
        Some(k)
    } else {
        first_named(cs, tag, k + 1)
    }
}

proof fn lemma_first_named(cs: Seq<Child>, tag: Seq<u8>, k: int)
    requires
        0 <= k,
    ensures
        first_named(cs, tag, k) matches Some(j) ==> k <= j < cs.len() && cs[j].name@ == tag,
    decreases cs.len() - k,
{
    if k < cs.len() && cs[k].name@ != tag {
        lemma_first_named(cs, tag, k + 1);
    }
}

/// A name without its `w:` prefix.
pub open spec fn strip_w(n: Seq<u8>) -> Seq<u8> {
    if has_at(n, 0, seq![119u8, 58u8]) {
        n.subrange(2, n.len() as int)
    } else {
        n
    }
}

/// `n` comes after position `idx` in the schema order `list`.
pub open spec fn is_later(list: Seq<&'static str>, idx: int, n: Seq<u8>) -> bool {
    exists|j: int| idx < j < list.len() && (#[trigger] list[j]).spec_bytes() == n
}

/// The index of the first child from `k` on whose name comes after `idx` in `list`.
pub open spec fn first_later(cs: Seq<Child>, list: Seq<&'static str>, idx: int, k: int) -> Option<int>
    decreases cs.len() - k,
{
    if k < 0 || k >= cs.len() {
        None
    } else if is_later(list, idx, strip_w(cs[k].name@)) {
        Some(k)
    } else {
        first_later(cs, list, idx, k + 1)
    }
}

proof fn lemma_first_later(cs: Seq<Child>, list: Seq<&'static str>, idx: int, k: int)
    requires
        0 <= k,
    ensures
        first_later(cs, list, idx, k) matches Some(j) ==> k <= j < cs.len(),
    decreases cs.len() - k,
{
    if k < cs.len() && !is_later(list, idx, strip_w(cs[k].name@)) {
        lemma_first_later(cs, list, idx, k + 1);
    }
}

/// The index of the first byte of `s` from `k` on that ends a tag name
/// (space, tab, carriage return, line feed), or the length.
pub open spec fn name_end(s: Seq<u8>, k: int) -> int
    decreases s.len() - k,
{
    if k < 0 || k >= s.len() {
        s.len() as int
    } else if s[k] == 32 || s[k] == 9 || s[k] == 13 || s[k] == 10 {
        k
    } else {
        name_end(s, k + 1)
    }
}

/// A self-closing root element written as a pair of tags:
/// `<w:pPr a="b"/>` becomes `<w:pPr a="b"></w:pPr>`.
pub open spec fn expand_spec(s: Seq<u8>) -> Option<Seq<u8>> {
    match find_byte(s, 62, 0) {
        None => None,
        Some(gt) => if gt == 0 {
            None
        } else {
            let head = s.subrange(0, gt - 1);
            if head.len() == 0 || head[0] != 60 {
                None
            } else {
                let rest = head.subrange(1, head.len() as int);
                let name = rest.subrange(0, name_end(rest, 0));
                Some(head + seq![62u8, 60u8, 47u8] + name + seq![62u8])
            }
        },
    }
}


fn expand_self_closed_root(s: &[u8]) -> (r: Option<Vec<u8>>)
    ensures
        match expand_spec(s@) {
            Some(v) => r matches Some(x) && x@ == v,
            None => r is None,
        },
{
    proof {
        lemma_find_byte(s@, 62, 0);
    }
    let gt = match find_byte_from(s, 62, 0) {
        Some(g) => g,
        None => {
            return None;
        },
    };
    if gt == 0 {
        return None;
    }
    let head = slice_vec(s, 0, gt - 1);
    if head.len() == 0 || head[0] != 60 {
        return None;
    }
    let rest = slice_vec(head.as_slice(), 1, head.len());
    let mut k: usize = 0;
    while k < rest.len() && !(rest[k] == 32 || rest[k] == 9 || rest[k] == 13 || rest[k] == 10)
        invariant
            k <= rest@.len(),
            name_end(rest@, k as int) == name_end(rest@, 0),
        decreases rest@.len() - k,
    {
        k = k + 1;
    }
    let name = slice_vec(rest.as_slice(), 0, k);
    let mut out = slice_vec(head.as_slice(), 0, head.len());
    out.push(62u8);
    out.push(60u8);
    out.push(47u8);
    push_bytes(&mut out, name.as_slice());
    out.push(62u8);
    assert(out@ =~= head@ + seq![62u8, 60u8, 47u8] + name@ + seq![62u8]);
    Some(out)
}

/// The last position at or before `k` where `pat` occurs in `b`.
pub open spec fn last_from(b: Seq<u8>, pat: Seq<u8>, k: int) -> Option<int>
    decreases k + 1,
{
    if k < 0 {
        None
    } else if has_at(b, k, pat) {
        Some(k)
    } else {
        last_from(b, pat, k - 1)
    }
}

fn last_at(b: &[u8], pat: &[u8]) -> (r: Option<usize>)
    ensures
        match last_from(b@, pat@, b@.len() as int) {
            Some(e) => r matches Some(x) && x as int == e && x <= b@.len(),
            None => r is None,
        },
{
    let mut k: usize = b.len();
    loop
        invariant
            k <= b@.len(),
            last_from(b@, pat@, k as int) == last_from(b@, pat@, b@.len() as int),
        decreases k,
    {
        if crate::bytes_util::matches_at(b, k, pat) {
            return Some(k);
        }
        if k == 0 {
            return None;
        }
        k = k - 1;
    }
}

/// What an element edit makes of a parent whose direct children are `cs`:
/// the new parent and whether it changed. Removal cuts the first child
/// named `w:{element}` (no change without one); replacement puts the
/// fragment in its place; else the fragment is inserted before the first
/// child that comes later in schema order, or before the closing tag (a
/// self-closing parent is written as a pair first). `None`: the element is
/// not in `list`, or the parent has no closing tag.
pub open spec fn spec_set_child(
    parent: Seq<u8>,
    cs: Seq<Child>,
    element: Seq<u8>,
    frag: Option<Seq<u8>>,
    list: Seq<&'static str>,
) -> Option<(Seq<u8>, bool)> {
    let hit = first_named(cs, w_name(element), 0);
    match frag {
        None => match hit {
            None => Some((parent, false)),
            Some(h) => Some((splice(parent, cs[h].start as int, cs[h].end as int, seq![]), true)),
        },
        Some(f) => match hit {
            Some(h) => Some((splice(parent, cs[h].start as int, cs[h].end as int, f), true)),
            None => if !listed(list, element) {
                None
            } else {
                let idx = index_in(list, element, 0)->0;
                match first_later(cs, list, idx, 0) {
                    Some(l) => Some((splice(parent, cs[l].start as int, cs[l].start as int, f), true)),
                    None => {
                        let base = if ends_with_spec(parent, seq![47u8, 62u8]) {
                            expand_spec(parent)
                        } else {
                            Some(parent)
                        };
                        match base {
                            None => None,
                            Some(b) => match last_from(b, seq![60u8, 47u8], b.len() as int) {
                                Some(e) => Some((splice(b, e, e, f), true)),
                                None => None,
                            },
                        }
                    },
                }
            },
        },
    }
}

fn first_named_in(cs: &Vec<Child>, tag: &[u8]) -> (r: Option<usize>)
    ensures
        match first_named(cs@, tag@, 0) {
            Some(j) => r matches Some(x) && x as int == j,
            None => r is None,
        },
{
    let mut i: usize = 0;
    while i < cs.len()
        invariant
            i <= cs@.len(),
            first_named(cs@, tag@, i as int) == first_named(cs@, tag@, 0),
        decreases cs@.len() - i,
    {
        if bytes_eq(cs[i].name.as_slice(), tag) {
            return Some(i);
        }
        i = i + 1;
    }
    None
}

fn strip_w_of(n: &[u8]) -> (r: Vec<u8>)
    ensures
        r@ == strip_w(n@),
{
    let mut p: Vec<u8> = Vec::new();
    p.push(119u8);
    p.push(58u8);
    if crate::bytes_util::starts_with(n, p.as_slice()) {
        assert(p@ =~= seq![119u8, 58u8]);
        slice_vec(n, 2, n.len())
    } else {
        assert(p@ =~= seq![119u8, 58u8]);
        assert(n@.subrange(0, n@.len() as int) =~= n@);
        slice_vec(n, 0, n.len())
    }
}

fn is_later_in(list: &Vec<&'static str>, idx: usize, n: &[u8]) -> (r: bool)
    requires
        idx < list@.len(),
    ensures
        r == is_later(list@, idx as int, n@),
{
    let n_list = list.len();
    assert(idx < n_list);
    let mut j = idx + 1;
    while j < list.len()
        invariant
            idx < j <= list@.len(),
            forall|k: int| idx < k < j ==> (#[trigger] list@[k]).spec_bytes() != n@,
        decreases list@.len() - j,
    {
        if eq_str(n, list[j]) {
            return true;
        }
        j = j + 1;
    }
    false
}

fn first_later_in(cs: &Vec<Child>, list: &Vec<&'static str>, idx: usize) -> (r: Option<usize>)
    requires
        idx < list@.len(),
    ensures
        match first_later(cs@, list@, idx as int, 0) {
            Some(j) => r matches Some(x) && x as int == j,
            None => r is None,
        },
{
    let mut i: usize = 0;
    while i < cs.len()
        invariant
            i <= cs@.len(),
            idx < list@.len(),
            first_later(cs@, list@, idx as int, i as int) == first_later(cs@, list@, idx as int, 0),
        decreases cs@.len() - i,
    {
        let n = strip_w_of(cs[i].name.as_slice());
        if is_later_in(list, idx, n.as_slice()) {
            return Some(i);
        }
        i = i + 1;
    }
    None
}

/// An element edit on a parent whose direct children are `cs`; see [`spec_set_child`].
pub fn set_child_in(
    parent: &[u8],
    cs: &Vec<Child>,
    element: &[u8],
    frag: Option<&[u8]>,
    list: &Vec<&'static str>,
) -> (r: Option<(Vec<u8>, bool)>)
    requires
        children_ok(cs@, parent@.len()),
    ensures
        match spec_set_child(parent@, cs@, element@, match frag { Some(f) => Some(f@), None => None }, list@) {
            Some((v, c)) => r matches Some(x) && x.0@ == v && x.1 == c,
            None => r is None,
        },
{
    let tag = w_name_of(element);
    proof {
        lemma_first_named(cs@, tag@, 0);
    }
    let ghost sf = match frag { Some(f) => Some(f@), None => None::<Seq<u8>> };
    let hit = first_named_in(cs, tag.as_slice());
    match frag {
        None => match hit {
            None => Some((slice_vec(parent, 0, parent.len()), false)),
            Some(h) => {
                assert(parent@.subrange(0, parent@.len() as int) =~= parent@);
                let empty: Vec<u8> = Vec::new();
                let out = splice_vec(parent, cs[h].start, cs[h].end, empty.as_slice());
                assert(empty@ =~= seq![]);
                Some((out, true))
            },
        },
        Some(f) => match hit {
            Some(h) => {
                let out = splice_vec(parent, cs[h].start, cs[h].end, f);
                assert(spec_set_child(parent@, cs@, element@, sf, list@) == Some((out@, true)));
                Some((out, true))
            },
            None => {
                let idx = match index_in_exec(list, element) {
                    Some(i) => {
                        assert(list@[i as int].spec_bytes() == element@) by {
                            lemma_index_in(list@, element@, 0);
                        }
                        assert(listed(list@, element@));
                        i
                    },
                    None => {
                        proof {
                            lemma_index_in(list@, element@, 0);
                        }
                        return None;
                    },
                };
                proof {
                    lemma_first_later(cs@, list@, idx as int, 0);
                }
                match first_later_in(cs, list, idx) {
                    Some(l) => {
                        let out = splice_vec(parent, cs[l].start, cs[l].start, f);
                        assert(spec_set_child(parent@, cs@, element@, sf, list@) == Some((out@, true)));
                        Some((out, true))
                    },
                    None => {
                        let mut sc: Vec<u8> = Vec::new();
                        sc.push(47u8);
                        sc.push(62u8);
                        assert(sc@ =~= seq![47u8, 62u8]);
                        let base = if ends_with(parent, sc.as_slice()) {
                            match expand_self_closed_root(parent) {
                                Some(b) => b,
                                None => {
                                    return None;
                                },
                            }
                        } else {
                            slice_vec(parent, 0, parent.len())
                        };
                        assert(parent@.subrange(0, parent@.len() as int) =~= parent@);
                        let mut cl: Vec<u8> = Vec::new();
                        cl.push(60u8);
                        cl.push(47u8);
                        assert(cl@ =~= seq![60u8, 47u8]);
                        match last_at(base.as_slice(), cl.as_slice()) {
                            Some(e) => {
                                let out = splice_vec(base.as_slice(), e, e, f);
                                assert(spec_set_child(parent@, cs@, element@, sf, list@) == Some((out@, true)));
                                Some((out, true))
                            },
                            None => {
                                assert(spec_set_child(parent@, cs@, element@, sf, list@) is None);
                                None
                            },
                        }
                    },
                }
            },
        },
    }
}


proof fn lemma_first_named_views(a: Seq<Child>, b: Seq<Child>, tag: Seq<u8>, k: int)
    requires
        child_views(a) == child_views(b),
    ensures
        first_named(a, tag, k) == first_named(b, tag, k),
    decreases a.len() - k,
{
    assert(a.len() == child_views(a).len());
    assert(b.len() == child_views(b).len());
    if 0 <= k < a.len() {
        assert(child_views(a)[k] == child_view(a[k]));
        assert(child_views(b)[k] == child_view(b[k]));
        lemma_first_named_views(a, b, tag, k + 1);
    }
}

proof fn lemma_first_later_views(a: Seq<Child>, b: Seq<Child>, list: Seq<&'static str>, idx: int, k: int)
    requires
        child_views(a) == child_views(b),
    ensures
        first_later(a, list, idx, k) == first_later(b, list, idx, k),
    decreases a.len() - k,
{
    assert(a.len() == child_views(a).len());
    assert(b.len() == child_views(b).len());
    if 0 <= k < a.len() {
        assert(child_views(a)[k] == child_view(a[k]));
        assert(child_views(b)[k] == child_view(b[k]));
        lemma_first_later_views(a, b, list, idx, k + 1);
    }
}

/// [`spec_set_child`] reads the children only by their spans and names.
proof fn lemma_set_child_views(
    parent: Seq<u8>,
    a: Seq<Child>,
    b: Seq<Child>,
    element: Seq<u8>,
    frag: Option<Seq<u8>>,
    list: Seq<&'static str>,
)
    requires
        child_views(a) == child_views(b),
    ensures
        spec_set_child(parent, a, element, frag, list) == spec_set_child(parent, b, element, frag, list),
{
    lemma_first_named_views(a, b, w_name(element), 0);
    lemma_first_named(a, w_name(element), 0);
    assert(a.len() == child_views(a).len());
    assert(b.len() == child_views(b).len());
    if let Some(h) = first_named(a, w_name(element), 0) {
        assert(child_views(a)[h] == child_view(a[h]));
        assert(child_views(b)[h] == child_view(b[h]));
    }
    if listed(list, element) {
        let idx = index_in(list, element, 0)->0;
        lemma_first_later_views(a, b, list, idx, 0);
        lemma_first_later(a, list, idx, 0);
        if let Some(l) = first_later(a, list, idx, 0) {
            assert(child_views(a)[l] == child_view(a[l]));
            assert(child_views(b)[l] == child_view(b[l]));
        }
    }
}

/// Children whose spans and names are `v`.
pub open spec fn children_of(v: Seq<(usize, usize, Seq<u8>, bool)>) -> Seq<Child> {
    choose|cs: Seq<Child>| child_views(cs) == v
}

/// An element edit on `parent` with its direct children read from its own
/// text (see [`spec_set_child`]), and, after a removal, whether the parent
/// has no child element left. `None` where a reading fails or the edit is
/// impossible.
pub open spec fn spec_set_child_element(
    parent: Seq<u8>,
    element: Seq<u8>,
    frag: Option<Seq<u8>>,
    list: Seq<&'static str>,
) -> Option<(Seq<u8>, bool, bool)> {
    match spec_root_children(parent) {
        None => None,
        Some(v) => match spec_set_child(parent, children_of(v), element, frag, list) {
            None => None,
            Some((out, changed)) => if frag is None && changed {
                match spec_root_children(out) {
                    None => None,
                    Some(v2) => Some((out, changed, v2.len() == 0)),
                }
            } else {
                Some((out, changed, false))
            },
        },
    }
}

/// An element edit on `parent`, whose direct children are read from its own
/// text; see [`spec_set_child`]. The third value says, after a removal,
/// whether the parent has no child element left. `None`: the parent does
/// not scan as one element, or the edit is impossible.
pub fn set_child_element(
    parent: &[u8],
    element: &[u8],
    frag: Option<&[u8]>,
    list: &Vec<&'static str>,
) -> (r: Option<(Vec<u8>, bool, bool)>)
    ensures
        r matches Some(x) ==> exists|cs: Seq<Child>| children_ok(cs, parent@.len()) && spec_set_child(parent@, cs,
            element@, match frag { Some(f) => Some(f@), None => None }, list@) == Some((x.0@, x.1)),
        r matches Some(x) ==> (!x.1 ==> (x.0@ == parent@ && frag is None)),
        r matches Some(x) ==> (x.2 ==> (frag is None && x.1)),
        match r {
            Some(x) => spec_set_child_element(parent@, element@, match frag { Some(f) => Some(f@), None => None }, list@)
                == Some((x.0@, x.1, x.2)),
            None => spec_set_child_element(parent@, element@, match frag { Some(f) => Some(f@), None => None }, list@) is None,
        },
{
    let ghost sf = match frag { Some(f) => Some(f@), None => None::<Seq<u8>> };
    let children = root_children(parent)?;
    proof {
        let v = child_views(children@);
        assert(child_views(children_of(v)) == v);
        lemma_set_child_views(parent@, children_of(v), children@, element@, sf, list@);
    }
    let (out, changed) = set_child_in(parent, &children, element, frag, list)?;
    let empty = if frag.is_none() && changed {
        match root_children(out.as_slice()) {
            Some(cs) => cs.len() == 0,
            None => {
                return None;
            },
        }
    } else {
        false
    };
    Some((out, changed, empty))
}

/// How an element edit ended.
#[derive(Debug, Clone, Copy, PartialEq, Eq, Structural)]
pub enum Outcome {
    Changed,
    /// The element to remove was not there: nothing changed.
    Absent,
}

/// The schema list of a container.
pub open spec fn container_list(c: StyleContainer) -> Seq<&'static str> {
    match c {
        StyleContainer::Style => spec_style_elements(),
        StyleContainer::PPr => crate::docx_edit::spec_ppr_elements(),
        StyleContainer::RPr => spec_rpr_elements(),
        StyleContainer::TblPr => crate::docx_edit::spec_tblpr_elements(),
    }
}

fn container_whitelist(c: StyleContainer) -> (r: Vec<&'static str>)
    ensures
        r@ == container_list(c),
{
    match c {
        StyleContainer::Style => style_elements(),
        StyleContainer::PPr => ppr_elements(),
        StyleContainer::RPr => rpr_elements(),
        StyleContainer::TblPr => tblpr_elements(),
    }
}

/// The bytes of [`StyleContainer::tag`].
pub open spec fn container_tag(c: StyleContainer) -> Seq<u8> {
    match c {
        StyleContainer::Style => "style".spec_bytes(),
        StyleContainer::PPr => "pPr".spec_bytes(),
        StyleContainer::RPr => "rPr".spec_bytes(),
        StyleContainer::TblPr => "tblPr".spec_bytes(),
    }
}

/// How an element edit ended, from whether it changed the text.
pub open spec fn outcome_of(changed: bool) -> Outcome {
    if changed {
        Outcome::Changed
    } else {
        Outcome::Absent
    }
}

/// A container element `w:tag` holding `inner`.
pub open spec fn container_xml(tag: Seq<u8>, inner: Seq<u8>) -> Seq<u8> {
    open_tag(tag) + seq![62u8] + inner + "</w:".spec_bytes() + tag + seq![62u8]
}

/// An element edit inside one `w:style` text; see [`style_element_surgery`].
pub open spec fn spec_style_surgery(
    xml: Seq<u8>,
    container: StyleContainer,
    element: Seq<u8>,
    frag: Option<Seq<u8>>,
) -> Option<(Seq<u8>, Outcome, Seq<u8>)> {
    if container == StyleContainer::Style {
        match spec_set_child_element(xml, element, frag, spec_style_elements()) {
            None => None,
            Some((out, changed, _)) => Some((out, outcome_of(changed), out)),
        }
    } else {
        let ctag = container_tag(container);
        match spec_root_children(xml) {
            None => None,
            Some(v) => {
                let cs = children_of(v);
                match first_named(cs, w_name(ctag), 0) {
                    None => match frag {
                        None => Some((xml, Outcome::Absent, seq![])),
                        Some(f) => {
                            let nc = container_xml(ctag, f);
                            match spec_set_child_element(xml, ctag, Some(nc), spec_style_elements()) {
                                None => None,
                                Some((out, _, _)) => Some((out, Outcome::Changed, nc)),
                            }
                        },
                    },
                    Some(h) => {
                        let st = cs[h].start as int;
                        let en = cs[h].end as int;
                        match spec_set_child_element(xml.subrange(st, en), element, frag, container_list(container)) {
                            None => None,
                            Some((new_c, changed, now_empty)) => if now_empty {
                                Some((splice(xml, st, en, seq![]), Outcome::Changed, "（容器已随摘空清理）".spec_bytes()))
                            } else {
                                Some((splice(xml, st, en, new_c), outcome_of(changed), new_c))
                            },
                        }
                    },
                }
            },
        }
    }
}

/// An element edit inside one `w:style` text: the new text, how it ended,
/// and an excerpt for the summary. A missing container is created (in
/// schema order) for a replacement; a container emptied by a removal is
/// dropped. `None`: the text does not scan as an element.
#[verifier::rlimit(80)]
#[verifier::spinoff_prover]
pub fn style_element_surgery(
    style_xml: &[u8],
    container: StyleContainer,
    element: &[u8],
    frag: Option<&[u8]>,
) -> (r: Option<(Vec<u8>, Outcome, Vec<u8>)>)
    ensures
        r matches Some(x) ==> (x.1 == Outcome::Absent ==> (x.0@ == style_xml@ && frag is None)),
        match r {
            Some(x) => spec_style_surgery(style_xml@, container, element@, match frag { Some(f) => Some(f@), None => None })
                == Some((x.0@, x.1, x.2@)),
            None => spec_style_surgery(style_xml@, container, element@, match frag { Some(f) => Some(f@), None => None }) is None,
        },
{
    if container == StyleContainer::Style {
        let list = style_elements();
        let (out, changed, _) = set_child_element(style_xml, element, frag, &list)?;
        let outcome = if changed {
            Outcome::Changed
        } else {
            Outcome::Absent
        };
        let excerpt = slice_vec(out.as_slice(), 0, out.len());
        return Some((out, outcome, excerpt));
    }
    let ctag = container.tag();
    let tag = w_name_of(ctag.as_bytes());
    let children = root_children(style_xml)?;
    let hit = first_named_in(&children, tag.as_slice());
    proof {
        lemma_first_named(children@, tag@, 0);
        let v = child_views(children@);
        assert(child_views(children_of(v)) == v);
        lemma_first_named_views(children_of(v), children@, tag@, 0);
        if let Some(h) = first_named(children@, tag@, 0) {
            assert(children@.len() == v.len() && children_of(v).len() == v.len());
            assert(v[h] == child_view(children@[h]));
            assert(child_views(children_of(v))[h] == child_view(children_of(v)[h]));
        }
    }
    match hit {
        None => match frag {
            None => {
                assert(style_xml@.subrange(0, style_xml@.len() as int) =~= style_xml@);
                Some((slice_vec(style_xml, 0, style_xml.len()), Outcome::Absent, Vec::new()))
            },
            Some(f) => {
                let mut nc = open_tag_of(ctag.as_bytes());
                nc.push(62u8);
                push_bytes(&mut nc, f);
                push_str(&mut nc, "</w:");
                push_str(&mut nc, ctag);
                nc.push(62u8);
                assert(nc@ =~= container_xml(container_tag(container), f@));
                let list = style_elements();
                let (out, _, _) = set_child_element(style_xml, ctag.as_bytes(), Some(nc.as_slice()), &list)?;
                Some((out, Outcome::Changed, nc))
            },
        },
        Some(h) => {
            let st = children[h].start;
            let en = children[h].end;
            let cxml = slice_vec(style_xml, st, en);
            let list = container_whitelist(container);
            let (new_c, changed, now_empty) = set_child_element(cxml.as_slice(), element, frag, &list)?;
            if now_empty {
                let empty: Vec<u8> = Vec::new();
                let out = splice_vec(style_xml, st, en, empty.as_slice());
                return Some((out, Outcome::Changed, str_bytes("（容器已随摘空清理）")));
            }
            let outcome = if changed {
                Outcome::Changed
            } else {
                Outcome::Absent
            };
            let out = splice_vec(style_xml, st, en, new_c.as_slice());
            proof {
                if !changed {
                    assert(splice(style_xml@, st as int, en as int, style_xml@.subrange(st as int, en as int)) =~= style_xml@);
                }
            }
            Some((out, outcome, new_c))
        },
    }
}

/// Whether a style element edit passes the checks made before its fragment
/// is read: the style name cannot be removed, `pPr/rPr` is not edited, and
/// the element is a legal child of the container.
pub open spec fn guard_ok(container: StyleContainer, element: Seq<u8>, has_xml: bool) -> bool {
    &&& !(container == StyleContainer::Style && element == "name".spec_bytes() && !has_xml)
    &&& !(container == StyleContainer::PPr && element == "rPr".spec_bytes())
    &&& listed(container_list(container), element)
}

fn join_names(list: &Vec<&'static str>, sep: &str) -> (r: Vec<u8>)
    ensures
        r@ == joined(str_views(list@), sep.spec_bytes()),
{
    let mut out: Vec<u8> = Vec::new();
    push_joined_strs(&mut out, list, sep);
    assert(out@ =~= joined(str_views(list@), sep.spec_bytes()));
    out
}

/// Checks a style element edit before its fragment is read; see [`guard_ok`].
pub fn guard_style_element(container: StyleContainer, element: &[u8], has_xml: bool) -> (r: DocResult<()>)
    ensures
        r is Ok <==> guard_ok(container, element@, has_xml),
        r matches Err(e) ==> e.kind == ErrorKind::Validation,
{
    if container == StyleContainer::Style && eq_str(element, "name") && !has_xml {
        return Err(DocError::validation(str_bytes(
            "受保护: 样式显示名（w:name）不可摘除——它是样式身份。改名 = element=name 且 xml 提供新的 <w:name w:val=\"新名\"/>（整元素替换，styleId 不动，全文pStyle 引用不受影响）。",
        )));
    }
    if container == StyleContainer::PPr && eq_str(element, "rPr") {
        return Err(DocError::validation(str_bytes(
            "受保护: pPr 内的 rPr（段落标记字符格式）不在开刀范围。改样式的字符格式请用 container=\"rPr\"（样式级字符格式，作用于全部文字）。",
        )));
    }
    let list = container_whitelist(container);
    if position_in(&list, element).is_none() {
        let mut m = str_bytes("非法子元素: ");
        push_str(&mut m, container.tag());
        push_str(&mut m, " 容器内没有 <w:");
        push_bytes(&mut m, element);
        push_str(&mut m, "> 子元素。合法元素（schema 序）: ");
        push_bytes(&mut m, join_names(&list, " ").as_slice());
        push_str(&mut m, "。原文形态用 inspect_docx projection=styledef 查看，从看到的原文复制修改。");
        return Err(DocError::validation(m));
    }
    Ok(())
}

/// The style ID a reference names: the one style displayed under it, else
/// the reference itself when it is an ID. A display name shared by several
/// styles, or an unknown reference, is refused.
pub open spec fn spec_resolve(ss: Seq<StyleV>, style: Seq<u8>) -> Option<Seq<u8>> {
    let n = count_named(ss, style, 0);
    if n > 1 {
        None
    } else if n == 1 {
        Some(ss[index_of_name(ss, style, 0)->0].id)
    } else if index_of_id(ss, style, 0) is Some {
        Some(style)
    } else {
        None
    }
}

fn quoted(m: &mut Vec<u8>, v: &[u8])
    ensures
        final(m)@.len() >= old(m)@.len(),
        final(m)@ == old(m)@ + seq![34u8] + v@ + seq![34u8],
{
    m.push(34u8);
    push_bytes(m, v);
    m.push(34u8);
    assert(final(m)@ =~= old(m)@ + seq![34u8] + v@ + seq![34u8]);
}

/// Resolves a style reference to its ID; see [`spec_resolve`]. `what` names
/// the reference in the message.
pub fn resolve_style_id(sheet: &Stylesheet, style: &[u8], what: &str) -> (r: DocResult<Vec<u8>>)
    ensures
        match spec_resolve(sheet.view_styles(), style@) {
            Some(id) => r matches Ok(v) && v@ == id,
            None => r matches Err(e) && e.kind == ErrorKind::Validation,
        },
{
    let named = sheet.ids_named(style);
    if named.len() > 1 {
        let mut m = str_bytes("样式名重复: ");
        push_str(&mut m, what);
        m.push(32u8);
        quoted(&mut m, style);
        push_str(&mut m, " 是重复的显示名，对应多个样式 ID（");
        let mut i: usize = 0;
        while i < named.len()
            decreases named@.len() - i,
        {
            if i > 0 {
                push_str(&mut m, "、");
            }
            push_bytes(&mut m, named[i].as_slice());
            i = i + 1;
        }
        push_str(&mut m, "）。请改用 styleId 寻址（style 参数传其中之一）。");
        return Err(DocError::validation(m));
    }
    if named.len() == 1 {
        return Ok(slice_vec(named[0].as_slice(), 0, named[0].len()));
    }
    proof {
        crate::styles::lemma_count_named_zero(sheet.view_styles(), style@, 0);
    }
    match sheet.id_of(style) {
        Some(id) => Ok(id),
        None => {
            let mut m = str_bytes("样式不存在: ");
            push_str(&mut m, what);
            m.push(32u8);
            quoted(&mut m, style);
            push_str(&mut m, " 不在本文档样式表。可用样式（前 20）: ");
            push_bytes(&mut m, sheet.display_names_joined(20).as_slice());
            push_str(&mut m, "。完整清单用 inspect_docx projection=styles。");
            Err(DocError::validation(m))
        },
    }
}

/// `v` with `&`, `<`, `>` and `"` written as entities.
pub open spec fn escape_attr_spec(v: Seq<u8>) -> Seq<u8>
    decreases v.len(),
{
    if v.len() == 0 {
        seq![]
    } else {
        let b = v[v.len() - 1];
        escape_attr_spec(v.subrange(0, v.len() - 1)) + if b == 38 {
            "&amp;".spec_bytes()
        } else if b == 60 {
            "&lt;".spec_bytes()
        } else if b == 62 {
            "&gt;".spec_bytes()
        } else if b == 34 {
            "&quot;".spec_bytes()
        } else {
            seq![b]
        }
    }
}

/// Escapes an attribute value; see [`escape_attr_spec`].
pub fn escape_attr(v: &[u8]) -> (r: Vec<u8>)
    ensures
        r@ == escape_attr_spec(v@),
{
    let mut out: Vec<u8> = Vec::new();
    let mut i: usize = 0;
    while i < v.len()
        invariant
            i <= v@.len(),
            out@ == escape_attr_spec(v@.subrange(0, i as int)),
        decreases v@.len() - i,
    {
        let b = v[i];
        assert(v@.subrange(0, i + 1).subrange(0, i as int) =~= v@.subrange(0, i as int));
        if b == 38 {
            push_str(&mut out, "&amp;");
        } else if b == 60 {
            push_str(&mut out, "&lt;");
        } else if b == 62 {
            push_str(&mut out, "&gt;");
        } else if b == 34 {
            push_str(&mut out, "&quot;");
        } else {
            out.push(b);
        }
        i = i + 1;
    }
    assert(v@.subrange(0, i as int) =~= v@);
    out
}


/// Ordered, non-empty spans in an input of length `len` are at most `len`.
pub proof fn lemma_children_count(cs: Seq<Child>, len: nat)
    requires
        children_ok(cs, len),
    ensures
        cs.len() <= len,
        forall|i: int| 0 <= i < cs.len() ==> (#[trigger] cs[i]).start >= i,
{
    assert forall|i: int| 0 <= i < cs.len() implies (#[trigger] cs[i]).start >= i by {
        lemma_start_at_least(cs, len, i);
    }
    if cs.len() > 0 {
        assert(cs[cs.len() - 1].start >= cs.len() - 1);
    }
}

proof fn lemma_start_at_least(cs: Seq<Child>, len: nat, i: int)
    requires
        children_ok(cs, len),
        0 <= i < cs.len(),
    ensures
        cs[i].start >= i,
    decreases i,
{
    if i > 0 {
        lemma_start_at_least(cs, len, i - 1);
        assert(cs[i - 1].end <= cs[i].start);
    }
}

/// How many of the children `v[0..i]` are named `tag`.
pub open spec fn named_count(v: Seq<(usize, usize, Seq<u8>, bool)>, tag: Seq<u8>, i: int) -> nat
    decreases i,
{
    if i <= 0 {
        0
    } else {
        named_count(v, tag, i - 1) + if v[i - 1].2 == tag { 1nat } else { 0nat }
    }
}

fn count_named_children(cs: &Vec<Child>, tag: &[u8]) -> (r: usize)
    ensures
        r <= cs@.len(),
        r == named_count(child_views(cs@), tag@, cs@.len() as int),
{
    let mut n: usize = 0;
    let mut i: usize = 0;
    while i < cs.len()
        invariant
            i <= cs@.len(),
            n <= i,
            n == named_count(child_views(cs@), tag@, i as int),
        decreases cs@.len() - i,
    {
        assert(child_views(cs@)[i as int] == child_view(cs@[i as int]));
        if bytes_eq(cs[i].name.as_slice(), tag) {
            n = n + 1;
        }
        i = i + 1;
    }
    n
}

/// The `w:lvl` count of the `w:abstractNum` children among `v[k..]`, read
/// from the text `xml`; none when one of them does not scan.
pub open spec fn lvl_count_from(xml: Seq<u8>, v: Seq<(usize, usize, Seq<u8>, bool)>, k: int) -> Option<nat>
    decreases v.len() - k,
{
    if k < 0 || k >= v.len() {
        Some(0)
    } else if v[k].2 == "w:abstractNum".spec_bytes() {
        match spec_root_children(xml.subrange(v[k].0 as int, v[k].1 as int)) {
            None => None,
            Some(sub) => match lvl_count_from(xml, v, k + 1) {
                None => None,
                Some(m) => Some(named_count(sub, "w:lvl".spec_bytes(), sub.len() as int) + m),
            },
        }
    } else {
        lvl_count_from(xml, v, k + 1)
    }
}

/// The level count of a numbering part; see [`count_lvls`].
pub open spec fn spec_count_lvls(xml: Seq<u8>) -> Option<nat> {
    match spec_root_children(xml) {
        None => None,
        Some(v) => lvl_count_from(xml, v, 0),
    }
}

/// The number of `w:lvl` children of the `w:abstractNum` children of the
/// root of `xml` (levels overridden inside `w:num` do not count).
fn count_lvls(xml: &[u8]) -> (r: Option<usize>)
    ensures
        match r {
            Some(n) => spec_count_lvls(xml@) == Some(n as nat),
            None => spec_count_lvls(xml@) is None,
        },
{
    let children = root_children(xml)?;
    let ghost v = child_views(children@);
    let abs_tag = str_bytes("w:abstractNum");
    let lvl_tag = str_bytes("w:lvl");
    let mut n: usize = 0;
    let mut i: usize = 0;
    while i < children.len()
        invariant
            i <= children@.len(),
            children_ok(children@, xml@.len()),
            i > 0 ==> n <= children@[i - 1].end,
            i == 0 ==> n == 0,
            v == child_views(children@),
            abs_tag@ == "w:abstractNum".spec_bytes(),
            lvl_tag@ == "w:lvl".spec_bytes(),
            spec_root_children(xml@) == Some(v),
            match lvl_count_from(xml@, v, i as int) {
                Some(m) => lvl_count_from(xml@, v, 0) == Some((n + m) as nat),
                None => lvl_count_from(xml@, v, 0) is None,
            },
        decreases children@.len() - i,
    {
        assert(v[i as int] == child_view(children@[i as int]));
        let c = &children[i];
        if bytes_eq(c.name.as_slice(), abs_tag.as_slice()) {
            let sub = slice_vec(xml, c.start, c.end);
            assert(v[i as int].2 == "w:abstractNum".spec_bytes());
            let subs = match root_children(sub.as_slice()) {
                Some(x) => x,
                None => {
                    assert(lvl_count_from(xml@, v, i as int) is None);
                    return None;
                },
            };
            proof {
                lemma_children_count(subs@, sub@.len());
                if i > 0 {
                    assert(children@[i - 1].end <= children@[i as int].start);
                }
            }
            let k = count_named_children(&subs, lvl_tag.as_slice());
            assert(lvl_count_from(xml@, v, i as int) == match lvl_count_from(xml@, v, i + 1) {
                None => None,
                Some(m) => Some((k + m) as nat),
            });
            n = n + k;
        } else {
            assert(v[i as int].2 != "w:abstractNum".spec_bytes());
            assert(lvl_count_from(xml@, v, i as int) == lvl_count_from(xml@, v, i + 1));
            proof {
                if i > 0 {
                    assert(children@[i - 1].end <= children@[i as int].start);
                }
            }
        }
        i = i + 1;
    }
    assert(lvl_count_from(xml@, v, i as int) == Some(0nat));
    Some(n)
}

fn malformed_internal() -> (e: DocError)
    ensures
        e.kind == ErrorKind::Internal,
{
    DocError::internal(str_bytes("XML 形态异常（内部 bug，未写盘）: 定义部件结构解析失败，手术未落盘。"))
}

/// UTF-8 bytes of a string.
pub open spec fn sbytes(s: String) -> Seq<u8> {
    vstd::utf8::encode_utf8(s@)
}

/// What a styles batch needs of each operation before any definition is
/// read: a new style has a name and, if given, an ID that is not blank; an
/// element edit passes [`guard_ok`], and its fragment carries no revision
/// record, namespace declaration or `sectPr`/`pPrChange`.
pub open spec fn style_op_ok(op: StyleEditOp) -> bool {
    match op {
        StyleEditOp::CreateStyle { name, style_id, .. } => trimmed(sbytes(name)).len() > 0 && (style_id matches Some(sid) ==> trimmed(sbytes(sid)).len() > 0),
        StyleEditOp::SetStyleElement { container, element, xml, .. } => guard_ok(container, sbytes(element), xml is Some) && (xml matches Some(f) ==> fragment_clean(sbytes(f))),
    }
}

/// A fragment with no revision record, namespace declaration, `sectPr` or `pPrChange`.
pub open spec fn fragment_clean(f: Seq<u8>) -> bool {
    &&& forall|i: int| 0 <= i < spec_change_elements().len() ==> !occurs(f, open_tag((#[trigger] spec_change_elements()[i]).spec_bytes()))
    &&& !occurs(f, "xmlns".spec_bytes())
    &&& !occurs(f, "<w:sectPr".spec_bytes())
    &&& !occurs(f, "<w:pPrChange".spec_bytes())
}

/// The package after a definition edit: `part` holds new content, every
/// other entry reads back as before.
pub open spec fn only_part_changed(before: Seq<u8>, after: Seq<u8>, part: Seq<char>) -> bool {
    &&& crate::zip_io::zip_entry_of(before, part) matches Some(Some(_))
    &&& crate::zip_io::zip_entry_of(after, part) matches Some(Some(_))
    &&& forall|n: Seq<char>| n != part ==> crate::zip_io::zip_entry_of(after, n) == crate::zip_io::zip_entry_of(before, n)
}

/// `s[i..]` without its white-space characters.
pub open spec fn spec_without_ws(s: Seq<u8>, i: int) -> Seq<u8>
    decreases s.len() - i,
{
    if i < 0 || i >= s.len() {
        seq![]
    } else {
        let w = crate::bytes_util::ws_len(s, i);
        if w > 0 && w <= s.len() - i {
            spec_without_ws(s, i + w)
        } else {
            seq![s[i]] + spec_without_ws(s, i + 1)
        }
    }
}

/// `s` without its white-space characters.
fn without_ws(s: &[u8]) -> (r: Vec<u8>)
    ensures
        r@ == spec_without_ws(s@, 0),
{
    let mut out: Vec<u8> = Vec::new();
    let mut i: usize = 0;
    while i < s.len()
        invariant
            i <= s@.len(),
            out@ + spec_without_ws(s@, i as int) == spec_without_ws(s@, 0),
        decreases s@.len() - i,
    {
        let ghost o0 = out@;
        let w = crate::bytes_util::ws_len_at(s, i);
        if w > 0 && w <= s.len() - i {
            i = i + w;
        } else {
            out.push(s[i]);
            assert(out@ + spec_without_ws(s@, i + 1) =~= o0 + (seq![s@[i as int]] + spec_without_ws(s@, i + 1)));
            i = i + 1;
        }
    }
    assert(spec_without_ws(s@, i as int) =~= seq![]);
    assert(out@ + seq![] =~= out@);
    out
}

fn joined_ids(ids: &Vec<Vec<u8>>) -> (r: Vec<u8>)
    ensures
        r@ == joined(views(ids@), "、".spec_bytes()),
{
    let mut m: Vec<u8> = Vec::new();
    push_joined(&mut m, ids, "、");
    assert(m@ =~= joined(views(ids@), "、".spec_bytes()));
    m
}

fn has_key(seen: &Vec<Vec<u8>>, key: &[u8]) -> (r: bool)
    ensures
        r == exists|i: int| 0 <= i < seen@.len() && (#[trigger] seen@[i])@ == key@,
{
    let mut i: usize = 0;
    while i < seen.len()
        invariant
            i <= seen@.len(),
            forall|k: int| 0 <= k < i ==> (#[trigger] seen@[k])@ != key@,
        decreases seen@.len() - i,
    {
        if bytes_eq(seen[i].as_slice(), key) {
            return true;
        }
        i = i + 1;
    }
    false
}

/// The first of the children `cs[k..]` named `tag` whose attribute `attr` is `val`.
pub open spec fn first_with_attr(xml: Seq<u8>, cs: Seq<Child>, tag: Seq<u8>, attr: Seq<u8>, val: Seq<u8>, k: int) -> Option<int>
    decreases cs.len() - k,
{
    if k < 0 || k >= cs.len() {
        None
    } else if cs[k].name@ == tag && crate::docx_edit::attr_of(xml.subrange(cs[k].start as int, cs[k].end as int), attr)
        == Some(val) {
        Some(k)
    } else {
        first_with_attr(xml, cs, tag, attr, val, k + 1)
    }
}

fn find_child_with_attr(xml: &[u8], cs: &Vec<Child>, tag: &str, attr: &str, val: &[u8]) -> (r: Option<usize>)
    requires
        children_ok(cs@, xml@.len()),
    ensures
        r matches Some(i) ==> i < cs@.len(),
        match first_with_attr(xml@, cs@, tag.spec_bytes(), attr.spec_bytes(), val@, 0) {
            Some(j) => r == Some(j as usize),
            None => r is None,
        },
{
    let mut i: usize = 0;
    while i < cs.len()
        invariant
            i <= cs@.len(),
            children_ok(cs@, xml@.len()),
            first_with_attr(xml@, cs@, tag.spec_bytes(), attr.spec_bytes(), val@, i as int)
                == first_with_attr(xml@, cs@, tag.spec_bytes(), attr.spec_bytes(), val@, 0),
        decreases cs@.len() - i,
    {
        if eq_str(cs[i].name.as_slice(), tag) {
            match child_attr(xml, &cs[i], attr) {
                Some(v) => {
                    if bytes_eq(v.as_slice(), val) {
                        return Some(i);
                    }
                },
                None => {},
            }
        }
        i = i + 1;
    }
    None
}

fn summary(op: &'static str, before: Vec<u8>, after: Vec<u8>, target: Vec<u8>) -> (a: AppliedOp)
    ensures
        a.op == op,
        a.block == 0,
        a.style is None,
        a.style_unchanged is None,
        a.target is Some,
        vstd::utf8::valid_utf8(before@) && crate::bytes_util::char_count(before@) <= 60 ==> a.before@
            == vstd::utf8::decode_utf8(before@),
        vstd::utf8::valid_utf8(after@) ==> a.after@ == vstd::utf8::decode_utf8(after@),
        vstd::utf8::valid_utf8(target@) ==> a.target->0@ == vstd::utf8::decode_utf8(target@),
{
    AppliedOp {
        op,
        block: 0,
        before: truncate(before.as_slice(), 60),
        after: bytes_to_string(after.as_slice()),
        style: None,
        style_unchanged: None,
        target: Some(bytes_to_string(target.as_slice())),
    }
}

fn protected_fragment(m: &'static str) -> (e: DocError)
    ensures
        e.kind == ErrorKind::Validation,
{
    let mut msg = str_bytes("受保护: 片段含修订记录元素 <w:");
    push_str(&mut msg, m);
    push_str(&mut msg, ">。请去掉修订标记——修订历史与手术改动会互相踩踏。");
    DocError::validation(msg)
}

/// Edits the style definitions of a docx package: the batch is checked and
/// applied in order on `word/styles.xml` (a style created earlier in the
/// batch can be edited later in it), the result must parse and keep every
/// style (plus the created ones), and only that part is repacked.
pub fn apply_style_edits_to_bytes(bytes: &[u8], ops: &[StyleEditOp]) -> (r: DocResult<(Vec<u8>, Vec<AppliedOp>)>)
    ensures
        ops@.len() == 0 ==> (r matches Err(e) && e.kind == ErrorKind::Validation),
        ops@.len() > 0 && crate::zip_io::zip_entry_of(bytes@, "word/styles.xml"@) is None ==> (r matches Err(e)
            && e.kind == ErrorKind::Internal),
        ops@.len() > 0 && crate::zip_io::zip_entry_of(bytes@, "word/styles.xml"@) == Some(None::<Seq<u8>>) ==> (
        r matches Err(e) && e.kind == ErrorKind::Validation),
        r matches Ok(x) ==> {
            &&& x.1@.len() == ops@.len()
            &&& forall|i: int| 0 <= i < ops@.len() ==> style_op_ok(#[trigger] ops@[i])
            &&& only_part_changed(bytes@, x.0@, "word/styles.xml"@)
        },
        r matches Err(e) ==> e.kind == ErrorKind::Validation || e.kind == ErrorKind::Internal,
{
    if ops.len() == 0 {
        return Err(DocError::validation(str_bytes("操作列表为空: styles 批至少需要一个操作（create_style / set_style_element）。")));
    }
    let mut xml = match crate::docx::read_entry(bytes, "word/styles.xml")? {
        Some(x) => x,
        None => {
            return Err(DocError::validation(str_bytes(
                "无样式部件: 本文档没有 word/styles.xml（极少见，文档可能由非常规工具生成），无法做样式定义编辑。",
            )));
        },
    };
    let style_tag = str_bytes("w:style");
    let orig_count = match root_children(xml.as_slice()) {
        Some(cs) => count_named_children(&cs, style_tag.as_slice()),
        None => {
            return Err(malformed_internal());
        },
    };
    let mut seen: Vec<Vec<u8>> = Vec::new();
    let mut created: usize = 0;
    let mut summaries: Vec<AppliedOp> = Vec::new();
    let mut i: usize = 0;
    while i < ops.len()
        invariant
            i <= ops@.len(),
            created <= i,
            summaries@.len() == i,
            forall|k: int| 0 <= k < i ==> style_op_ok(#[trigger] ops@[k]),
            crate::zip_io::zip_entry_of(bytes@, "word/styles.xml"@) matches Some(Some(_)),
        decreases ops@.len() - i,
    {
        match &ops[i] {
            StyleEditOp::CreateStyle { style_type, name, style_id, based_on } => {
                let name_trim = trim(name.as_str().as_bytes());
                if name_trim.len() == 0 {
                    return Err(DocError::validation(str_bytes("非法参数: name（样式显示名）不能为空。")));
                }
                let dom = crate::xml_dom::parse(xml.as_slice())?;
                let sheet = crate::styles::parse_styles(&dom);
                let named = sheet.ids_named(name_trim.as_slice());
                if named.len() > 0 {
                    let mut m = str_bytes("样式已存在: 显示名 ");
                    quoted(&mut m, name_trim.as_slice());
                    push_str(&mut m, " 已被使用（ID: ");
                    push_bytes(&mut m, joined_ids(&named).as_slice());
                    push_str(&mut m, "）。Word 允许重名但会混淆——请换名，或用 set_style_element 改现有样式。");
                    return Err(DocError::validation(m));
                }
                let id = match style_id {
                    Some(sid) => {
                        let t = trim(sid.as_str().as_bytes());
                        if t.len() == 0 {
                            return Err(DocError::validation(str_bytes("非法参数: style_id 不能为空白。")));
                        }
                        t
                    },
                    None => without_ws(name_trim.as_slice()),
                };
                if sheet.id_of(id.as_slice()).is_some() {
                    let mut m = str_bytes("样式已存在: styleId ");
                    quoted(&mut m, id.as_slice());
                    push_str(&mut m, " 已被样式 ");
                    match sheet.name_of(id.as_slice()) {
                        Some(n) => quoted(&mut m, n.as_slice()),
                        None => quoted(&mut m, &[]),
                    }
                    push_str(&mut m, " 使用。请显式传一个未占用的 style_id。");
                    return Err(DocError::validation(m));
                }
                let mut el = str_bytes("<w:style w:type=\"");
                push_str(&mut el, style_type.as_str());
                push_str(&mut el, "\" w:styleId=\"");
                push_bytes(&mut el, escape_attr(id.as_slice()).as_slice());
                push_str(&mut el, "\"><w:name w:val=\"");
                push_bytes(&mut el, escape_attr(name_trim.as_slice()).as_slice());
                push_str(&mut el, "\"/>");
                match based_on {
                    Some(b) => {
                        let parent = resolve_style_id(&sheet, b.as_str().as_bytes(), "based_on 父样式")?;
                        push_str(&mut el, "<w:basedOn w:val=\"");
                        push_bytes(&mut el, escape_attr(parent.as_slice()).as_slice());
                        push_str(&mut el, "\"/>");
                    },
                    None => {},
                }
                push_str(&mut el, "<w:qFormat/></w:style>");
                let close = str_bytes("</w:styles>");
                let at = match rfind(xml.as_slice(), close.as_slice()) {
                    Some(a) => a,
                    None => {
                        return Err(malformed_internal());
                    },
                };
                xml = splice_vec(xml.as_slice(), at, at, el.as_slice());
                created = created + 1;
                let mut target = str_bytes("style '");
                push_bytes(&mut target, name_trim.as_slice());
                push_str(&mut target, "'（ID ");
                push_bytes(&mut target, id.as_slice());
                push_str(&mut target, "）");
                let after = truncate_bytes(el.as_slice(), 60);
                summaries.push(summary("create_style", Vec::new(), after, target));
            },
            StyleEditOp::SetStyleElement { style, container, element, xml: frag } => {
                let el_b = element.as_str().as_bytes();
                guard_style_element(*container, el_b, frag.is_some())?;
                let fb: Option<&[u8]> = match frag {
                    Some(f) => Some(f.as_str().as_bytes()),
                    None => None,
                };
                if let Some(f) = fb {
                    if let Some(m) = change_marker(f) {
                        return Err(protected_fragment(m));
                    }
                    validate_fragment(el_b, f, "styledef")?;
                }
                let dom = crate::xml_dom::parse(xml.as_slice())?;
                let sheet = crate::styles::parse_styles(&dom);
                let id = resolve_style_id(&sheet, style.as_str().as_bytes(), "样式")?;
                let ctag = container.tag();
                let mut key = slice_vec(id.as_slice(), 0, id.len());
                key.push(1u8);
                push_str(&mut key, ctag);
                key.push(1u8);
                push_bytes(&mut key, el_b);
                if has_key(&seen, key.as_slice()) {
                    let mut m = str_bytes("重复操作: 同批对 style ");
                    quoted(&mut m, style.as_str().as_bytes());
                    push_str(&mut m, "（ID ");
                    push_bytes(&mut m, id.as_slice());
                    push_str(&mut m, "）的 ");
                    push_str(&mut m, ctag);
                    push_str(&mut m, "/");
                    push_bytes(&mut m, el_b);
                    push_str(&mut m, " 已有操作。请合并为一次操作，或拆成两批。");
                    return Err(DocError::validation(m));
                }
                seen.push(key);
                let cs = match root_children(xml.as_slice()) {
                    Some(c) => c,
                    None => {
                        return Err(malformed_internal());
                    },
                };
                let h = match find_child_with_attr(xml.as_slice(), &cs, "w:style", "w:styleId", id.as_slice()) {
                    Some(h) => h,
                    None => {
                        return Err(malformed_internal());
                    },
                };
                let st = cs[h].start;
                let en = cs[h].end;
                let style_xml = slice_vec(xml.as_slice(), st, en);
                if let Some(m) = change_marker(style_xml.as_slice()) {
                    let mut msg = str_bytes("受保护: 样式 ");
                    quoted(&mut msg, style.as_str().as_bytes());
                    push_str(&mut msg, " 的定义带修订记录（w:");
                    push_str(&mut msg, m);
                    push_str(&mut msg, "）。请先在 Word 里接受/拒绝修订再编辑定义。");
                    return Err(DocError::validation(msg));
                }
                let (new_style, outcome, excerpt) = match style_element_surgery(style_xml.as_slice(), *container, el_b, fb) {
                    Some(x) => x,
                    None => {
                        return Err(malformed_internal());
                    },
                };
                let display = match sheet.name_of(id.as_slice()) {
                    Some(n) => slice_vec(n.as_slice(), 0, n.len()),
                    None => slice_vec(id.as_slice(), 0, id.len()),
                };
                let after = match outcome {
                    Outcome::Changed => truncate_bytes(excerpt.as_slice(), 60),
                    Outcome::Absent => str_bytes("（目标元素本就不存在，文档未变）"),
                };
                let mut target = str_bytes("style '");
                push_bytes(&mut target, display.as_slice());
                push_str(&mut target, "' ");
                push_str(&mut target, ctag);
                push_str(&mut target, "/");
                push_bytes(&mut target, el_b);
                summaries.push(summary("set_style_element", style_xml, after, target));
                xml = splice_vec(xml.as_slice(), st, en, new_style.as_slice());
            },
        }
        i = i + 1;
    }
    let _check = crate::xml_dom::parse(xml.as_slice())?;
    let new_count = match root_children(xml.as_slice()) {
        Some(cs) => count_named_children(&cs, style_tag.as_slice()),
        None => {
            return Err(malformed_internal());
        },
    };
    if orig_count > usize::MAX - created || new_count != orig_count + created {
        let mut m = str_bytes("XML 形态异常（内部 bug，未写盘）: w:style 计数不守恒（期望 ");
        if orig_count <= usize::MAX - created {
            push_usize(&mut m, orig_count + created);
        }
        push_str(&mut m, "，实得 ");
        push_usize(&mut m, new_count);
        push_str(&mut m, "）。");
        return Err(DocError::internal(m));
    }
    let out = crate::docx::repack_part(bytes, "word/styles.xml", xml.as_slice())?;
    Ok((out, summaries))
}

/// At most `n` characters of `s`.
fn truncate_bytes(s: &[u8], n: usize) -> (r: Vec<u8>)
    ensures
        exists|k: int|
            0 <= k <= s@.len() && r@ == s@.subrange(0, k) && crate::bytes_util::at_boundary(s@, k)
                && crate::bytes_util::chars_in(s@, k) == if crate::bytes_util::char_count(s@) <= n {
                crate::bytes_util::char_count(s@)
            } else {
                n as nat
            },
        crate::bytes_util::char_count(s@) <= n ==> r@ == s@,
{
    crate::bytes_util::truncate_chars(s, n)
}


/// What a numbering batch needs of each operation before any definition is
/// read: a real numId (not 0), a level 0-8, a legal child of `w:lvl`, and a
/// clean fragment.
pub open spec fn numbering_op_ok(op: NumberingEditOp) -> bool {
    match op {
        NumberingEditOp::SetNumberingElement { num_id, level, element, xml } => {
            &&& num_id != 0
            &&& level <= 8
            &&& listed(spec_lvl_elements(), sbytes(element))
            &&& (xml matches Some(f) ==> fragment_clean(sbytes(f)))
        },
    }
}

/// The target of a numbering operation: numId, level, element.
pub open spec fn numbering_key(op: NumberingEditOp) -> (u32, u32, Seq<u8>) {
    match op {
        NumberingEditOp::SetNumberingElement { num_id, level, element, .. } => (num_id, level, sbytes(element)),
    }
}

fn has_num_key(seen: &Vec<(u32, u32, Vec<u8>)>, num_id: u32, level: u32, element: &[u8]) -> (r: bool)
    ensures
        r == exists|i: int| 0 <= i < seen@.len() && (#[trigger] seen@[i]).0 == num_id && seen@[i].1 == level && seen@[i].2@ == element@,
{
    let mut i: usize = 0;
    while i < seen.len()
        invariant
            i <= seen@.len(),
            forall|k: int| 0 <= k < i ==> !((#[trigger] seen@[k]).0 == num_id && seen@[k].1 == level && seen@[k].2@ == element@),
        decreases seen@.len() - i,
    {
        if seen[i].0 == num_id && seen[i].1 == level && bytes_eq(seen[i].2.as_slice(), element) {
            return true;
        }
        i = i + 1;
    }
    false
}

/// The decimal texts of numbers.
pub open spec fn decs(v: Seq<u32>) -> Seq<Seq<u8>> {
    v.map_values(|x: u32| crate::bytes_util::dec(x as nat))
}

fn push_u32_list(m: &mut Vec<u8>, v: &Vec<u32>)
    ensures
        final(m)@ == old(m)@ + if v@.len() == 0 {
            "（空）".spec_bytes()
        } else {
            joined(decs(v@), "、".spec_bytes())
        },
{
    if v.len() == 0 {
        push_str(m, "（空）");
        return;
    }
    let ghost ds = decs(v@);
    let mut i: usize = 0;
    while i < v.len()
        invariant
            i <= v@.len(),
            ds == decs(v@),
            m@ == old(m)@ + joined(ds.subrange(0, i as int), "、".spec_bytes()),
        decreases v@.len() - i,
    {
        proof {
            crate::bytes_util::lemma_joined_step(ds, "、".spec_bytes(), i as int);
        }
        if i > 0 {
            push_str(m, "、");
        }
        push_usize(m, v[i] as usize);
        i = i + 1;
    }
    assert(ds.subrange(0, i as int) =~= ds);
}

fn not_found(msg: Vec<u8>) -> (e: DocError)
    ensures
        e.kind == ErrorKind::Validation,
{
    let mut m = str_bytes("编号引用或级别不存在: ");
    push_bytes(&mut m, msg.as_slice());
    DocError::validation(m)
}

/// Edits the numbering definitions of a docx package: each numId is
/// resolved through its `w:num` to the `w:lvl` of its `abstractNum` (level
/// overrides are not touched), numIds sharing that definition are named in
/// the summary, the result must parse and keep its number of levels, and
/// only `word/numbering.xml` is repacked.
pub fn apply_numbering_edits_to_bytes(bytes: &[u8], ops: &[NumberingEditOp]) -> (r: DocResult<(Vec<u8>, Vec<AppliedOp>)>)
    ensures
        ops@.len() == 0 ==> (r matches Err(e) && e.kind == ErrorKind::Validation),
        ops@.len() > 0 && crate::zip_io::zip_entry_of(bytes@, "word/numbering.xml"@) is None ==> (r matches Err(e)
            && e.kind == ErrorKind::Internal),
        ops@.len() > 0 && crate::zip_io::zip_entry_of(bytes@, "word/numbering.xml"@) == Some(None::<Seq<u8>>) ==> (
        r matches Err(e) && e.kind == ErrorKind::Validation),
        r matches Ok(x) ==> {
            &&& x.1@.len() == ops@.len()
            &&& forall|i: int| 0 <= i < ops@.len() ==> numbering_op_ok(#[trigger] ops@[i])
            &&& forall|i: int, j: int| 0 <= i < j < ops@.len() ==> numbering_key(#[trigger] ops@[i]) != numbering_key(#[trigger] ops@[j])
            &&& only_part_changed(bytes@, x.0@, "word/numbering.xml"@)
        },
        r matches Err(e) ==> e.kind == ErrorKind::Validation || e.kind == ErrorKind::Internal,
{
    if ops.len() == 0 {
        return Err(DocError::validation(str_bytes("操作列表为空: numbering 批至少需要一个操作（set_numbering_element）。")));
    }
    let mut xml = match crate::docx::read_entry(bytes, "word/numbering.xml")? {
        Some(x) => x,
        None => {
            return Err(DocError::validation(str_bytes(
                "无编号部件: 本文档没有 word/numbering.xml（还没有任何自动编号列表）。请先在文档里建一个列表（如对段落 set_ppr_element 插入 numPr 后由 Word补全定义），再回来调级。",
            )));
        },
    };
    let orig_lvls = match count_lvls(xml.as_slice()) {
        Some(n) => n,
        None => {
            return Err(malformed_internal());
        },
    };
    let lvl_list = lvl_elements();
    let mut seen: Vec<(u32, u32, Vec<u8>)> = Vec::new();
    let mut summaries: Vec<AppliedOp> = Vec::new();
    let mut i: usize = 0;
    while i < ops.len()
        invariant
            i <= ops@.len(),
            summaries@.len() == i,
            lvl_list@ == spec_lvl_elements(),
            seen@.len() == i,
            forall|k: int| 0 <= k < i ==> numbering_op_ok(#[trigger] ops@[k]),
            forall|k: int| 0 <= k < i ==> (#[trigger] seen@[k]).0 == numbering_key(ops@[k]).0 && seen@[k].1 == numbering_key(ops@[k]).1 && seen@[k].2@ == numbering_key(ops@[k]).2,
            forall|k: int, j: int| 0 <= k < j < i ==> numbering_key(#[trigger] ops@[k]) != numbering_key(#[trigger] ops@[j]),
            crate::zip_io::zip_entry_of(bytes@, "word/numbering.xml"@) matches Some(Some(_)),
        decreases ops@.len() - i,
    {
        let NumberingEditOp::SetNumberingElement { num_id, level, element, xml: frag } = &ops[i];
        let num_id = *num_id;
        let level = *level;
        let el_b = element.as_str().as_bytes();
        if num_id == 0 {
            return Err(not_found(str_bytes("numId 0 是 Word 的「显式无编号」标记，不是列表。请用 inspect_docx projection=numbering 查可用 numId。")));
        }
        if level > 8 {
            let mut m = str_bytes("level ");
            push_usize(&mut m, level as usize);
            push_str(&mut m, " 超界（ilvl 合法 0-8）。");
            return Err(not_found(m));
        }
        if position_in(&lvl_list, el_b).is_none() {
            let mut m = str_bytes("非法子元素: w:lvl 内没有 <w:");
            push_bytes(&mut m, el_b);
            push_str(&mut m, "> 子元素。合法元素（schema 序）: ");
            push_bytes(&mut m, join_names(&lvl_list, " ").as_slice());
            push_str(&mut m, "。原文形态用 inspect_docx projection=numbering 查看，从看到的原文复制修改。");
            return Err(DocError::validation(m));
        }
        let fb: Option<&[u8]> = match frag {
            Some(f) => Some(f.as_str().as_bytes()),
            None => None,
        };
        if let Some(f) = fb {
            if let Some(m) = change_marker(f) {
                return Err(protected_fragment(m));
            }
            validate_fragment(el_b, f, "numbering")?;
        }
        if has_num_key(&seen, num_id, level, el_b) {
            let mut m = str_bytes("重复操作: 同批对 numId ");
            push_usize(&mut m, num_id as usize);
            push_str(&mut m, " level ");
            push_usize(&mut m, level as usize);
            push_str(&mut m, " 的 ");
            push_bytes(&mut m, el_b);
            push_str(&mut m, " 已有操作。请合并为一次操作，或拆成两批。");
            return Err(DocError::validation(m));
        }
        let dom = crate::xml_dom::parse(xml.as_slice())?;
        let catalog = crate::numbering::parse_numbering(&dom);
        let abs_id = match catalog.abstract_of(num_id) {
            Some(a) => a,
            None => {
                let mut ids: Vec<u32> = Vec::new();
                let mut k: usize = 0;
                while k < catalog.nums.len()
                    decreases catalog.nums@.len() - k,
                {
                    ids.push(catalog.nums[k].0);
                    k = k + 1;
                }
                let mut m = str_bytes("numId ");
                push_usize(&mut m, num_id as usize);
                push_str(&mut m, " 不在编号目录。已有 numId: ");
                push_u32_list(&mut m, &ids);
                push_str(&mut m, "。完整清单用 inspect_docx projection=numbering 查看。");
                return Err(not_found(m));
            },
        };
        if !catalog.has_lvl(num_id, level) {
            let lvls = catalog.ilvls_of_num(num_id);
            let mut m = str_bytes("numId ");
            push_usize(&mut m, num_id as usize);
            push_str(&mut m, " 没有 level ");
            push_usize(&mut m, level as usize);
            push_str(&mut m, " 定义（已有级: ");
            push_u32_list(&mut m, &lvls);
            push_str(&mut m, "）。");
            return Err(not_found(m));
        }
        let cs = match root_children(xml.as_slice()) {
            Some(c) => c,
            None => {
                return Err(malformed_internal());
            },
        };
        let abs_str = usize_dec(abs_id as usize);
        let ah = match find_child_with_attr(xml.as_slice(), &cs, "w:abstractNum", "w:abstractNumId", abs_str.as_slice()) {
            Some(h) => h,
            None => {
                return Err(malformed_internal());
            },
        };
        let a_st = cs[ah].start;
        let a_en = cs[ah].end;
        let abs_xml = slice_vec(xml.as_slice(), a_st, a_en);
        let subs = match root_children(abs_xml.as_slice()) {
            Some(c) => c,
            None => {
                return Err(malformed_internal());
            },
        };
        let level_str = usize_dec(level as usize);
        let lh = match find_child_with_attr(abs_xml.as_slice(), &subs, "w:lvl", "w:ilvl", level_str.as_slice()) {
            Some(h) => h,
            None => {
                return Err(malformed_internal());
            },
        };
        let l_st = subs[lh].start;
        let l_en = subs[lh].end;
        let lvl_xml = slice_vec(abs_xml.as_slice(), l_st, l_en);
        if let Some(m) = change_marker(lvl_xml.as_slice()) {
            let mut msg = str_bytes("受保护: numId ");
            push_usize(&mut msg, num_id as usize);
            push_str(&mut msg, " level ");
            push_usize(&mut msg, level as usize);
            push_str(&mut msg, " 的定义带修订记录（w:");
            push_str(&mut msg, m);
            push_str(&mut msg, "）。请先在 Word 里接受/拒绝修订再编辑定义。");
            return Err(DocError::validation(msg));
        }
        let (new_lvl, changed) = match set_child_element(lvl_xml.as_slice(), el_b, fb, &lvl_list) {
            Some((s, c, _)) => (s, c),
            None => {
                return Err(malformed_internal());
            },
        };
        let new_abs = splice_vec(abs_xml.as_slice(), l_st, l_en, new_lvl.as_slice());
        let shared = catalog.num_ids_of_abstract(abs_id);
        let mut target = str_bytes("numId ");
        push_usize(&mut target, num_id as usize);
        push_str(&mut target, " lvl ");
        push_usize(&mut target, level as usize);
        target.push(32u8);
        push_bytes(&mut target, el_b);
        if shared.len() > 1 {
            push_str(&mut target, "（影响 numId ");
            push_u32_list(&mut target, &shared);
            push_str(&mut target, "，共享 abstractNum ");
            push_usize(&mut target, abs_id as usize);
            push_str(&mut target, "）");
        }
        let after = if changed {
            let tag = open_tag_of(el_b);
            match crate::bytes_util::find(new_lvl.as_slice(), tag.as_slice()) {
                Some(at) => {
                    let tail = slice_vec(new_lvl.as_slice(), at, new_lvl.len());
                    truncate_bytes(tail.as_slice(), 60)
                },
                None => truncate_bytes(new_lvl.as_slice(), 60),
            }
        } else {
            str_bytes("（目标元素本就不存在，文档未变）")
        };
        summaries.push(summary("set_numbering_element", lvl_xml, after, target));
        let ghost seen0 = seen@;
        seen.push((num_id, level, slice_vec(el_b, 0, el_b.len())));
        proof {
            assert(el_b@.subrange(0, el_b@.len() as int) =~= el_b@);
            assert forall|k: int, j: int| 0 <= k < j < i + 1 implies numbering_key(#[trigger] ops@[k]) != numbering_key(#[trigger] ops@[j]) by {
                if j == i {
                    assert(seen0[k].0 == numbering_key(ops@[k]).0);
                }
            }
        }
        xml = splice_vec(xml.as_slice(), a_st, a_en, new_abs.as_slice());
        i = i + 1;
    }
    let _check = crate::xml_dom::parse(xml.as_slice())?;
    match count_lvls(xml.as_slice()) {
        Some(n) => {
            if n != orig_lvls {
                return Err(DocError::internal(str_bytes("XML 形态异常（内部 bug，未写盘）: w:lvl 计数不守恒。")));
            }
        },
        None => {
            return Err(DocError::internal(str_bytes("XML 形态异常（内部 bug，未写盘）: w:lvl 计数不守恒。")));
        },
    }
    let out = crate::docx::repack_part(bytes, "word/numbering.xml", xml.as_slice())?;
    Ok((out, summaries))
}

} // verus!
