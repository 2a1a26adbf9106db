use vstd::prelude::*;
use vstd::string::StringSliceAdditionalSpecFns;
use crate::bytes_util::{push_bytes, push_str, str_bytes, slice_vec, bytes_eq, eq_str, find_from, matches_at};
use crate::error::{DocError, DocResult, ErrorKind};
use crate::docx_model::decode_entities_into;

verus! {

/// An attribute: its qualified name and its value with entities decoded.
#[derive(Debug)]
pub struct Attr {
    pub key: Vec<u8>,
    pub value: Vec<u8>,
}

/// An element: qualified name, attributes in source order, child nodes.
#[derive(Debug)]
pub struct Element {
    pub name: Vec<u8>,
    pub attrs: Vec<Attr>,
    pub children: Vec<Node>,
}

/// A child node: an element, or character data kept raw (entities undecoded).
#[derive(Debug)]
pub enum Node {
    Element(Element),
    Text(Vec<u8>),
}

pub open spec fn is_ws_byte(b: u8) -> bool {
    b == 32 || b == 9 || b == 10 || b == 13
}

/// A byte that may stand in a tag or attribute name.
pub open spec fn is_name_byte(b: u8) -> bool {
    !is_ws_byte(b) && b != 60 && b != 62 && b != 47 && b != 61 && b != 34 && b != 39
}

/// A well-formed name: non-empty, made of name bytes.
pub open spec fn wf_name(n: Seq<u8>) -> bool {
    n.len() > 0 && forall|i: int| 0 <= i < n.len() ==> is_name_byte(n[i])
}

/// Character data holds no `<`.
pub open spec fn wf_text(t: Seq<u8>) -> bool {
    forall|i: int| 0 <= i < t.len() ==> t[i] != 60
}

pub open spec fn wf_attrs(a: Seq<Attr>) -> bool {
    forall|i: int| 0 <= i < a.len() ==> wf_name(#[trigger] a[i].key@)
}

/// A well-formed subtree: names are names, text holds no markup.
pub open spec fn wf_element(e: Element) -> bool
    decreases e,
{
    &&& wf_name(e.name@)
    &&& wf_attrs(e.attrs@)
    &&& forall|i: int|
        0 <= i < e.children.len() ==> match #[trigger] e.children@[i] {
            Node::Element(c) => wf_element(c),
            Node::Text(t) => wf_text(t@),
        }
}

/// A well-formed list of nodes.
pub open spec fn wf_nodes(ns: Seq<Node>) -> bool {
    forall|i: int|
        0 <= i < ns.len() ==> match #[trigger] ns[i] {
            Node::Element(c) => wf_element(c),
            Node::Text(t) => wf_text(t@),
        }
}

/// The value of the first attribute named `key`.
pub open spec fn spec_attr(attrs: Seq<Attr>, key: Seq<u8>) -> Option<Seq<u8>>
    decreases attrs.len(),
{
    if attrs.len() == 0 {
        None
    } else if attrs[0].key@ == key {
        Some(attrs[0].value@)
    } else {
        spec_attr(attrs.drop_first(), key)
    }
}

/// The concatenated character data below `ns`, in document order.
pub open spec fn spec_raw_text(ns: Seq<Node>) -> Seq<u8>
    decreases ns,
{
    if ns.len() == 0 {
        seq![]
    } else {
        spec_raw_text(ns.subrange(0, ns.len() - 1)) + match ns[ns.len() - 1] {
            Node::Text(t) => t@,
            Node::Element(c) => spec_raw_text(c.children@),
        }
    }
}

impl Element {
    /// The value of the first attribute named `key`.
    pub fn attr(&self, key: &[u8]) -> (r: Option<&Vec<u8>>)
        ensures
            match r {
                Some(v) => spec_attr(self.attrs@, key@) == Some(v@),
                None => spec_attr(self.attrs@, key@) is None,
            },
    {
        let mut i: usize = 0;
        assert(self.attrs@.skip(0) =~= self.attrs@);
        while i < self.attrs.len()
            invariant
                i <= self.attrs@.len(),
                spec_attr(self.attrs@, key@) == spec_attr(self.attrs@.skip(i as int), key@),
            decreases self.attrs@.len() - i,
        {
            assert(self.attrs@.skip(i as int).drop_first() =~= self.attrs@.skip(i + 1));
            if bytes_eq(self.attrs[i].key.as_slice(), key) {
                return Some(&self.attrs[i].value);
            }
            i = i + 1;
        }
        None
    }

    /// Same as [`Element::attr`], for a literal name.
    pub fn attr_str(&self, key: &str) -> (r: Option<&Vec<u8>>)
        ensures
            match r {
                Some(v) => spec_attr(self.attrs@, key.spec_bytes()) == Some(v@),
                None => spec_attr(self.attrs@, key.spec_bytes()) is None,
            },
    {
        self.attr(key.as_bytes())
    }

    /// The raw character data of all descendant text nodes, concatenated.
    pub fn raw_text(&self) -> (r: Vec<u8>)
        ensures
            r@ == spec_raw_text(self.children@),
    {
        let mut out: Vec<u8> = Vec::new();
        self.push_raw_text(&mut out);
        assert(out@ =~= spec_raw_text(self.children@));
        out
    }

    /// Appends the raw character data of all descendant text nodes to `out`.
    pub fn push_raw_text(&self, out: &mut Vec<u8>)
        ensures
            final(out)@ == old(out)@ + spec_raw_text(self.children@),
        decreases self,
    {
        let ghost start = out@;
        let mut i: usize = 0;
        while i < self.children.len()
            invariant
                i <= self.children@.len(),
                out@ == start + spec_raw_text(self.children@.subrange(0, i as int)),
            decreases self.children@.len() - i,
        {
            assert(self.children@.subrange(0, i + 1).subrange(0, i as int) =~= self.children@.subrange(0, i as int));
            let ghost before = out@;
            match &self.children[i] {
                Node::Text(t) => push_bytes(out, t.as_slice()),
                Node::Element(c) => {
                    assert(decreases_to!(*self => *c)) by {
                        assert(decreases_to!(*self => self.children));
                        assert(decreases_to!(self.children => self.children@));
                        assert(decreases_to!(self.children@ => self.children@[i as int]));
                    }
                    c.push_raw_text(out);
                },
            }
            assert(out@ =~= start + spec_raw_text(self.children@.subrange(0, i + 1)));
            i = i + 1;
        }
        assert(self.children@.subrange(0, i as int) =~= self.children@);
    }

    /// Whether the element is named `name`.
    pub fn is(&self, name: &str) -> (r: bool)
        ensures
            r == (self.name@ == name.spec_bytes()),
    {
        eq_str(self.name.as_slice(), name)
    }
}

// ---------------------------------------------------------------------------
// Parsing
// ---------------------------------------------------------------------------

fn parse_error(what: &str) -> (e: DocError)
    ensures
        e.kind == ErrorKind::Internal,
{
    let mut m = str_bytes("XML 解析失败: ");
    push_str(&mut m, what);
    DocError::internal(m)
}

fn is_ws_at(b: u8) -> (r: bool)
    ensures
        r == is_ws_byte(b),
{
    b == 32 || b == 9 || b == 10 || b == 13
}

fn is_name_at(b: u8) -> (r: bool)
    ensures
        r == is_name_byte(b),
{
    !is_ws_at(b) && b != 60 && b != 62 && b != 47 && b != 61 && b != 34 && b != 39
}

/// The first position at or after `i` that holds no name byte.
pub open spec fn spec_name_end(s: Seq<u8>, i: int) -> int
    decreases s.len() - i,
{
    if 0 <= i < s.len() && is_name_byte(s[i]) {
        spec_name_end(s, i + 1)
    } else {
        i
    }
}

/// The first position at or after `i` that holds no white space.
pub open spec fn spec_skip_ws(s: Seq<u8>, i: int) -> int
    decreases s.len() - i,
{
    if 0 <= i < s.len() && is_ws_byte(s[i]) {
        spec_skip_ws(s, i + 1)
    } else {
        i
    }
}

/// The first position at or after `i` that holds `b`, if any.
pub open spec fn spec_byte_from(s: Seq<u8>, i: int, b: u8) -> Option<int>
    decreases s.len() - i,
{
    if i < 0 || i >= s.len() {
        None
    } else if s[i] == b {
        Some(i)
    } else {
        spec_byte_from(s, i + 1, b)
    }
}

/// End of the name that starts at `i` (the first non-name byte at or after `i`).
fn name_end(s: &[u8], i: usize) -> (r: usize)
    requires
        i <= s@.len(),
    ensures
        i <= r <= s@.len(),
        r == spec_name_end(s@, i as int),
        forall|k: int| i <= k < r ==> is_name_byte(s@[k]),
        r < s@.len() ==> !is_name_byte(s@[r as int]),
{
    let mut k = i;
    while k < s.len() && is_name_at(s[k])
        invariant
            i <= k <= s@.len(),
            spec_name_end(s@, i as int) == spec_name_end(s@, k as int),
            forall|j: int| i <= j < k ==> is_name_byte(s@[j]),
        decreases s@.len() - k,
    {
        k = k + 1;
    }
    k
}

fn skip_ws(s: &[u8], i: usize) -> (r: usize)
    requires
        i <= s@.len(),
    ensures
        i <= r <= s@.len(),
        r == spec_skip_ws(s@, i as int),
{
    let mut k = i;
    while k < s.len() && is_ws_at(s[k])
        invariant
            i <= k <= s@.len(),
            spec_skip_ws(s@, i as int) == spec_skip_ws(s@, k as int),
        decreases s@.len() - k,
    {
        k = k + 1;
    }
    k
}

/// A start tag: name, attributes, the position after its `>`, and whether it closes itself.
struct StartTag {
    name: Vec<u8>,
    attrs: Vec<Attr>,
    end: usize,
    self_closing: bool,
}

/// The rest of a start tag from `k` (after its name or an attribute): the
/// position after its `>` and whether it closes itself, when every
/// attribute is a name, `=` and a quoted value.
pub open spec fn spec_tag_rest(s: Seq<u8>, k: int) -> Option<(int, bool)>
    decreases s.len() - k,
{
    let k1 = spec_skip_ws(s, k);
    if k < 0 || k1 >= s.len() {
        None
    } else if s[k1] == 62 {
        Some((k1 + 1, false))
    } else if s[k1] == 47 {
        if k1 + 1 < s.len() && s[k1 + 1] == 62 {
            Some((k1 + 2, true))
        } else {
            None
        }
    } else {
        let ke = spec_name_end(s, k1);
        let v = spec_skip_ws(s, ke);
        if ke == k1 || v >= s.len() || s[v] != 61 {
            None
        } else {
            let v2 = spec_skip_ws(s, v + 1);
            if v2 >= s.len() || (s[v2] != 34 && s[v2] != 39) {
                None
            } else {
                match spec_byte_from(s, v2 + 1, s[v2]) {
                    Some(e) => if k < e + 1 <= s.len() {
                        spec_tag_rest(s, e + 1)
                    } else {
                        None
                    },
                    None => None,
                }
            }
        }
    }
}

/// The start tag whose `<` is at `i`: its name, the position after it and
/// whether it closes itself, when it is well formed.
pub open spec fn spec_start_tag(s: Seq<u8>, i: int) -> Option<(Seq<u8>, int, bool)> {
    let ne = spec_name_end(s, i + 1);
    if ne == i + 1 {
        None
    } else {
        match spec_tag_rest(s, ne) {
            Some((end, sc)) => Some((s.subrange(i + 1, ne), end, sc)),
            None => None,
        }
    }
}

proof fn lemma_skip_ws_ge(s: Seq<u8>, i: int)
    ensures
        spec_skip_ws(s, i) >= i,
    decreases s.len() - i,
{
    if 0 <= i < s.len() && is_ws_byte(s[i]) {
        lemma_skip_ws_ge(s, i + 1);
    }
}

proof fn lemma_byte_from(s: Seq<u8>, i: int, b: u8)
    ensures
        spec_byte_from(s, i, b) matches Some(e) ==> i <= e < s.len() && s[e] == b,
    decreases s.len() - i,
{
    if 0 <= i < s.len() && s[i] != b {
        lemma_byte_from(s, i + 1, b);
    }
}

/// Parses the start tag whose `<` is at `i`.
fn parse_start_tag(s: &[u8], i: usize) -> (r: DocResult<StartTag>)
    requires
        i < s@.len(),
    ensures
        r matches Ok(t) ==> i < t.end <= s@.len() && wf_name(t.name@) && wf_attrs(t.attrs@),
        r matches Err(e) ==> e.kind == ErrorKind::Internal,
        match spec_start_tag(s@, i as int) {
            Some((nm, end, sc)) => r matches Ok(t) && t.name@ == nm && t.end == end && t.self_closing == sc,
            None => r is Err,
        },
{
    let n = s.len();
    let ne = name_end(s, i + 1);
    if ne == i + 1 {
        return Err(parse_error("标签名缺失"));
    }
    let name = slice_vec(s, i + 1, ne);
    assert(wf_name(name@));
    let mut attrs: Vec<Attr> = Vec::new();
    let mut k = ne;
    loop
        invariant
            i < k <= s@.len(),
            n == s@.len(),
            wf_name(name@),
            wf_attrs(attrs@),
            ne == spec_name_end(s@, i + 1),
            ne > i + 1,
            name@ == s@.subrange(i + 1, ne as int),
            spec_tag_rest(s@, ne as int) == spec_tag_rest(s@, k as int),
        decreases s@.len() - k,
    {
        let ghost k0 = k;
        k = skip_ws(s, k);
        if k >= s.len() {
            return Err(parse_error("标签未闭合"));
        }
        if s[k] == 62 {
            return Ok(StartTag { name, attrs, end: k + 1, self_closing: false });
        }
        if s[k] == 47 {
            if k + 1 < s.len() && s[k + 1] == 62 {
                return Ok(StartTag { name, attrs, end: k + 2, self_closing: true });
            }
            return Err(parse_error("自闭合标签形态异常"));
        }
        let ke = name_end(s, k);
        if ke == k {
            return Err(parse_error("属性名非法"));
        }
        let key = slice_vec(s, k, ke);
        let mut v = skip_ws(s, ke);
        if v >= s.len() || s[v] != 61 {
            return Err(parse_error("属性缺少 ="));
        }
        v = skip_ws(s, v + 1);
        if v >= s.len() || (s[v] != 34 && s[v] != 39) {
            return Err(parse_error("属性值缺少引号"));
        }
        let q = s[v];
        let mut e = v + 1;
        while e < s.len() && s[e] != q
            invariant
                v < e <= s@.len(),
                spec_byte_from(s@, v + 1, q) == spec_byte_from(s@, e as int, q),
            decreases s@.len() - e,
        {
            e = e + 1;
        }
        if e >= s.len() {
            return Err(parse_error("属性值未闭合"));
        }
        proof {
            lemma_skip_ws_ge(s@, k0 as int);
            assert(spec_tag_rest(s@, k0 as int) == spec_tag_rest(s@, e + 1));
        }
        let mut value: Vec<u8> = Vec::new();
        decode_entities_into(&s[v + 1..e], &mut value);
        let ghost old_attrs = attrs@;
        attrs.push(Attr { key, value });
        proof {
            assert forall|j: int| 0 <= j < attrs@.len() implies wf_name(#[trigger] attrs@[j].key@) by {
                if j < old_attrs.len() {
                    assert(attrs@[j] == old_attrs[j]);
                }
            }
        }
        k = e + 1;
    }
}

/// Position right after the first occurrence of `pat` at or after `from`.
pub open spec fn spec_skip(s: Seq<u8>, from: int, pat: Seq<u8>) -> Option<int> {
    match crate::bytes_util::first_occ(s, pat, from) {
        Some(q) => Some(q + pat.len()),
        None => None,
    }
}

/// Position right after the first occurrence of `pat` at or after `from`.
fn skip_past(s: &[u8], from: usize, pat: &[u8]) -> (r: Option<usize>)
    requires
        from <= s@.len(),
        pat@.len() > 0,
    ensures
        r matches Some(p) ==> from < p <= s@.len(),
        match r {
            Some(p) => spec_skip(s@, from as int, pat@) == Some(p as int),
            None => spec_skip(s@, from as int, pat@) is None,
        },
{
    let n = s.len();
    match find_from(s, pat, from) {
        Some(p) => {
            proof {
                crate::bytes_util::lemma_first_occ(s@, pat@, from as int, Some(p));
                assert(crate::bytes_util::has_at(s@, p as int, pat@));
            }
            Some(p + pat.len())
        },
        None => {
            proof {
                crate::bytes_util::lemma_first_occ(s@, pat@, from as int, None);
            }
            None
        },
    }
}

/// Bytes that open a CDATA section.
pub open spec fn cdata_open() -> Seq<u8> {
    seq![60u8, 33, 91, 67, 68, 65, 84, 65, 91]
}

/// Bytes that close a CDATA section.
pub open spec fn cdata_close() -> Seq<u8> {
    seq![93u8, 93, 62]
}

/// The option of a scan with an element seen.
pub open spec fn elem_seen(x: Option<(int, bool)>) -> Option<(int, bool)> {
    match x {
        Some((p, _)) => Some((p, true)),
        None => None,
    }
}

/// The option of a scan with a flag for elements seen before it.
pub open spec fn with_flag(x: Option<(int, bool)>, b: bool) -> Option<(int, bool)> {
    match x {
        Some((p, e)) => Some((p, e || b)),
        None => None,
    }
}

/// Whether a node list holds an element.
pub open spec fn has_elem(ns: Seq<Node>) -> bool {
    exists|j: int| 0 <= j < ns.len() && (#[trigger] ns[j]) is Element
}

pub open spec fn close_view(c: Option<&[u8]>) -> Option<Seq<u8>> {
    match c {
        Some(x) => Some(x@),
        None => None,
    }
}

/// Whether the nodes from `i` on are well formed up to the end tag named
/// `close` (to the end of the text when `close` is `None`): the position
/// after that end tag, and whether an element stands among them. Character
/// data runs to the next `<`; comments, CDATA sections, processing
/// instructions and declarations run to their closing marks; an element is a
/// well-formed start tag, then (unless it closes itself) its nodes up to its
/// own end tag.
pub open spec fn spec_scan(s: Seq<u8>, i: int, close: Option<Seq<u8>>) -> Option<(int, bool)>
    decreases s.len() - i,
{
    if i < 0 || i > s.len() {
        None
    } else if i == s.len() {
        if close is Some {
            None
        } else {
            Some((i, false))
        }
    } else if s[i] != 60 {
        let e = match spec_byte_from(s, i + 1, 60) {
            Some(e) => e,
            None => s.len() as int,
        };
        if i < e <= s.len() {
            spec_scan(s, e, close)
        } else {
            None
        }
    } else if crate::bytes_util::has_at(s, i, "<!--".spec_bytes()) {
        match spec_skip(s, i + 1, "-->".spec_bytes()) {
            Some(p) => if i < p <= s.len() {
                spec_scan(s, p, close)
            } else {
                None
            },
            None => None,
        }
    } else if crate::bytes_util::has_at(s, i, cdata_open()) {
        match spec_skip(s, i + cdata_open().len(), cdata_close()) {
            Some(p) => if i < p <= s.len() {
                spec_scan(s, p, close)
            } else {
                None
            },
            None => None,
        }
    } else if crate::bytes_util::has_at(s, i, "<?".spec_bytes()) {
        match spec_skip(s, i + 1, "?>".spec_bytes()) {
            Some(p) => if i < p <= s.len() {
                spec_scan(s, p, close)
            } else {
                None
            },
            None => None,
        }
    } else if crate::bytes_util::has_at(s, i, "<!".spec_bytes()) {
        match spec_skip(s, i + 1, ">".spec_bytes()) {
            Some(p) => if i < p <= s.len() {
                spec_scan(s, p, close)
            } else {
                None
            },
            None => None,
        }
    } else if crate::bytes_util::has_at(s, i, "</".spec_bytes()) {
        let ne = spec_name_end(s, i + "</".spec_bytes().len());
        let e = spec_skip_ws(s, ne);
        if e >= s.len() || s[e] != 62 {
            None
        } else {
            match close {
                Some(c) => if s.subrange(i + "</".spec_bytes().len(), ne) == c {
                    Some((e + 1, false))
                } else {
                    None
                },
                None => None,
            }
        }
    } else {
        match spec_start_tag(s, i) {
            Some((nm, end, sc)) => if !(i < end <= s.len()) {
                None
            } else if sc {
                elem_seen(spec_scan(s, end, close))
            } else {
                match spec_scan(s, end, Some(nm)) {
                    Some((after, _)) => if i < after <= s.len() {
                        elem_seen(spec_scan(s, after, close))
                    } else {
                        None
                    },
                    None => None,
                }
            },
            None => None,
        }
    }
}

/// Whether a text parses: its nodes are well formed to the end and hold an element.
pub open spec fn spec_parses(s: Seq<u8>) -> bool {
    spec_scan(s, 0, None) matches Some((_, true))
}

/// Parses the node sequence from `pos` up to the end tag named `close`
/// (to the end of input when `close` is `None`). Returns the nodes and the
/// position after the end tag.
#[verifier::rlimit(100)]
#[verifier::spinoff_prover]
fn parse_nodes(s: &[u8], pos: usize, close: Option<&[u8]>) -> (r: DocResult<(Vec<Node>, usize)>)
    requires
        pos <= s@.len(),
    ensures
        r matches Ok((ns, p)) ==> pos <= p <= s@.len() && wf_nodes(ns@),
        r matches Err(e) ==> e.kind == ErrorKind::Internal,
        match spec_scan(s@, pos as int, close_view(close)) {
            Some((p, e)) => r matches Ok((ns, q)) && q == p && e == has_elem(ns@),
            None => r is Err,
        },
    decreases s@.len() - pos,
{
    let mut nodes: Vec<Node> = Vec::new();
    let mut i = pos;
    let ghost cv = close_view(close);
    loop
        invariant
            pos <= i <= s@.len(),
            wf_nodes(nodes@),
            cv == close_view(close),
            spec_scan(s@, pos as int, cv) == with_flag(spec_scan(s@, i as int, cv), has_elem(nodes@)),
        decreases s@.len() - i,
    {
        if i >= s.len() {
            if close.is_some() {
                return Err(parse_error("元素未闭合"));
            }
            return Ok((nodes, i));
        }
        let ghost old_nodes = nodes@;
        let ghost i0 = i;
        proof {
            reveal_strlit("-->");
            reveal_strlit("?>");
            reveal_strlit(">");
            reveal_strlit("</");
        }
        let cdata_arr: [u8; 9] = [60, 33, 91, 67, 68, 65, 84, 65, 91];
        let cdata_open_b = cdata_arr.as_slice();
        assert(cdata_open_b@ =~= cdata_open());
        let end_open = "</".as_bytes();
        if s[i] != 60 {
            // character data up to the next '<'
            let mut e = i + 1;
            while e < s.len() && s[e] != 60
                invariant
                    i < e <= s@.len(),
                    forall|k: int| i <= k < e ==> s@[k] != 60,
                    spec_byte_from(s@, i + 1, 60) == spec_byte_from(s@, e as int, 60),
                decreases s@.len() - e,
            {
                e = e + 1;
            }
            let t = slice_vec(s, i, e);
            assert(wf_text(t@));
            nodes.push(Node::Text(t));
            proof {
                assert forall|j: int| 0 <= j < nodes@.len() implies match #[trigger] nodes@[j] {
                    Node::Element(c) => wf_element(c),
                    Node::Text(t) => wf_text(t@),
                } by {
                    if j < old_nodes.len() {
                        assert(nodes@[j] == old_nodes[j]);
                    }
                }
                assert(has_elem(nodes@) == has_elem(old_nodes)) by {
                    if has_elem(nodes@) {
                        let j = choose|j: int| 0 <= j < nodes@.len() && (#[trigger] nodes@[j]) is Element;
                        assert(j < old_nodes.len());
                        assert(old_nodes[j] == nodes@[j]);
                    }
                    if has_elem(old_nodes) {
                        let j = choose|j: int| 0 <= j < old_nodes.len() && (#[trigger] old_nodes[j]) is Element;
                        assert(nodes@[j] == old_nodes[j]);
                    }
                }
            }
            i = e;
            assert(i > i0);
            assert(spec_scan(s@, i0 as int, cv) == spec_scan(s@, i as int, cv));
        } else if matches_at(s, i, "<!--".as_bytes()) {
            match skip_past(s, i + 1, "-->".as_bytes()) {
                Some(p) => {
                    i = p;
                    assert(i > i0);
                    assert(spec_scan(s@, i0 as int, cv) == spec_scan(s@, i as int, cv));
                },
                None => {
                    return Err(parse_error("注释未闭合"));
                },
            }
        } else if matches_at(s, i, cdata_open_b) {
            let close_arr: [u8; 3] = [93, 93, 62];
            let close_pat = close_arr.as_slice();
            assert(close_pat@ =~= cdata_close());
            let start = i + cdata_open_b.len();
            match find_from(s, close_pat, start) {
                Some(p) => {
                    proof {
                        crate::bytes_util::lemma_first_occ(s@, close_pat@, start as int, Some(p));
                    }
                    // CDATA content kept as character data when it holds no '<'
                    let t = slice_vec(s, start, p);
                    let mut ok = true;
                    let mut k: usize = 0;
                    while k < t.len()
                        invariant
                            k <= t@.len(),
                            ok ==> forall|j: int| 0 <= j < k ==> t@[j] != 60,
                        decreases t@.len() - k,
                    {
                        if t[k] == 60 {
                            ok = false;
                        }
                        k = k + 1;
                    }
                    if ok {
                        nodes.push(Node::Text(t));
                        proof {
                            assert forall|j: int| 0 <= j < nodes@.len() implies match #[trigger] nodes@[j] {
                                Node::Element(c) => wf_element(c),
                                Node::Text(t) => wf_text(t@),
                            } by {
                                if j < old_nodes.len() {
                                    assert(nodes@[j] == old_nodes[j]);
                                }
                            }
                            assert(has_elem(nodes@) == has_elem(old_nodes)) by {
                                if has_elem(nodes@) {
                                    let j = choose|j: int| 0 <= j < nodes@.len() && (#[trigger] nodes@[j]) is Element;
                                    assert(j < old_nodes.len());
                                    assert(old_nodes[j] == nodes@[j]);
                                }
                                if has_elem(old_nodes) {
                                    let j = choose|j: int| 0 <= j < old_nodes.len() && (#[trigger] old_nodes[j]) is Element;
                                    assert(nodes@[j] == old_nodes[j]);
                                }
                            }
                        }
                    }
                    i = p + close_pat.len();
                    assert(i > i0);
                    assert(spec_scan(s@, i0 as int, cv) == spec_scan(s@, i as int, cv));
                },
                None => {
                    proof {
                        crate::bytes_util::lemma_first_occ(s@, close_pat@, start as int, None);
                    }
                    return Err(parse_error("CDATA 未闭合"));
                },
            }
        } else if matches_at(s, i, "<?".as_bytes()) {
            match skip_past(s, i + 1, "?>".as_bytes()) {
                Some(p) => {
                    i = p;
                    assert(spec_scan(s@, i0 as int, cv) == spec_scan(s@, i as int, cv));
                },
                None => {
                    return Err(parse_error("处理指令未闭合"));
                },
            }
        } else if matches_at(s, i, "<!".as_bytes()) {
            match skip_past(s, i + 1, ">".as_bytes()) {
                Some(p) => {
                    i = p;
                    assert(spec_scan(s@, i0 as int, cv) == spec_scan(s@, i as int, cv));
                },
                None => {
                    return Err(parse_error("声明未闭合"));
                },
            }
        } else if matches_at(s, i, end_open) {
            let ne = name_end(s, i + end_open.len());
            let e = skip_ws(s, ne);
            if e >= s.len() || s[e] != 62 {
                return Err(parse_error("结束标签形态异常"));
            }
            match close {
                Some(c) => {
                    if !bytes_eq(&s[i + end_open.len()..ne], c) {
                        return Err(parse_error("结束标签与开始标签不匹配"));
                    }
                    return Ok((nodes, e + 1));
                },
                None => {
                    return Err(parse_error("多余的结束标签"));
                },
            }
        } else {
            let tag = parse_start_tag(s, i)?;
            let StartTag { name, attrs, end, self_closing } = tag;
            let el = if self_closing {
                Element { name, attrs, children: Vec::new() }
            } else {
                let (children, after) = parse_nodes(s, end, Some(name.as_slice()))?;
                i = after;
                Element { name, attrs, children }
            };
            if self_closing {
                i = end;
            }
            assert(i > i0);
            proof {
                assert(wf_element(el));
            }
            nodes.push(Node::Element(el));
            proof {
                assert forall|j: int| 0 <= j < nodes@.len() implies match #[trigger] nodes@[j] {
                    Node::Element(c) => wf_element(c),
                    Node::Text(t) => wf_text(t@),
                } by {
                    if j < old_nodes.len() {
                        assert(nodes@[j] == old_nodes[j]);
                    }
                }
                assert(nodes@[old_nodes.len() as int] is Element);
                assert(has_elem(nodes@));
                assert(spec_scan(s@, i0 as int, cv) == elem_seen(spec_scan(s@, i as int, cv)));
            }
        }
    }
}

/// Name of the element that wraps a fragment with several top-level elements.
pub open spec fn fragment_root_name() -> Seq<u8> {
    seq![35u8]
}

/// Parses an XML text into its root element. A prolog, comments and white
/// space around the root are dropped; a fragment with several top-level
/// elements is wrapped in an element named `#` that holds them in order.
/// It succeeds exactly on the texts that [`spec_parses`] accepts.
pub fn parse(s: &[u8]) -> (r: DocResult<Element>)
    ensures
        r matches Ok(root) ==> (wf_element(root) || (root.name@ == fragment_root_name()
            && wf_attrs(root.attrs@) && wf_nodes(root.children@))),
        r matches Err(e) ==> e.kind == ErrorKind::Internal,
        r is Ok <==> spec_parses(s@),
{
    let (nodes, _) = parse_nodes(s, 0, None)?;
    let mut count: usize = 0;
    let mut last: usize = 0;
    let mut i: usize = 0;
    while i < nodes.len()
        invariant
            i <= nodes@.len(),
            count <= i,
            count > 0 ==> last < i && nodes@[last as int] is Element,
            count == 0 ==> forall|j: int| 0 <= j < i ==> !(#[trigger] nodes@[j] is Element),
        decreases nodes@.len() - i,
    {
        if let Node::Element(_) = &nodes[i] {
            count = count + 1;
            last = i;
        }
        i = i + 1;
    }
    if count == 0 {
        return Err(parse_error("没有根元素"));
    }
    if count == 1 {
        let mut nodes = nodes;
        let n = nodes.swap_remove(last);
        match n {
            Node::Element(e) => {
                return Ok(e);
            },
            Node::Text(_) => {
                return Err(parse_error("没有根元素"));
            },
        }
    }
    let mut name: Vec<u8> = Vec::new();
    name.push(35u8);
    assert(name@ =~= fragment_root_name());
    Ok(Element { name, attrs: Vec::new(), children: nodes })
}


} // verus!
