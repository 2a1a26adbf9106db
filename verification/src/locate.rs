use vstd::prelude::*;
use vstd::string::StringSliceAdditionalSpecFns;
use crate::bytes_util::{push_bytes, str_bytes, bytes_eq, eq_str};
use crate::error::{DocError, DocResult, ErrorKind};
use crate::xml_scan::{scan_open, scan_next, XmlToken, TokenV, xml_events, ev_start};

verus! {

/// The byte span `[start, end)` of one addressable block of `document.xml`.
#[derive(Debug, Clone, Copy, PartialEq, Eq, Structural)]
pub struct BlockSpan {
    pub start: usize,
    pub end: usize,
    /// A `w:tbl` block (else a paragraph).
    pub is_table: bool,
}

// ---------------------------------------------------------------------------
// Direct children of an element, by name
// ---------------------------------------------------------------------------

/// Where a walk for direct children stands: how deep inside an element of
/// the wanted name, where the outermost open one started, the spans found,
/// and whether a closing tag came without an opening one.
pub struct ChildWalk {
    pub depth: usize,
    pub open: Option<usize>,
    pub spans: Vec<(usize, usize)>,
    pub broken: bool,
}

pub struct ChildWalkV {
    pub depth: nat,
    pub open: Option<usize>,
    pub spans: Seq<(usize, usize)>,
    pub broken: bool,
}

impl View for ChildWalk {
    type V = ChildWalkV;

    open spec fn view(&self) -> ChildWalkV {
        ChildWalkV { depth: self.depth as nat, open: self.open, spans: self.spans@, broken: self.broken }
    }
}

/// One token of the walk for elements named `t`, spanning `[st, en)`.
pub open spec fn child_step(w: ChildWalkV, tok: TokenV, t: Seq<u8>, st: usize, en: usize) -> ChildWalkV {
    match tok {
        TokenV::Start(n) => if n == t {
            ChildWalkV {
                depth: w.depth + 1,
                open: if w.depth == 0 {
                    Some(st)
                } else {
                    w.open
                },
                ..w
            }
        } else {
            w
        },
        TokenV::End(n) => if n == t {
            if w.depth == 0 {
                ChildWalkV { broken: true, ..w }
            } else if w.depth == 1 {
                ChildWalkV {
                    depth: 0,
                    open: None,
                    spans: match w.open {
                        Some(o) => w.spans.push((o, en)),
                        None => w.spans,
                    },
                    ..w
                }
            } else {
                ChildWalkV { depth: (w.depth - 1) as nat, ..w }
            }
        } else {
            w
        },
        TokenV::Empty(n) => if n == t && w.depth == 0 {
            ChildWalkV { spans: w.spans.push((st, en)), ..w }
        } else {
            w
        },
        _ => w,
    }
}

/// The walk over the tokens from the `k`-th on: the spans of the direct
/// children named `t`, or none when the markup is not balanced or does not
/// scan.
pub open spec fn children_from(evs: Seq<(TokenV, nat)>, t: Seq<u8>, k: int, w: ChildWalkV) -> Seq<(usize, usize)>
    decreases evs.len() - k,
{
    if k < 0 || k >= evs.len() {
        seq![]
    } else {
        match evs[k].0 {
            TokenV::Eof => if w.depth == 0 && w.open is None {
                w.spans
            } else {
                seq![]
            },
            TokenV::Error => seq![],
            tok => {
                let w2 = child_step(w, tok, t, ev_start(evs, k) as usize, evs[k].1 as usize);
                if w2.broken {
                    seq![]
                } else {
                    children_from(evs, t, k + 1, w2)
                }
            },
        }
    }
}

/// The spans of the direct children `w:name` of the markup `s` (deeper
/// elements of that name are passed over); none when `s` is not balanced.
pub open spec fn spec_direct_children(s: Seq<u8>, name: Seq<u8>) -> Seq<(usize, usize)> {
    children_from(
        xml_events(s, false),
        "w:".spec_bytes() + name,
        0,
        ChildWalkV { depth: 0, open: None, spans: seq![], broken: false },
    )
}

/// One token of the walk; see [`child_step`].
pub fn child_walk_step(w: &mut ChildWalk, tok: &XmlToken, t: &[u8], st: usize, en: usize)
    requires
        old(w).depth < usize::MAX,
    ensures
        final(w)@ == child_step(old(w)@, tok@, t@, st, en),
{
    match tok {
        XmlToken::Start(n) => {
            if bytes_eq(n.as_slice(), t) {
                if w.depth == 0 {
                    w.open = Some(st);
                }
                w.depth = w.depth + 1;
            }
        },
        XmlToken::End(n) => {
            if bytes_eq(n.as_slice(), t) {
                if w.depth == 0 {
                    w.broken = true;
                } else if w.depth == 1 {
                    w.depth = 0;
                    match w.open {
                        Some(o) => {
                            w.spans.push((o, en));
                        },
                        None => {},
                    }
                    w.open = None;
                } else {
                    w.depth = w.depth - 1;
                }
            }
        },
        XmlToken::Empty(n) => {
            if bytes_eq(n.as_slice(), t) && w.depth == 0 {
                w.spans.push((st, en));
            }
        },
        _ => {},
    }
}

/// Spans that lie in order inside a text of length `len`, none empty.
pub open spec fn spans_ok(sp: Seq<(usize, usize)>, len: nat) -> bool {
    &&& forall|i: int| 0 <= i < sp.len() ==> (#[trigger] sp[i]).0 < sp[i].1 <= len
    &&& forall|i: int, j: int| 0 <= i < j < sp.len() ==> (#[trigger] sp[i]).1 <= (#[trigger] sp[j]).0
}

/// The spans of the direct children `w:name` of `s`; see [`spec_direct_children`].
pub fn direct_children_spans(s: &[u8], name: &[u8]) -> (r: Vec<(usize, usize)>)
    ensures
        r@ == spec_direct_children(s@, name@),
        spans_ok(r@, s@.len()),
{
    let mut target = str_bytes("w:");
    push_bytes(&mut target, name);
    let mut sc = scan_open(s, false);
    let ghost evs = xml_events(s@, false);
    let mut w = ChildWalk { depth: 0, open: None, spans: Vec::new(), broken: false };
    assert(w@ == ChildWalkV { depth: 0, open: None, spans: seq![], broken: false });
    loop
        invariant
            sc.src() == s@,
            !sc.trim(),
            evs == xml_events(s@, false),
            sc.len() == s@.len(),
            sc.pos() <= s@.len(),
            sc.count() < evs.len(),
            sc.pos() == ev_start(evs, sc.count() as int),
            w.depth <= sc.pos(),
            !w.broken,
            spans_ok(w.spans@, sc.pos()),
            w.depth == 0 ==> w.open is None,
            w.open matches Some(o) ==> o < sc.pos() && forall|i: int| 0 <= i < w.spans@.len() ==> (#[trigger] w.spans@[i]).1 <= o,
            children_from(evs, target@, sc.count() as int, w@) == spec_direct_children(s@, name@),
        decreases s@.len() - sc.pos(),
    {
        let ghost k = sc.count() as int;
        let (tok, st, en) = scan_next(&mut sc);
        match tok {
            XmlToken::Eof => {
                if w.depth == 0 && w.open.is_none() {
                    return w.spans;
                }
                return Vec::new();
            },
            XmlToken::Error(_) => {
                return Vec::new();
            },
            _ => {},
        }
        let ghost sp0 = w.spans@;
        let ghost o0 = w.open;
        child_walk_step(&mut w, &tok, target.as_slice(), st, en);
        if w.broken {
            return Vec::new();
        }
        assert(sc.count() < evs.len());
        proof {
            if w.spans@.len() > sp0.len() {
                assert(w.spans@ =~= sp0.push(w.spans@.last()));
            } else {
                assert(w.spans@ =~= sp0);
            }
        }
    }
}

// ---------------------------------------------------------------------------
// The addressable blocks of document.xml
// ---------------------------------------------------------------------------

/// Where the block walk stands: the open elements (whether each one is a
/// block sequence, its name, where it started if it is a block), the spans
/// found, whether `w:body` was seen and whether it is closed.
pub struct LocateWalk {
    pub stack: Vec<(bool, Vec<u8>, Option<usize>)>,
    pub spans: Vec<BlockSpan>,
    pub seen_body: bool,
    pub done: bool,
}

pub struct LocateWalkV {
    pub stack: Seq<(bool, Seq<u8>, Option<usize>)>,
    pub spans: Seq<BlockSpan>,
    pub seen_body: bool,
    pub done: bool,
}

pub open spec fn stack_view(s: Seq<(bool, Vec<u8>, Option<usize>)>) -> Seq<(bool, Seq<u8>, Option<usize>)> {
    s.map_values(|f: (bool, Vec<u8>, Option<usize>)| (f.0, f.1@, f.2))
}

impl View for LocateWalk {
    type V = LocateWalkV;

    open spec fn view(&self) -> LocateWalkV {
        LocateWalkV {
            stack: stack_view(self.stack@),
            spans: self.spans@,
            seen_body: self.seen_body,
            done: self.done,
        }
    }
}

/// The elements that stand between blocks and hold none: section
/// properties, bookmarks, proofing marks.
pub open spec fn passed_over(n: Seq<u8>) -> bool {
    n == "w:sectPr".spec_bytes() || n == "w:bookmarkStart".spec_bytes() || n == "w:bookmarkEnd".spec_bytes()
        || n == "w:proofErr".spec_bytes()
}

pub open spec fn is_block_name(n: Seq<u8>) -> bool {
    n == "w:p".spec_bytes() || n == "w:tbl".spec_bytes()
}

/// The innermost open element is a block sequence.
pub open spec fn in_block_seq(stack: Seq<(bool, Seq<u8>, Option<usize>)>) -> bool {
    stack.len() > 0 && stack.last().0
}

/// One token of the block walk, spanning `[st, en)`: a paragraph or table
/// in a block sequence is a block (whole, its inside not walked); the
/// passed-over elements hold none; any other element in a block sequence
/// is walked through as one; nothing counts before `w:body` or after it.
/// Only a `w:body` inside a root `w:document` is the body.
pub open spec fn locate_step(w: LocateWalkV, tok: TokenV, st: usize, en: usize) -> LocateWalkV {
    if w.done {
        w
    } else {
        match tok {
            TokenV::Start(n) => if !w.seen_body {
                if n == "w:body".spec_bytes() && w.stack.len() > 0 && w.stack[0].1 == "w:document".spec_bytes() {
                    LocateWalkV { seen_body: true, stack: w.stack.push((true, n, None)), ..w }
                } else {
                    LocateWalkV { stack: w.stack.push((false, n, None)), ..w }
                }
            } else if in_block_seq(w.stack) && is_block_name(n) {
                LocateWalkV { stack: w.stack.push((false, n, Some(st))), ..w }
            } else if in_block_seq(w.stack) && passed_over(n) {
                LocateWalkV { stack: w.stack.push((false, n, None)), ..w }
            } else if in_block_seq(w.stack) {
                LocateWalkV { stack: w.stack.push((true, n, None)), ..w }
            } else {
                LocateWalkV { stack: w.stack.push((false, n, None)), ..w }
            },
            TokenV::Empty(n) => if in_block_seq(w.stack) && is_block_name(n) {
                LocateWalkV {
                    spans: w.spans.push(BlockSpan { start: st, end: en, is_table: n == "w:tbl".spec_bytes() }),
                    ..w
                }
            } else {
                w
            },
            TokenV::End(_) => if w.stack.len() == 0 {
                w
            } else {
                let f = w.stack.last();
                LocateWalkV {
                    stack: w.stack.drop_last(),
                    spans: match f.2 {
                        Some(start) => w.spans.push(
                            BlockSpan { start, end: en, is_table: f.1 == "w:tbl".spec_bytes() },
                        ),
                        None => w.spans,
                    },
                    done: f.1 == "w:body".spec_bytes(),
                    ..w
                }
            },
            _ => w,
        }
    }
}

/// The block walk over the tokens from the `k`-th on: the spans, or `None`
/// when the markup does not scan or has no `w:body` inside a root `w:document`.
pub open spec fn locate_from(evs: Seq<(TokenV, nat)>, k: int, w: LocateWalkV) -> Option<Seq<BlockSpan>>
    decreases evs.len() - k,
{
    if k < 0 || k >= evs.len() {
        None
    } else {
        match evs[k].0 {
            TokenV::Eof => if w.seen_body {
                Some(w.spans)
            } else {
                None
            },
            TokenV::Error => None,
            tok => locate_from(evs, k + 1, locate_step(w, tok, ev_start(evs, k) as usize, evs[k].1 as usize)),
        }
    }
}

/// The addressable blocks of `document.xml` text, in order.
pub open spec fn spec_locate(xml: Seq<u8>) -> Option<Seq<BlockSpan>> {
    locate_from(
        xml_events(xml, false),
        0,
        LocateWalkV { stack: seq![], spans: seq![], seen_body: false, done: false },
    )
}

/// One token of the block walk; see [`locate_step`].
pub fn locate_walk_step(w: &mut LocateWalk, tok: &XmlToken, st: usize, en: usize)
    ensures
        final(w)@ == locate_step(old(w)@, tok@, st, en),
{
    if w.done {
        return;
    }
    let ghost w0 = w@;
    match tok {
        XmlToken::Start(n) => {
            let in_seq = w.stack.len() > 0 && w.stack[w.stack.len() - 1].0;
            proof {
                if w.stack@.len() > 0 {
                    assert(stack_view(w.stack@).last() == (w.stack@.last().0, w.stack@.last().1@, w.stack@.last().2));
                }
            }
            assert(in_seq == in_block_seq(w0.stack));
            let name = n.clone();
            assert(name@ == n@);
            let under_document = w.stack.len() > 0 && eq_str(w.stack[0].1.as_slice(), "w:document");
            proof {
                if w.stack@.len() > 0 {
                    assert(stack_view(w.stack@)[0] == (w.stack@[0].0, w.stack@[0].1@, w.stack@[0].2));
                }
            }
            let frame = if !w.seen_body {
                if eq_str(n.as_slice(), "w:body") && under_document {
                    w.seen_body = true;
                    (true, name, None)
                } else {
                    (false, name, None)
                }
            } else if in_seq && (eq_str(n.as_slice(), "w:p") || eq_str(n.as_slice(), "w:tbl")) {
                (false, name, Some(st))
            } else if in_seq && (eq_str(n.as_slice(), "w:sectPr") || eq_str(n.as_slice(), "w:bookmarkStart")
                || eq_str(n.as_slice(), "w:bookmarkEnd") || eq_str(n.as_slice(), "w:proofErr")) {
                (false, name, None)
            } else if in_seq {
                (true, name, None)
            } else {
                (false, name, None)
            };
            let ghost fv = (frame.0, frame.1@, frame.2);
            w.stack.push(frame);
            assert(stack_view(w.stack@) =~= w0.stack.push(fv));
        },
        XmlToken::Empty(n) => {
            let in_seq = w.stack.len() > 0 && w.stack[w.stack.len() - 1].0;
            proof {
                if w.stack@.len() > 0 {
                    assert(stack_view(w.stack@).last() == (w.stack@.last().0, w.stack@.last().1@, w.stack@.last().2));
                }
            }
            if in_seq && (eq_str(n.as_slice(), "w:p") || eq_str(n.as_slice(), "w:tbl")) {
                let is_table = eq_str(n.as_slice(), "w:tbl");
                w.spans.push(BlockSpan { start: st, end: en, is_table });
            }
        },
        XmlToken::End(_) => {
            if w.stack.len() > 0 {
                let f = w.stack.pop().unwrap();
                assert(stack_view(w.stack@) =~= w0.stack.drop_last());
                assert(w0.stack.last() == (f.0, f.1@, f.2));
                match f.2 {
                    Some(start) => {
                        let is_table = eq_str(f.1.as_slice(), "w:tbl");
                        w.spans.push(BlockSpan { start, end: en, is_table });
                    },
                    None => {},
                }
                w.done = eq_str(f.1.as_slice(), "w:body");
            }
        },
        _ => {},
    }
}

/// Locates every addressable block of `document.xml` text: the same walk
/// as the document model, on byte spans. Needs a root `w:document` holding
/// a `w:body`; any other root is refused.
pub fn locate_blocks(xml: &[u8]) -> (r: DocResult<Vec<BlockSpan>>)
    ensures
        match spec_locate(xml@) {
            Some(spans) => r matches Ok(v) && v@ == spans,
            None => r matches Err(e) && e.kind == ErrorKind::Internal,
        },
{
    let mut sc = scan_open(xml, false);
    let ghost evs = xml_events(xml@, false);
    let mut w = LocateWalk { stack: Vec::new(), spans: Vec::new(), seen_body: false, done: false };
    assert(w@ == LocateWalkV { stack: seq![], spans: seq![], seen_body: false, done: false }) by {
        assert(stack_view(w.stack@) =~= seq![]);
    }
    loop
        invariant
            sc.src() == xml@,
            !sc.trim(),
            evs == xml_events(xml@, false),
            sc.len() == xml@.len(),
            sc.pos() <= xml@.len(),
            sc.count() < evs.len(),
            sc.pos() == ev_start(evs, sc.count() as int),
            locate_from(evs, sc.count() as int, w@) == spec_locate(xml@),
        decreases xml@.len() - sc.pos(),
    {
        let (tok, st, en) = scan_next(&mut sc);
        match tok {
            XmlToken::Eof => {
                if !w.seen_body {
                    return Err(
                        DocError::internal(
                            str_bytes("document.xml 缺少 w:body（编辑要求标准 w:document/w:body 结构）"),
                        ),
                    );
                }
                return Ok(w.spans);
            },
            XmlToken::Error(msg) => {
                let mut m = str_bytes("document.xml 扫描失败: ");
                push_bytes(&mut m, msg.as_slice());
                return Err(DocError::internal(m));
            },
            _ => {},
        }
        locate_walk_step(&mut w, &tok, st, en);
        assert(sc.count() < evs.len());
    }
}

} // verus!
