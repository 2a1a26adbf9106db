use vstd::prelude::*;
use quick_xml::events::Event::{Start, End, Empty, Text, Eof};
use quick_xml::Reader;

verus! {

#[verifier::external_type_specification]
#[verifier::external_body]
#[verifier::reject_recursive_types(R)]
pub struct ExReader<R>(Reader<R>);

/// A token of the XML stream, as plain values.
#[derive(Debug)]
pub enum XmlToken {
    /// An opening tag, with its full name.
    Start(Vec<u8>),
    /// A closing tag, with its full name.
    End(Vec<u8>),
    /// A self-closing tag, with its full name.
    Empty(Vec<u8>),
    /// Character data (still escaped).
    Text(Vec<u8>),
    /// CDATA, a comment, the declaration, a processing instruction or a document type.
    Other,
    /// End of the input.
    Eof,
    /// The input is not well-formed here; the message says why.
    Error(Vec<u8>),
}

/// A token as plain values (an error's message left out).
pub enum TokenV {
    Start(Seq<u8>),
    End(Seq<u8>),
    Empty(Seq<u8>),
    Text(Seq<u8>),
    Other,
    Eof,
    Error,
}

impl View for XmlToken {
    type V = TokenV;

    open spec fn view(&self) -> TokenV {
        match self {
            XmlToken::Start(n) => TokenV::Start(n@),
            XmlToken::End(n) => TokenV::End(n@),
            XmlToken::Empty(n) => TokenV::Empty(n@),
            XmlToken::Text(t) => TokenV::Text(t@),
            XmlToken::Other => TokenV::Other,
            XmlToken::Eof => TokenV::Eof,
            XmlToken::Error(_) => TokenV::Error,
        }
    }
}

/// The tokens that `quick_xml::Reader::read_event` yields on `src` (text
/// trimmed when `trim`), each with the reader's `buffer_position` after it,
/// from the first token up to and including the first end of input or error.
pub uninterp spec fn xml_events(src: Seq<u8>, trim: bool) -> Seq<(TokenV, nat)>;

/// A token stream over XML bytes, with the byte position reached and the
/// number of tokens read.
pub struct XmlScan<'a> {
    reader: Reader<&'a [u8]>,
    pos: usize,
    len: usize,
    src: Ghost<Seq<u8>>,
    trim: Ghost<bool>,
    count: Ghost<nat>,
}

impl<'a> XmlScan<'a> {
    /// The byte position reached in the input.
    pub closed spec fn pos(&self) -> nat {
        self.pos as nat
    }

    /// The byte length of the input.
    pub closed spec fn len(&self) -> nat {
        self.len as nat
    }

    /// The input.
    pub closed spec fn src(&self) -> Seq<u8> {
        self.src@
    }

    /// Whether text is trimmed.
    pub closed spec fn trim(&self) -> bool {
        self.trim@
    }

    /// How many tokens were read.
    pub closed spec fn count(&self) -> nat {
        self.count@
    }

    /// The tokens of the input, as [`xml_events`] names them.
    pub open spec fn events(&self) -> Seq<(TokenV, nat)> {
        xml_events(self.src(), self.trim())
    }
}

/// Where the `k`-th token starts: where the one before it ended.
pub open spec fn ev_start(evs: Seq<(TokenV, nat)>, k: int) -> nat {
    if k <= 0 {
        0
    } else {
        evs[k - 1].1
    }
}

/// Opens a token stream on `src` (`quick_xml::Reader::from_reader`), with
/// text trimmed or not (`Config::trim_text`). Claims: nothing is read yet;
/// the reader yields at least one token (an end of input at the least).
#[verifier::external_body]
pub(crate) fn scan_open<'a>(src: &'a [u8], trim: bool) -> (sc: XmlScan<'a>)
    ensures
        sc.pos() == 0,
        sc.len() == src@.len(),
        sc.src() == src@,
        sc.trim() == trim,
        sc.count() == 0,
        xml_events(sc.src(), sc.trim()).len() > 0,
{
    let mut reader = Reader::from_reader(src);
    reader.config_mut().trim_text(trim);
    XmlScan { reader, pos: 0, len: src.len(), src: Ghost(src@), trim: Ghost(trim), count: Ghost(0) }
}

/// Reads the next token (`Reader::read_event`) and the byte span it covers,
/// from the position before the call to `Reader::buffer_position` after it.
/// Claims: the position never moves back nor past the input, a token other
/// than the end of input or an error covers at least one byte (each event
/// of quick-xml consumes the markup or the non-empty text it reports), and
/// the `k`-th call reads the `k`-th token of [`xml_events`], the last of
/// which is the first end of input or error.
#[verifier::external_body]
pub(crate) fn scan_next(sc: &mut XmlScan) -> (r: (XmlToken, usize, usize))
    ensures
        final(sc).len() == old(sc).len(),
        final(sc).src() == old(sc).src(),
        final(sc).trim() == old(sc).trim(),
        final(sc).count() == old(sc).count() + 1,
        r.1 == old(sc).pos(),
        r.2 == final(sc).pos(),
        r.1 <= r.2 <= final(sc).len(),
        !(r.0 is Eof) && !(r.0 is Error) ==> r.1 < r.2,
        old(sc).count() < xml_events(old(sc).src(), old(sc).trim()).len() ==> r.0@ == xml_events(
            old(sc).src(),
            old(sc).trim(),
        )[old(sc).count() as int].0 && r.2 == xml_events(old(sc).src(), old(sc).trim())[old(sc).count() as int].1
            && ((r.0 is Eof || r.0 is Error) <==> old(sc).count() + 1 == xml_events(old(sc).src(), old(sc).trim()).len()),
{
    let start = sc.pos;
    let tok = match sc.reader.read_event() {
        Ok(Start(e)) => XmlToken::Start(e.name().0.to_vec()),
        Ok(End(e)) => XmlToken::End(e.name().0.to_vec()),
        Ok(Empty(e)) => XmlToken::Empty(e.name().0.to_vec()),
        Ok(Text(t)) => XmlToken::Text(t.as_ref().to_vec()),
        Ok(Eof) => XmlToken::Eof,
        Ok(_) => XmlToken::Other,
        Err(e) => XmlToken::Error(format!("{e}").into_bytes()),
    };
    sc.pos = sc.reader.buffer_position() as usize;
    sc.count = Ghost((sc.count@ + 1) as nat);
    (tok, start, sc.pos)
}

/// A direct child of the root element: its byte span in the input, its full name.
#[derive(Debug)]
pub struct Child {
    pub start: usize,
    pub end: usize,
    pub name: Vec<u8>,
    pub self_closed: bool,
}

/// Spans that lie in order inside an input of length `len`, none empty.
pub open spec fn children_ok(cs: Seq<Child>, len: nat) -> bool {
    &&& forall|i: int| 0 <= i < cs.len() ==> (#[trigger] cs[i]).start < cs[i].end <= len
    &&& forall|i: int, j: int| 0 <= i < j < cs.len() ==> (#[trigger] cs[i]).end <= (#[trigger] cs[j]).start
}

/// A direct child as plain values: start, end, name, self-closed.
pub open spec fn child_view(c: Child) -> (usize, usize, Seq<u8>, bool) {
    (c.start, c.end, c.name@, c.self_closed)
}

pub open spec fn child_views(cs: Seq<Child>) -> Seq<(usize, usize, Seq<u8>, bool)> {
    cs.map_values(|c: Child| child_view(c))
}

/// Where the walk over the root's children stands: the depth below the
/// root, whether the root was seen and whether it is closed, the child open
/// at the top (its start and name), the children found.
#[verifier::ext_equal]
pub struct RootWalkV {
    pub depth: nat,
    pub root_seen: bool,
    pub closed: bool,
    pub open: Option<(usize, Seq<u8>)>,
    pub out: Seq<(usize, usize, Seq<u8>, bool)>,
}

/// One token of the walk inside the root, spanning `[st, en)`.
pub open spec fn root_step(w: RootWalkV, tok: TokenV, st: usize, en: usize) -> RootWalkV {
    match tok {
        TokenV::Start(n) => if !w.root_seen {
            RootWalkV { root_seen: true, ..w }
        } else {
            RootWalkV {
                depth: w.depth + 1,
                open: if w.depth == 0 && w.open is None {
                    Some((st, n))
                } else {
                    w.open
                },
                ..w
            }
        },
        TokenV::End(_) => if w.depth == 0 {
            RootWalkV { closed: true, ..w }
        } else {
            let d = (w.depth - 1) as nat;
            if d == 0 {
                match w.open {
                    Some(o) => RootWalkV { depth: d, open: None, out: w.out.push((o.0, en, o.1, false)), ..w },
                    None => RootWalkV { depth: d, ..w },
                }
            } else {
                RootWalkV { depth: d, ..w }
            }
        },
        TokenV::Empty(n) => if !w.root_seen {
            RootWalkV { root_seen: true, closed: true, ..w }
        } else if w.depth == 0 {
            RootWalkV { out: w.out.push((st, en, n, true)), ..w }
        } else {
            w
        },
        _ => w,
    }
}

/// The children found at the end of the input: none unless the one root
/// was closed with nothing left open.
pub open spec fn root_finish(w: RootWalkV) -> Option<Seq<(usize, usize, Seq<u8>, bool)>> {
    if !w.closed || w.depth != 0 || w.open is Some {
        None
    } else {
        Some(w.out)
    }
}

/// Whether a token cannot come where the walk stands: an element after the
/// root was closed, or a closing tag outside the root.
pub open spec fn root_refused(w: RootWalkV, tok: TokenV) -> bool {
    match tok {
        TokenV::Start(_) => w.closed,
        TokenV::Empty(_) => w.closed,
        TokenV::End(_) => w.depth == 0 && (!w.root_seen || w.closed),
        _ => false,
    }
}

/// The walk over the tokens from the `k`-th on to the end of the input. It
/// fails at an error, at a second root element and at a stray closing tag.
pub open spec fn root_from(evs: Seq<(TokenV, nat)>, k: int, w: RootWalkV) -> Option<Seq<(usize, usize, Seq<u8>, bool)>>
    decreases evs.len() - k,
{
    if k < 0 || k >= evs.len() {
        None
    } else {
        match evs[k].0 {
            TokenV::Eof => root_finish(w),
            TokenV::Error => None,
            tok => if root_refused(w, tok) {
                None
            } else {
                root_from(evs, k + 1, root_step(w, tok, ev_start(evs, k) as usize, evs[k].1 as usize))
            },
        }
    }
}

/// The direct children of the root element of `s`, as [`xml_events`] reads it.
pub open spec fn spec_root_children(s: Seq<u8>) -> Option<Seq<(usize, usize, Seq<u8>, bool)>> {
    root_from(xml_events(s, false), 0, RootWalkV { depth: 0, root_seen: false, closed: false, open: None, out: seq![] })
}

pub open spec fn open_view(o: Option<(usize, Vec<u8>)>) -> Option<(usize, Seq<u8>)> {
    match o {
        Some(x) => Some((x.0, x.1@)),
        None => None,
    }
}

/// The direct children of the root element of `s`, in order. `None` when
/// the text does not scan as one closed element (an error, no root, an
/// element left open, or more than one root).
pub fn root_children(s: &[u8]) -> (r: Option<Vec<Child>>)
    ensures
        r matches Some(cs) ==> children_ok(cs@, s@.len()),
        match r {
            Some(cs) => spec_root_children(s@) == Some(child_views(cs@)),
            None => spec_root_children(s@) is None,
        },
{
    let mut sc = scan_open(s, false);
    let ghost evs = xml_events(s@, false);
    let mut out: Vec<Child> = Vec::new();
    let mut depth: usize = 0;
    let mut root_seen = false;
    let mut closed = false;
    let mut open: Option<(usize, Vec<u8>)> = None;
    assert(child_views(out@) =~= seq![]);
    loop
        invariant_except_break
            sc.count() < evs.len(),
            sc.pos() == ev_start(evs, sc.count() as int),
            root_from(
                evs,
                sc.count() as int,
                RootWalkV { depth: depth as nat, root_seen, closed, open: open_view(open), out: child_views(out@) },
            ) == spec_root_children(s@),
        invariant
            sc.src() == s@,
            !sc.trim(),
            evs == xml_events(s@, false),
            !root_seen ==> depth == 0 && open is None && !closed,
            sc.len() == s@.len(),
            sc.pos() <= s@.len(),
            depth <= sc.pos(),
            children_ok(out@, s@.len()),
            forall|i: int| 0 <= i < out@.len() ==> (#[trigger] out@[i]).end <= sc.pos(),
            open matches Some(o) ==> o.0 < sc.pos() && forall|i: int| 0 <= i < out@.len() ==> (
            #[trigger] out@[i]).end <= o.0,
            open is Some ==> depth > 0,
        ensures
            root_finish(RootWalkV { depth: depth as nat, root_seen, closed, open: open_view(open), out: child_views(out@) })
                == spec_root_children(s@),
        decreases s@.len() - sc.pos(),
    {
        let ghost w0 = RootWalkV { depth: depth as nat, root_seen, closed, open: open_view(open), out: child_views(out@) };
        let ghost out0 = out@;
        let (tok, st, en) = scan_next(&mut sc);
        let ghost tv = tok@;
        match tok {
            XmlToken::Start(name) => {
                if closed {
                    return None;
                }
                if !root_seen {
                    root_seen = true;
                } else {
                    if depth == 0 && open.is_none() {
                        open = Some((st, name));
                    }
                    depth = depth + 1;
                }
            },
            XmlToken::End(_) => {
                if depth == 0 {
                    if !root_seen || closed {
                        return None;
                    }
                    closed = true;
                } else {
                    depth = depth - 1;
                    if depth == 0 {
                        if let Some((o, name)) = open {
                            out.push(Child { start: o, end: en, name, self_closed: false });
                            open = None;
                        }
                    }
                }
            },
            XmlToken::Empty(name) => {
                if closed {
                    return None;
                }
                if !root_seen {
                    root_seen = true;
                    closed = true;
                } else if depth == 0 {
                    out.push(Child { start: st, end: en, name, self_closed: true });
                }
            },
            XmlToken::Eof => {
                break;
            },
            XmlToken::Error(_) => {
                return None;
            },
            _ => {},
        }
        proof {
            assert(sc.count() < evs.len());
            if out@.len() > out0.len() {
                assert(out@ =~= out0.push(out@.last()));
                assert(child_views(out@) =~= child_views(out0).push(child_view(out@.last())));
            } else {
                assert(out@ =~= out0);
            }
            assert(RootWalkV { depth: depth as nat, root_seen, closed, open: open_view(open), out: child_views(out@) }
                =~= root_step(w0, tv, st, en));
        }
    }
    if !closed || depth != 0 || open.is_some() {
        return None;
    }
    Some(out)
}

} // verus!
