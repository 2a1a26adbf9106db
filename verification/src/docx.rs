use vstd::prelude::*;
use vstd::utf8::*;
use vstd::string::StringSliceAdditionalSpecFns;
use crate::bytes_util::{str_bytes, slice_vec, trim, trimmed, is_blank, ws_len, ws_len_at, eq_str, trim_start_from, trim_end_to, trim_start_pos, trim_end_pos};
use crate::error::{DocError, DocResult, ErrorKind};
use crate::zip_io::{MAX_ENTRY_BYTES, MAX_ENTRY_NAME_CHARS, entries_small, distinct_names, zip_entry_of, zip_by_name, zip_open, zip_len, zip_name_is, zip_writer_new, copy_entry, zip_write_file, zip_finish, archive_names, archive_source, writer_entries, entry_names};
use crate::xml_dom;
use crate::docx_model::{build_document, document_text, decode_entities_into, spec_decode, spec_build, blocks_text_of};

verus! {

/// The bytes made valid UTF-8 (invalid sequences replaced): the result is
/// UTF-8, and valid input is returned unchanged.
pub fn lossy_utf8(v: &[u8]) -> (r: Vec<u8>)
    ensures
        valid_utf8(r@),
        valid_utf8(v@) ==> r@ == v@,
{
    let s = crate::error::bytes_to_string(v);
    let st = s.as_str();
    let b = st.as_bytes();
    proof {
        assert(b@ == encode_utf8(st@));
        encode_utf8_valid_utf8(st@);
        if valid_utf8(v@) {
            decode_utf8_encode_utf8(v@);
        }
    }
    let r = slice_vec(b, 0, b.len());
    assert(r@ =~= b@);
    r
}

/// What reading a text part of a package gives: the bytes made valid UTF-8.
pub open spec fn part_text_ok(content: Seq<u8>, v: Seq<u8>) -> bool {
    valid_utf8(v) && (valid_utf8(content) ==> v == content)
}

/// Reads a part of a docx package as text. A missing part is `Ok(None)`; a
/// package that is no archive, or a part that cannot be read, is an internal error.
pub fn read_entry(bytes: &[u8], name: &str) -> (r: DocResult<Option<Vec<u8>>>)
    ensures
        match zip_entry_of(bytes@, name@) {
            None => r matches Err(e) && e.kind == ErrorKind::Internal,
            Some(None) => r matches Ok(None),
            Some(Some(c)) => r matches Ok(Some(v)) && part_text_ok(c, v@),
        },
{
    let copy = slice_vec(bytes, 0, bytes.len());
    assert(copy@ =~= bytes@);
    let mut archive = match zip_open(copy) {
        Ok(a) => a,
        Err(msg) => {
            assert(zip_entry_of(bytes@, name@) is None);
            return Err(DocError::internal(msg));
        },
    };
    match zip_by_name(&mut archive, name) {
        Ok(Some(raw)) => Ok(Some(lossy_utf8(raw.as_slice()))),
        Ok(None) => Ok(None),
        Err(msg) => Err(DocError::internal(msg)),
    }
}

/// Reads `word/document.xml`; a package without it is an internal error.
pub fn read_document_xml(bytes: &[u8]) -> (r: DocResult<Vec<u8>>)
    ensures
        match zip_entry_of(bytes@, "word/document.xml"@) {
            Some(Some(c)) => r matches Ok(v) && part_text_ok(c, v@),
            _ => r matches Err(e) && e.kind == ErrorKind::Internal,
        },
{
    match read_entry(bytes, "word/document.xml")? {
        Some(v) => Ok(v),
        None => Err(DocError::internal(str_bytes("docx 内缺少 word/document.xml"))),
    }
}

/// The entries of a package once `part` is replaced by `new_xml`.
pub open spec fn repacked_entries(names: Seq<Seq<char>>, src: Seq<u8>, part: Seq<char>, new_xml: Seq<u8>) -> Seq<
    (Seq<char>, Option<Option<Seq<u8>>>),
> {
    Seq::new(
        names.len(),
        |j: int|
            (
                names[j],
                if names[j] == part {
                    Some(Some(new_xml))
                } else {
                    zip_entry_of(src, names[j])
                },
            ),
    )
}

/// Every entry of a package reads, under a name and with content small
/// enough to be written again (so the package opens).
pub open spec fn package_copyable(bytes: Seq<u8>) -> bool {
    forall|n: Seq<char>| #[trigger] zip_entry_of(bytes, n) != Some(None::<Seq<u8>>) ==> (zip_entry_of(bytes, n) matches Some(
        Some(c),
    ) && c.len() <= MAX_ENTRY_BYTES && n.len() <= MAX_ENTRY_NAME_CHARS)
}

/// Repacks a package with `part` replaced by `new_xml`; every other entry is
/// copied without recompression. A package without `part` is repacked
/// unchanged. A package whose entries all read is repacked.
pub fn repack_part(bytes: &[u8], part: &str, new_xml: &[u8]) -> (r: DocResult<Vec<u8>>)
    ensures
        package_copyable(bytes@) && new_xml@.len() <= MAX_ENTRY_BYTES ==> r is Ok,
        r matches Ok(out) ==> {
            &&& forall|n: Seq<char>| n != part@ ==> zip_entry_of(out@, n) == zip_entry_of(bytes@, n)
            &&& zip_entry_of(out@, part@) == if zip_entry_of(bytes@, part@) == Some(None::<Seq<u8>>) {
                Some(None::<Seq<u8>>)
            } else {
                Some(Some(new_xml@))
            }
        },
        r matches Err(e) ==> e.kind == ErrorKind::Internal,
{
    let ghost ok = package_copyable(bytes@) && new_xml@.len() <= MAX_ENTRY_BYTES;
    let copy = slice_vec(bytes, 0, bytes.len());
    assert(copy@ =~= bytes@);
    let mut archive = match zip_open(copy) {
        Ok(a) => a,
        Err(msg) => {
            assert(zip_entry_of(bytes@, part@) is None);
            return Err(DocError::internal(msg));
        },
    };
    let ghost names = archive_names(archive);
    let ghost src = archive_source(archive);
    assert(src == bytes@);
    let mut w = zip_writer_new();
    let n = zip_len(&archive);
    let mut i: usize = 0;
    while i < n
        invariant
            n == names.len(),
            i <= n,
            archive_names(archive) == names,
            archive_source(archive) == src,
            src == bytes@,
            distinct_names(names),
            forall|m: Seq<char>| names.contains(m) ==> zip_entry_of(bytes@, m) != Some(None::<Seq<u8>>),
            ok == (package_copyable(bytes@) && new_xml@.len() <= MAX_ENTRY_BYTES),
            writer_entries(w) == repacked_entries(names, src, part@, new_xml@).subrange(0, i as int),
            ok ==> entries_small(writer_entries(w)),
        decreases n - i,
    {
        let ghost before = writer_entries(w);
        proof {
            assert(names.contains(names[i as int]));
            assert(!entry_names(before).contains(names[i as int])) by {
                if entry_names(before).contains(names[i as int]) {
                    let j = choose|j: int| 0 <= j < entry_names(before).len() && entry_names(before)[j] == names[i as int];
                    assert(before[j].0 == names[j]);
                }
            }
            if ok {
                assert(zip_entry_of(bytes@, names[i as int]) != Some(None::<Seq<u8>>));
            }
        }
        if zip_name_is(&archive, i, part) {
            match zip_write_file(&mut w, part, new_xml) {
                Ok(()) => {},
                Err(msg) => {
                    return Err(DocError::internal(msg));
                },
            }
        } else {
            match copy_entry(&mut w, &mut archive, i) {
                Ok(()) => {},
                Err(msg) => {
                    return Err(DocError::internal(msg));
                },
            }
        }
        assert(writer_entries(w) =~= repacked_entries(names, src, part@, new_xml@).subrange(0, i + 1));
        proof {
            if ok {
                assert forall|k: int| 0 <= k < writer_entries(w).len() implies ((#[trigger] writer_entries(w)[k]).1 matches Some(
                    Some(c),
                ) ==> c.len() <= MAX_ENTRY_BYTES) by {
                    if k < before.len() {
                        assert(writer_entries(w)[k] == before[k]);
                    }
                }
            }
        }
        i = i + 1;
    }
    let ghost entries = writer_entries(w);
    assert(entries =~= repacked_entries(names, src, part@, new_xml@));
    assert(entry_names(entries) =~= names);
    let out = match zip_finish(w) {
        Ok(o) => o,
        Err(msg) => {
            return Err(DocError::internal(msg));
        },
    };
    proof {
        assert forall|m: Seq<char>| m != part@ implies zip_entry_of(out@, m) == zip_entry_of(bytes@, m) by {
            if names.contains(m) {
                let j = choose|j: int| 0 <= j < names.len() && names[j] == m;
                assert(entries[j].0 == m);
            }
        }
        if names.contains(part@) {
            let j = choose|j: int| 0 <= j < names.len() && names[j] == part@;
            assert(entries[j].0 == part@);
        }
    }
    Ok(out)
}

// ---------------------------------------------------------------------------
// Text extraction
// ---------------------------------------------------------------------------

/// Kind of an extracted document.
#[derive(Clone, Copy, PartialEq, Eq, Structural, Debug)]
pub enum DocKind {
    Docx,
}

/// Text extracted from a document, with its kind and title (first non-blank line).
#[derive(Debug)]
pub struct ExtractedDoc {
    pub text: Vec<u8>,
    pub kind: DocKind,
    pub title: Option<Vec<u8>>,
}

/// Runs of line breaks cut to at most one blank line.
pub open spec fn collapse_blank_lines(s: Seq<u8>) -> Seq<u8>
    decreases s.len(),
{
    if s.len() == 0 {
        seq![]
    } else {
        let c = collapse_blank_lines(s.subrange(0, s.len() - 1));
        let b = s[s.len() - 1];
        if b == 10 && c.len() >= 2 && c[c.len() - 1] == 10 && c[c.len() - 2] == 10 {
            c
        } else {
            c.push(b)
        }
    }
}

/// Normalized text: at most one blank line in a row, no white space around it.
pub open spec fn spec_normalize(s: Seq<u8>) -> Seq<u8> {
    trimmed(collapse_blank_lines(s))
}

/// Normalizes extracted text in place: runs of blank lines are cut to one,
/// white space around the text is dropped.
pub fn normalize(text: &mut Vec<u8>)
    ensures
        final(text)@ == spec_normalize(old(text)@),
{
    let mut c: Vec<u8> = Vec::new();
    let mut i: usize = 0;
    while i < text.len()
        invariant
            i <= text@.len(),
            text@ == old(text)@,
            c@ == collapse_blank_lines(text@.subrange(0, i as int)),
        decreases text@.len() - i,
    {
        assert(text@.subrange(0, i + 1).subrange(0, i as int) =~= text@.subrange(0, i as int));
        let b = text[i];
        let n = c.len();
        if b == 10 && n >= 2 && c[n - 1] == 10 && c[n - 2] == 10 {
        } else {
            c.push(b);
        }
        i = i + 1;
    }
    assert(text@.subrange(0, i as int) =~= text@);
    let t = trim(c.as_slice());
    *text = t;
}

/// End of the line that starts at `i` (index of its `\n`, or the length).
pub open spec fn line_end(s: Seq<u8>, i: int) -> int
    decreases s.len() - i,
{
    if i >= s.len() || i < 0 {
        s.len() as int
    } else if s[i] == 10 {
        i
    } else {
        line_end(s, i + 1)
    }
}

/// The first line at or after `i` that is not blank, trimmed.
pub open spec fn first_line_from(s: Seq<u8>, i: int) -> Option<Seq<u8>>
    decreases s.len() - i,
{
    if i < 0 || i > s.len() {
        None
    } else {
        let e = line_end(s, i);
        if e < i || e > s.len() {
            None
        } else if trimmed(s.subrange(i, e)).len() > 0 {
            Some(trimmed(s.subrange(i, e)))
        } else if e >= s.len() {
            None
        } else {
            first_line_from(s, e + 1)
        }
    }
}

proof fn lemma_line_end_range(s: Seq<u8>, i: int)
    requires
        0 <= i <= s.len(),
    ensures
        i <= line_end(s, i) <= s.len(),
        line_end(s, i) < s.len() ==> s[line_end(s, i)] == 10,
        forall|k: int| i <= k < line_end(s, i) ==> s[k] != 10,
    decreases s.len() - i,
{
    if i < s.len() && s[i] != 10 {
        lemma_line_end_range(s, i + 1);
    }
}

/// The first non-blank line of `text`, trimmed.
pub fn first_nonempty_line(text: &[u8]) -> (r: Option<Vec<u8>>)
    ensures
        match first_line_from(text@, 0) {
            Some(l) => r matches Some(v) && v@ == l,
            None => r is None,
        },
{
    let mut i: usize = 0;
    loop
        invariant
            i <= text@.len(),
            first_line_from(text@, 0) == first_line_from(text@, i as int),
        decreases text@.len() - i,
    {
        let mut e = i;
        while e < text.len() && text[e] != 10
            invariant
                i <= e <= text@.len(),
                line_end(text@, i as int) == line_end(text@, e as int),
            decreases text@.len() - e,
        {
            e = e + 1;
        }
        proof {
            lemma_line_end_range(text@, i as int);
        }
        assert(e == line_end(text@, i as int));
        let line = slice_vec(text, i, e);
        if !is_blank(line.as_slice()) {
            return Some(trim(line.as_slice()));
        }
        if e >= text.len() {
            return None;
        }
        i = e + 1;
    }
}


// ---------------------------------------------------------------------------
// Reference scanner (the text path that predates the model)
// ---------------------------------------------------------------------------

/// First index `>= i` holding byte `b`, or the length.
pub open spec fn next_idx(s: Seq<u8>, i: int, b: u8) -> int
    decreases s.len() - i,
{
    if i < 0 {
        next_idx(s, 0, b)
    } else if i >= s.len() {
        s.len() as int
    } else if s[i] == b {
        i
    } else {
        next_idx(s, i + 1, b)
    }
}

pub proof fn lemma_next_idx(s: Seq<u8>, i: int, b: u8)
    requires
        0 <= i <= s.len(),
    ensures
        i <= next_idx(s, i, b) <= s.len(),
        next_idx(s, i, b) < s.len() ==> s[next_idx(s, i, b)] == b,
    decreases s.len() - i,
{
    if i < s.len() && s[i] != b {
        lemma_next_idx(s, i + 1, b);
    }
}

pub fn next_idx_at(s: &[u8], i: usize, b: u8) -> (r: usize)
    requires
        i <= s@.len(),
    ensures
        r == next_idx(s@, i as int, b),
        i <= r <= s@.len(),
        r < s@.len() ==> s@[r as int] == b,
{
    proof {
        lemma_next_idx(s@, i as int, b);
    }
    let mut k = i;
    while k < s.len() && s[k] != b
        invariant
            i <= k <= s@.len(),
            next_idx(s@, i as int, b) == next_idx(s@, k as int, b),
        decreases s@.len() - k,
    {
        k = k + 1;
    }
    k
}

/// End of `raw[0..k]` once trailing `/` are stripped.
pub open spec fn strip_end_slashes(raw: Seq<u8>, k: int) -> int
    decreases k,
{
    if k > 0 && k <= raw.len() && raw[k - 1] == 47 {
        strip_end_slashes(raw, k - 1)
    } else {
        k
    }
}

/// First index in `[i, b)` that holds white space or `/`, or `b`.
pub open spec fn name_stop(raw: Seq<u8>, i: int, b: int) -> int
    decreases b - i,
{
    if i >= b {
        b
    } else if ws_len(raw, i) > 0 || raw[i] == 47 {
        i
    } else {
        name_stop(raw, i + 1, b)
    }
}

/// A tag `raw` (between `<` and `>`): closing?, self-closing?, name.
pub open spec fn scan_tag(raw: Seq<u8>) -> (bool, bool, Seq<u8>) {
    let self_closing = raw.len() > 0 && raw[raw.len() - 1] == 47;
    let k = strip_end_slashes(raw, raw.len() as int);
    let a = trim_start_pos(raw, 0, k);
    let b = trim_end_pos(raw, a, k);
    let closing = a < b && raw[a] == 47;
    let rs = if closing { trim_start_pos(raw, a + 1, b) } else { a };
    (closing, self_closing, raw.subrange(rs, name_stop(raw, rs, b)))
}

/// What a tag emits and whether text collection is on after it.
pub open spec fn tag_effect(t: (bool, bool, Seq<u8>), in_t: bool) -> (Seq<u8>, bool) {
    let (closing, self_closing, name) = t;
    if !closing && !self_closing && name == "w:t".spec_bytes() {
        (seq![], true)
    } else if closing && name == "w:t".spec_bytes() {
        (seq![], false)
    } else if closing && name == "w:p".spec_bytes() {
        (seq![10u8], in_t)
    } else if !closing && self_closing {
        if name == "w:tab".spec_bytes() {
            (seq![9u8], in_t)
        } else if name == "w:br".spec_bytes() || name == "w:cr".spec_bytes() {
            (seq![10u8], in_t)
        } else {
            (seq![], in_t)
        }
    } else {
        (seq![], in_t)
    }
}

/// The reference scanner's output from position `i`: decoded text inside
/// `w:t`, a line break after each `</w:p>`, tabs and breaks from
/// self-closing `w:tab`/`w:br`/`w:cr`; it stops at a tag left open.
pub open spec fn scan_from(s: Seq<u8>, i: int, in_t: bool) -> Seq<u8>
    decreases s.len() - i,
{
    if i < 0 || i >= s.len() {
        seq![]
    } else if s[i] == 60 {
        let end = next_idx(s, i, 62);
        if end >= s.len() || end <= i {
            seq![]
        } else {
            let e = tag_effect(scan_tag(s.subrange(i + 1, end)), in_t);
            e.0 + scan_from(s, end + 1, e.1)
        }
    } else {
        let next = next_idx(s, i, 60);
        if next <= i || next > s.len() {
            seq![]
        } else if in_t {
            spec_decode(s.subrange(i, next)) + scan_from(s, next, in_t)
        } else {
            scan_from(s, next, in_t)
        }
    }
}

fn scan_tag_exec(raw: &[u8]) -> (r: (bool, bool, Vec<u8>))
    ensures
        r.0 == scan_tag(raw@).0,
        r.1 == scan_tag(raw@).1,
        r.2@ == scan_tag(raw@).2,
{
    let n = raw.len();
    let self_closing = n > 0 && raw[n - 1] == 47;
    let mut k = n;
    while k > 0 && raw[k - 1] == 47
        invariant
            k <= n == raw@.len(),
            strip_end_slashes(raw@, k as int) == strip_end_slashes(raw@, n as int),
        decreases k,
    {
        k = k - 1;
    }
    let a = trim_start_from(raw, 0, k);
    let b = trim_end_to(raw, a, k);
    let closing = a < b && raw[a] == 47;
    let rs = if closing { trim_start_from(raw, a + 1, b) } else { a };
    let mut e = rs;
    while e < b && ws_len_at(raw, e) == 0 && raw[e] != 47
        invariant
            rs <= e <= b <= raw@.len(),
            name_stop(raw@, rs as int, b as int) == name_stop(raw@, e as int, b as int),
        decreases b - e,
    {
        e = e + 1;
    }
    (closing, self_closing, slice_vec(raw, rs, e))
}

/// The reference text scanner: a linear pass over the markup that keeps the
/// decoded text inside `w:t`, a line break after each `</w:p>`, and tabs and
/// breaks from self-closing `w:tab`, `w:br`, `w:cr`.
pub fn extract_text_from_xml(xml: &[u8]) -> (r: Vec<u8>)
    ensures
        r@ == scan_from(xml@, 0, false),
{
    let n = xml.len();
    let mut out: Vec<u8> = Vec::new();
    let mut i: usize = 0;
    let mut in_t = false;
    while i < n
        invariant
            n == xml@.len(),
            i <= n,
            scan_from(xml@, 0, false) == out@ + scan_from(xml@, i as int, in_t),
        decreases n - i,
    {
        let ghost o0 = out@;
        if xml[i] == 60 {
            let end = next_idx_at(xml, i, 62);
            if end >= n {
                assert(scan_from(xml@, i as int, in_t) =~= seq![]);
                assert(out@ =~= out@ + scan_from(xml@, i as int, in_t));
                return out;
            }
            let ghost in0 = in_t;
            let ghost raw = xml@.subrange(i + 1, end as int);
            let (closing, self_closing, name) = scan_tag_exec(&xml[i + 1..end]);
            let nm = name.as_slice();
            if !closing && !self_closing && eq_str(nm, "w:t") {
                in_t = true;
            } else if closing && eq_str(nm, "w:t") {
                in_t = false;
            } else if closing && eq_str(nm, "w:p") {
                out.push(10u8);
            } else if !closing && self_closing {
                if eq_str(nm, "w:tab") {
                    out.push(9u8);
                } else if eq_str(nm, "w:br") || eq_str(nm, "w:cr") {
                    out.push(10u8);
                }
            }
            assert(out@ =~= o0 + tag_effect(scan_tag(raw), in0).0);
            assert(in_t == tag_effect(scan_tag(raw), in0).1);
            i = end + 1;
        } else {
            let next = next_idx_at(xml, i, 60);
            if in_t {
                decode_entities_into(&xml[i..next], &mut out);
            }
            assert(out@ + scan_from(xml@, next as int, in_t) =~= o0 + scan_from(xml@, i as int, in_t));
            i = next;
        }
    }
    assert(out@ =~= out@ + scan_from(xml@, i as int, in_t));
    out
}

/// The extraction of a parsed `word/document.xml`: model text normalized,
/// title the first non-blank line.
pub open spec fn extracted_ok(root: xml_dom::Element, d: ExtractedDoc) -> bool {
    &&& d.kind == DocKind::Docx
    &&& d.text@ == spec_normalize(blocks_text_of(spec_build(root).body))
    &&& match first_line_from(d.text@, 0) {
        Some(l) => d.title matches Some(t) && t@ == l,
        None => d.title is None,
    }
}

/// Extracts the text of a parsed `word/document.xml`.
pub fn extract_from_root(root: &xml_dom::Element) -> (d: ExtractedDoc)
    ensures
        extracted_ok(*root, d),
{
    let model = build_document(root);
    let mut text = document_text(&model);
    normalize(&mut text);
    let title = first_nonempty_line(text.as_slice());
    ExtractedDoc { text, kind: DocKind::Docx, title }
}

/// Extracts the text of a docx package: `word/document.xml` is parsed and
/// handed to [`extract_from_root`]. A package without a readable
/// `word/document.xml` is an internal error.
pub fn extract(bytes: &[u8]) -> (r: DocResult<ExtractedDoc>)
    ensures
        match zip_entry_of(bytes@, "word/document.xml"@) {
            Some(Some(c)) => valid_utf8(c) ==> (r is Ok <==> crate::xml_dom::spec_parses(c)),
            _ => true,
        },
        r is Ok ==> zip_entry_of(bytes@, "word/document.xml"@) matches Some(Some(_)),
        !(zip_entry_of(bytes@, "word/document.xml"@) matches Some(Some(_))) ==> (r matches Err(e)
            && e.kind == ErrorKind::Internal),
{
    let xml = read_document_xml(bytes)?;
    let dom = xml_dom::parse(xml.as_slice())?;
    Ok(extract_from_root(&dom))
}

} // verus!
