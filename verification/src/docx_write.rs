use vstd::prelude::*;
use vstd::string::StringSliceAdditionalSpecFns;
use crate::bytes_util::{push_bytes, push_str, str_bytes, slice_vec, eq_str, find, find_from, has_at, push_u64, dec};
use crate::error::{DocError, DocResult, ErrorKind};
use crate::zip_io::{MAX_ENTRY_BYTES, MAX_ENTRY_NAME_CHARS, entries_small, zip_entry_of, zip_writer_new, zip_write_file, zip_finish, writer_entries, distinct_names,
    entry_names};
use crate::styles::Stylesheet;
use crate::{docx, docx_model, styles, xml_dom};
use crate::docx_pkg::{ImagePayload, plan_package_additions, build_toc_paragraph, build_drawing_paragraph, next_docpr_id,
    native_target_cx, extent_for_width, repack_package};
use crate::locate::locate_blocks;
use crate::table_edit::content_width_twips;
use crate::edit_batch::{EditOp, apply_edits_to_bytes};
use crate::docx_validate::{AssertSpec, validate_document, MAX_ASSERTS};
use crate::error::bytes_to_string;

verus! {

/// Largest number of blocks one generation writes.
pub const MAX_WRITE_BLOCKS: usize = 300;

/// What a generation wrote.
#[derive(Debug)]
pub struct GeneratedDoc {
    pub bytes: Vec<u8>,
    pub paragraphs: usize,
    pub tables: usize,
    pub images: usize,
    pub tocs: usize,
}

/// The content types of the built-in template.
pub const CONTENT_TYPES_XML: &'static str = r#"<?xml version="1.0" encoding="UTF-8" standalone="yes"?><Types xmlns="http://schemas.openxmlformats.org/package/2006/content-types"><Default Extension="rels" ContentType="application/vnd.openxmlformats-package.relationships+xml"/><Default Extension="xml" ContentType="application/xml"/><Override PartName="/word/document.xml" ContentType="application/vnd.openxmlformats-officedocument.wordprocessingml.document.main+xml"/><Override PartName="/word/styles.xml" ContentType="application/vnd.openxmlformats-officedocument.wordprocessingml.styles+xml"/></Types>"#;

/// The package relationships of the built-in template.
pub const ROOT_RELS_XML: &'static str = r#"<?xml version="1.0" encoding="UTF-8" standalone="yes"?><Relationships xmlns="http://schemas.openxmlformats.org/package/2006/relationships"><Relationship Id="rId1" Type="http://schemas.openxmlformats.org/officeDocument/2006/relationships/officeDocument" Target="word/document.xml"/></Relationships>"#;

/// The relationships of the main part of the built-in template.
pub const DOC_RELS_XML: &'static str = r#"<?xml version="1.0" encoding="UTF-8" standalone="yes"?><Relationships xmlns="http://schemas.openxmlformats.org/package/2006/relationships"><Relationship Id="rId1" Type="http://schemas.openxmlformats.org/officeDocument/2006/relationships/styles" Target="styles.xml"/></Relationships>"#;

/// The main part of the built-in report template: one empty anchor
/// paragraph and one section (A4 portrait, Word's default margins).
pub const REPORT_DOCUMENT_XML: &'static str = r#"<?xml version="1.0" encoding="UTF-8" standalone="yes"?><w:document xmlns:w="http://schemas.openxmlformats.org/wordprocessingml/2006/main" xmlns:r="http://schemas.openxmlformats.org/officeDocument/2006/relationships"><w:body><w:p/><w:sectPr><w:pgSz w:w="11906" w:h="16838"/><w:pgMar w:top="1440" w:right="1800" w:bottom="1440" w:left="1800" w:header="851" w:footer="992" w:gutter="0"/><w:cols w:space="425"/><w:docGrid w:type="lines" w:linePitch="312"/></w:sectPr></w:body></w:document>"#;

/// The styles of the built-in report template: document defaults, Normal,
/// three heading levels, a grid table style and its base.
pub const REPORT_STYLES_XML: &'static str = r#"<?xml version="1.0" encoding="UTF-8" standalone="yes"?><w:styles xmlns:w="http://schemas.openxmlformats.org/wordprocessingml/2006/main"><w:docDefaults><w:rPrDefault><w:rPr><w:rFonts w:ascii="Times New Roman" w:hAnsi="Times New Roman" w:eastAsia="宋体" w:cs="Times New Roman"/><w:sz w:val="21"/><w:szCs w:val="21"/><w:lang w:val="en-US" w:eastAsia="zh-CN" w:bidi="ar-SA"/></w:rPr></w:rPrDefault><w:pPrDefault><w:pPr><w:spacing w:line="360" w:lineRule="auto"/></w:pPr></w:pPrDefault></w:docDefaults><w:style w:type="paragraph" w:default="1" w:styleId="Normal"><w:name w:val="Normal"/><w:qFormat/><w:pPr><w:spacing w:line="360" w:lineRule="auto"/></w:pPr><w:rPr><w:rFonts w:ascii="Times New Roman" w:hAnsi="Times New Roman" w:eastAsia="宋体"/><w:sz w:val="24"/><w:szCs w:val="24"/></w:rPr></w:style><w:style w:type="paragraph" w:styleId="Heading1"><w:name w:val="heading 1"/><w:basedOn w:val="Normal"/><w:next w:val="Normal"/><w:qFormat/><w:pPr><w:keepNext/><w:keepLines/><w:spacing w:before="240" w:after="120"/><w:outlineLvl w:val="0"/></w:pPr><w:rPr><w:rFonts w:eastAsia="黑体"/><w:b/><w:sz w:val="32"/><w:szCs w:val="32"/></w:rPr></w:style><w:style w:type="paragraph" w:styleId="Heading2"><w:name w:val="heading 2"/><w:basedOn w:val="Normal"/><w:next w:val="Normal"/><w:qFormat/><w:pPr><w:keepNext/><w:keepLines/><w:spacing w:before="200" w:after="100"/><w:outlineLvl w:val="1"/></w:pPr><w:rPr><w:rFonts w:eastAsia="黑体"/><w:b/><w:sz w:val="28"/><w:szCs w:val="28"/></w:rPr></w:style><w:style w:type="paragraph" w:styleId="Heading3"><w:name w:val="heading 3"/><w:basedOn w:val="Normal"/><w:next w:val="Normal"/><w:qFormat/><w:pPr><w:keepNext/><w:keepLines/><w:spacing w:before="160" w:after="80"/><w:outlineLvl w:val="2"/></w:pPr><w:rPr><w:rFonts w:eastAsia="黑体"/><w:b/><w:sz w:val="24"/><w:szCs w:val="24"/></w:rPr></w:style><w:style w:type="table" w:styleId="TableGrid"><w:name w:val="Table Grid"/><w:basedOn w:val="TableNormal"/><w:qFormat/><w:tblPr><w:tblBorders><w:top w:val="single" w:sz="4" w:space="0" w:color="auto"/><w:left w:val="single" w:sz="4" w:space="0" w:color="auto"/><w:bottom w:val="single" w:sz="4" w:space="0" w:color="auto"/><w:right w:val="single" w:sz="4" w:space="0" w:color="auto"/><w:insideH w:val="single" w:sz="4" w:space="0" w:color="auto"/><w:insideV w:val="single" w:sz="4" w:space="0" w:color="auto"/></w:tblBorders></w:tblPr></w:style><w:style w:type="table" w:default="1" w:styleId="TableNormal"><w:name w:val="Normal Table"/><w:tblPr><w:tblCellMar><w:top w:w="0" w:type="dxa"/><w:left w:w="108" w:type="dxa"/><w:bottom w:w="0" w:type="dxa"/><w:right w:w="108" w:type="dxa"/></w:tblCellMar></w:tblPr></w:style></w:styles>"#;


/// The built-in templates: name and a one-line description.
pub fn builtin_templates() -> (r: Vec<(&'static str, &'static str)>)
    ensures
        r@.len() == 1,
        r@[0].0 == "report",
{
    vec![("report", "中文报告风——标题黑体（三号/四号/小四）、正文宋体小四 1.5 倍行距、A4 单节")]
}

/// Names of a list of parts are pairwise distinct.
pub open spec fn str_names_distinct(parts: Seq<(&'static str, &'static str)>) -> bool {
    forall|i: int, j: int| 0 <= i < j < parts.len() ==> (#[trigger] parts[i]).0@ != (#[trigger] parts[j]).0@
}

/// Every part has a name and a text small enough to be zipped.
pub open spec fn parts_small(parts: Seq<(&'static str, &'static str)>) -> bool {
    forall|k: int| 0 <= k < parts.len() ==> (#[trigger] parts[k]).0@.len() <= MAX_ENTRY_NAME_CHARS
        && parts[k].1.spec_bytes().len() <= MAX_ENTRY_BYTES
}

/// Zips text parts in order: each reads back as written when the names are
/// distinct, and zipping succeeds when besides they are small.
pub fn zip_parts(parts: &Vec<(&'static str, &'static str)>) -> (r: DocResult<Vec<u8>>)
    ensures
        str_names_distinct(parts@) && parts_small(parts@) ==> r is Ok,
        r matches Ok(out) ==> str_names_distinct(parts@) ==> forall|k: int| 0 <= k < parts@.len() ==> zip_entry_of(
            out@,
            (#[trigger] parts@[k]).0@,
        ) == Some(Some(parts@[k].1.spec_bytes())),
        r matches Err(e) ==> e.kind == ErrorKind::Internal,
{
    let mut w = zip_writer_new();
    let ghost ok = str_names_distinct(parts@) && parts_small(parts@);
    let mut i: usize = 0;
    while i < parts.len()
        invariant
            i <= parts@.len(),
            ok == (str_names_distinct(parts@) && parts_small(parts@)),
            writer_entries(w).len() == i,
            forall|k: int| 0 <= k < i ==> (#[trigger] writer_entries(w)[k]) == (parts@[k].0@, Some(Some(parts@[k].1.spec_bytes()))),
        decreases parts@.len() - i,
    {
        proof {
            if ok {
                assert(parts@[i as int].0@.len() <= MAX_ENTRY_NAME_CHARS);
                assert(!entry_names(writer_entries(w)).contains(parts@[i as int].0@)) by {
                    if entry_names(writer_entries(w)).contains(parts@[i as int].0@) {
                        let j = choose|j: int| 0 <= j < entry_names(writer_entries(w)).len() && entry_names(writer_entries(w))[j]
                            == parts@[i as int].0@;
                        assert(writer_entries(w)[j] == (parts@[j].0@, Some(Some(parts@[j].1.spec_bytes()))));
                    }
                }
                assert(entries_small(writer_entries(w))) by {
                    assert forall|k: int| 0 <= k < writer_entries(w).len() implies ((#[trigger] writer_entries(w)[k]).1 matches Some(
                        Some(c),
                    ) ==> c.len() <= MAX_ENTRY_BYTES) by {
                        assert(writer_entries(w)[k] == (parts@[k].0@, Some(Some(parts@[k].1.spec_bytes()))));
                    }
                }
            }
        }
        let (name, content) = parts[i];
        match zip_write_file(&mut w, name, content.as_bytes()) {
            Ok(()) => {},
            Err(m) => {
                return Err(DocError::internal(m));
            },
        }
        i = i + 1;
    }
    let ghost entries = writer_entries(w);
    proof {
        if ok {
            assert(entries_small(entries)) by {
                assert forall|k: int| 0 <= k < entries.len() implies ((#[trigger] entries[k]).1 matches Some(Some(c)) ==> c.len()
                    <= MAX_ENTRY_BYTES) by {
                    assert(entries[k] == (parts@[k].0@, Some(Some(parts@[k].1.spec_bytes()))));
                }
            }
        }
    }
    let out = match zip_finish(w) {
        Ok(o) => o,
        Err(m) => {
            return Err(DocError::internal(m));
        },
    };
    proof {
        if str_names_distinct(parts@) {
            assert(distinct_names(entry_names(entries))) by {
                assert forall|a: int, b: int| 0 <= a < b < entry_names(entries).len() implies entry_names(entries)[a] != entry_names(entries)[b] by {
                    assert(entries[a].0 == parts@[a].0@);
                    assert(entries[b].0 == parts@[b].0@);
                }
            }
            assert forall|k: int| 0 <= k < parts@.len() implies zip_entry_of(out@, (#[trigger] parts@[k]).0@) == Some(Some(parts@[k].1.spec_bytes())) by {
                assert(entries[k].0 == parts@[k].0@);
            }
        }
    }
    Ok(out)
}

/// The parts of the built-in report template.
pub open spec fn spec_report_parts() -> Seq<(&'static str, &'static str)> {
    seq![
        ("[Content_Types].xml", CONTENT_TYPES_XML),
        ("_rels/.rels", ROOT_RELS_XML),
        ("word/_rels/document.xml.rels", DOC_RELS_XML),
        ("word/document.xml", REPORT_DOCUMENT_XML),
        ("word/styles.xml", REPORT_STYLES_XML),
    ]
}

/// The package of the built-in report template; its parts are named apart.
pub fn builtin_report_docx() -> (r: DocResult<Vec<u8>>)
    ensures
        parts_small(spec_report_parts()) ==> r is Ok,
        r matches Ok(out) ==> forall|k: int| 0 <= k < spec_report_parts().len() ==> zip_entry_of(
            out@,
            (#[trigger] spec_report_parts()[k]).0@,
        ) == Some(Some(spec_report_parts()[k].1.spec_bytes())),
        r matches Err(e) ==> e.kind == ErrorKind::Internal,
{
    let parts = vec![
        ("[Content_Types].xml", CONTENT_TYPES_XML),
        ("_rels/.rels", ROOT_RELS_XML),
        ("word/_rels/document.xml.rels", DOC_RELS_XML),
        ("word/document.xml", REPORT_DOCUMENT_XML),
        ("word/styles.xml", REPORT_STYLES_XML),
    ];
    proof {
        reveal_strlit("[Content_Types].xml");
        reveal_strlit("_rels/.rels");
        reveal_strlit("word/_rels/document.xml.rels");
        reveal_strlit("word/document.xml");
        reveal_strlit("word/styles.xml");
        assert(parts@ == spec_report_parts());
        assert(str_names_distinct(parts@)) by {
            assert forall|i: int, j: int| 0 <= i < j < parts@.len() implies (#[trigger] parts@[i]).0@ != (#[trigger] parts@[j]).0@ by {
                let a = parts@[i].0@;
                let b = parts@[j].0@;
                if i == 0 {
                    assert(a[0] != b[0]);
                } else if i == 1 {
                    assert(a[0] != b[0]);
                } else if i == 2 {
                    assert(a[5] != b[5]);
                } else {
                    assert(a[5] != b[5]);
                }
            }
        }
    }
    zip_parts(&parts)
}

/// Builds a built-in template by name (`report` only); an unknown name is
/// refused with the list of names. The report template is built whenever its
/// part texts are small enough to be zipped (they are a few kilobytes).
pub fn build_builtin_template(name: &str) -> (r: DocResult<Vec<u8>>)
    ensures
        name@ == "report"@ && parts_small(spec_report_parts()) ==> r is Ok,
        name@ != "report"@ ==> (r matches Err(e) && e.kind == ErrorKind::Validation),
        name@ == "report"@ ==> match r {
            Ok(out) => forall|k: int| 0 <= k < spec_report_parts().len() ==> zip_entry_of(
                out@,
                (#[trigger] spec_report_parts()[k]).0@,
            ) == Some(Some(spec_report_parts()[k].1.spec_bytes())),
            Err(e) => e.kind == ErrorKind::Internal,
        },
{
    let list = builtin_templates();
    let mut known = false;
    let mut i: usize = 0;
    while i < list.len()
        invariant
            list@.len() == 1,
            list@[0].0 == "report",
            i <= list@.len(),
            known == (i > 0 && name@ == "report"@),
        decreases list@.len() - i,
    {
        if eq_str(name.as_bytes(), list[i].0) {
            known = true;
        }
        proof {
            vstd::utf8::encode_utf8_decode_utf8(name@);
            vstd::utf8::encode_utf8_decode_utf8(list@[0].0@);
        }
        i = i + 1;
    }
    if !known {
        let mut m = str_bytes("模板无效: 未知内置模板 \"");
        push_str(&mut m, name);
        push_str(&mut m, "\"。可用档位: ");
        let mut k: usize = 0;
        while k < list.len()
            decreases list@.len() - k,
        {
            if k > 0 {
                push_str(&mut m, "、");
            }
            push_str(&mut m, "\"");
            push_str(&mut m, list[k].0);
            push_str(&mut m, "\"（");
            push_str(&mut m, list[k].1);
            push_str(&mut m, "）");
            k = k + 1;
        }
        push_str(&mut m, "。template 也接受模板绝对路径，或相对 workspace templates/ 目录的路径。");
        return Err(DocError::validation(m));
    }
    builtin_report_docx()
}

/// The style names tried, in order, for a heading of `level`.
pub open spec fn spec_heading_candidates(level: u32) -> Seq<Seq<u8>> {
    let d = dec(level as nat);
    seq![
        "标题 ".spec_bytes() + d,
        "heading ".spec_bytes() + d,
        "Heading ".spec_bytes() + d,
        "Heading".spec_bytes() + d,
        "标题".spec_bytes() + d,
        d,
    ]
}

fn with_level(prefix: &str, level: u32) -> (r: Vec<u8>)
    ensures
        r@ == prefix.spec_bytes() + dec(level as nat),
{
    let mut v = str_bytes(prefix);
    push_u64(&mut v, level as u64);
    v
}

/// The style names tried, in order, for a heading of `level`: Chinese and
/// English display names, IDs, and the bare number some localized Word
/// versions use as ID.
pub fn heading_style_candidates(level: u32) -> (r: Vec<Vec<u8>>)
    ensures
        r@.len() == 6,
        forall|k: int| 0 <= k < 6 ==> (#[trigger] r@[k])@ == spec_heading_candidates(level)[k],
{
    let mut d: Vec<u8> = Vec::new();
    push_u64(&mut d, level as u64);
    let r = vec![
        with_level("标题 ", level),
        with_level("heading ", level),
        with_level("Heading ", level),
        with_level("Heading", level),
        with_level("标题", level),
        d,
    ];
    proof {
        assert(d@ =~= dec(level as nat));
    }
    r
}

/// Whether a stylesheet resolves a style reference (by ID or display name).
pub open spec fn resolves(ss: Seq<crate::styles::StyleV>, c: Seq<u8>) -> bool {
    crate::styles::index_of_id(ss, c, 0) is Some || crate::styles::index_of_name(ss, c, 0) is Some
}

/// The first of `cs` that `ss` resolves.
pub open spec fn first_resolved(ss: Seq<crate::styles::StyleV>, cs: Seq<Seq<u8>>, k: int) -> Option<Seq<u8>>
    decreases cs.len() - k,
{
    if k < 0 || k >= cs.len() {
        None
    } else if resolves(ss, cs[k]) {
        Some(cs[k])
    } else {
        first_resolved(ss, cs, k + 1)
    }
}

fn first_known(sheet: &Stylesheet, cs: &Vec<Vec<u8>>) -> (r: Option<usize>)
    ensures
        match first_resolved(sheet.view_styles(), cs@.map_values(|c: Vec<u8>| c@), 0) {
            Some(c) => r matches Some(i) && i < cs@.len() && cs@[i as int]@ == c,
            None => r is None,
        },
{
    let ghost v = cs@.map_values(|c: Vec<u8>| c@);
    let mut i: usize = 0;
    while i < cs.len()
        invariant
            i <= cs@.len(),
            v == cs@.map_values(|c: Vec<u8>| c@),
            first_resolved(sheet.view_styles(), v, i as int) == first_resolved(sheet.view_styles(), v, 0),
        decreases cs@.len() - i,
    {
        if sheet.id_of(cs[i].as_slice()).is_some() {
            assert(v[i as int] == cs@[i as int]@);
            return Some(i);
        }
        assert(v[i as int] == cs@[i as int]@);
        i = i + 1;
    }
    None
}

/// The style a heading of `level` gets: the first candidate the template
/// resolves, else the first candidate (the edit engine then reports the
/// styles it has).
pub fn heading_style_for(level: u32, sheet: &Stylesheet) -> (r: Vec<u8>)
    ensures
        r@ == match first_resolved(sheet.view_styles(), spec_heading_candidates(level), 0) {
            Some(c) => c,
            None => spec_heading_candidates(level)[0],
        },
{
    let cs = heading_style_candidates(level);
    assert(cs@.map_values(|c: Vec<u8>| c@) =~= spec_heading_candidates(level));
    match first_known(sheet, &cs) {
        Some(i) => slice_vec(cs[i].as_slice(), 0, cs[i].len()),
        None => slice_vec(cs[0].as_slice(), 0, cs[0].len()),
    }
}

/// The style a plain paragraph gets without an explicit one: `正文`, else
/// `Normal`, else none (document defaults apply).
pub fn normal_style_for(sheet: &Stylesheet) -> (r: Option<Vec<u8>>)
    ensures
        ov_eq(r, first_resolved(sheet.view_styles(), seq!["正文".spec_bytes(), "Normal".spec_bytes()], 0)),
{
    let cs = vec![str_bytes("正文"), str_bytes("Normal")];
    assert(cs@.map_values(|c: Vec<u8>| c@) =~= seq!["正文".spec_bytes(), "Normal".spec_bytes()]);
    match first_known(sheet, &cs) {
        Some(i) => {
            let v = slice_vec(cs[i].as_slice(), 0, cs[i].len());
            assert(v@ =~= cs@[i as int]@);
            Some(v)
        },
        None => None,
    }
}

pub open spec fn ov_eq(a: Option<Vec<u8>>, b: Option<Seq<u8>>) -> bool {
    match (a, b) {
        (Some(x), Some(y)) => x@ == y,
        (None, None) => true,
        _ => false,
    }
}

/// The number of body blocks of a docx package.
pub fn block_count(bytes: &[u8]) -> (r: DocResult<usize>)
    ensures
        !(zip_entry_of(bytes@, "word/document.xml"@) matches Some(Some(_))) ==> (r matches Err(e) && e.kind
            == ErrorKind::Internal),
        r matches Err(e) ==> e.kind == ErrorKind::Internal,
{
    let xml = docx::read_document_xml(bytes)?;
    let dom = xml_dom::parse(xml.as_slice())?;
    Ok(docx_model::build_document(&dom).body.len())
}

/// The stylesheet of a package (none without `word/styles.xml`).
pub fn load_styles(bytes: &[u8]) -> (r: DocResult<Stylesheet>)
    ensures
        zip_entry_of(bytes@, "word/styles.xml"@) == Some(None::<Seq<u8>>) ==> (r matches Ok(s) && s.styles@.len() == 0),
        r matches Err(e) ==> e.kind == ErrorKind::Internal,
{
    match docx::read_entry(bytes, "word/styles.xml")? {
        Some(xml) => {
            let dom = xml_dom::parse(xml.as_slice())?;
            Ok(styles::parse_styles(&dom))
        },
        None => Ok(Stylesheet::empty()),
    }
}

/// A package whose body is empty gets an empty anchor paragraph at the start
/// of `w:body` (only `word/document.xml` is repacked); any other package is
/// returned as is.
pub fn inject_anchor(bytes: Vec<u8>) -> (r: DocResult<Vec<u8>>)
    ensures
        r matches Err(e) ==> e.kind == ErrorKind::Internal || e.kind == ErrorKind::Validation,
        r matches Ok(out) ==> forall|n: Seq<char>| n != "word/document.xml"@ ==> zip_entry_of(out@, n) == zip_entry_of(bytes@, n),
{
    if block_count(bytes.as_slice())? > 0 {
        return Ok(bytes);
    }
    let xml = docx::read_document_xml(bytes.as_slice())?;
    let body_open = match find(xml.as_slice(), "<w:body".as_bytes()) {
        Some(p) => p,
        None => {
            return Err(DocError::validation(str_bytes("模板无效: document.xml 缺少 w:body（不是合法 Word 文档）。")));
        },
    };
    let gt = match find_from(xml.as_slice(), ">".as_bytes(), body_open) {
        Some(g) => g,
        None => {
            return Err(DocError::validation(str_bytes("模板无效: w:body 开标签不完整。")));
        },
    };
    proof {
        reveal_strlit(">");
        vstd::utf8::is_ascii_chars_encode_utf8(">"@);
    }
    assert(has_at(xml@, gt as int, ">".spec_bytes()));
    assert(gt < xml.len());
    let insert_at = gt + 1;
    let mut out = slice_vec(xml.as_slice(), 0, insert_at);
    push_str(&mut out, "<w:p/>");
    let tail = slice_vec(xml.as_slice(), insert_at, xml.len());
    push_bytes(&mut out, tail.as_slice());
    docx::repack_part(bytes.as_slice(), "word/document.xml", out.as_slice())
}


// ---------------------------------------------------------------------------
// Blocks of a generation
// ---------------------------------------------------------------------------

/// One block to write.
#[derive(Debug, Clone)]
pub enum WriteBlock {
    /// A heading of `level` (1 is the highest); its style is the first of the
    /// heading candidates the template resolves.
    Heading { level: u32, text: String },
    /// A paragraph with an explicit style (name or ID), or the template's
    /// body style (`正文`, then `Normal`, else none).
    Paragraph { text: String, style: Option<String> },
    /// A table (line breaks in a cell make paragraphs); `header` defaults to
    /// true (bold first row repeated on each page).
    Table { rows: Vec<Vec<String>>, header: Option<bool>, table_style: Option<String> },
    /// A table of contents field of `levels` (clamped to 1..9) heading levels.
    Toc { levels: u32, hyperlink: bool },
    /// A picture; `width_emu` is a requested width in EMU (clamped to the
    /// text area), else its native width, at most the text area.
    Image { image: ImagePayload, width_emu: Option<u64> },
}

/// The kind of a block: text (heading or paragraph), table, contents, picture.
pub open spec fn block_kind(b: WriteBlock) -> nat {
    match b {
        WriteBlock::Heading { .. } => 0,
        WriteBlock::Paragraph { .. } => 0,
        WriteBlock::Table { .. } => 1,
        WriteBlock::Toc { .. } => 2,
        WriteBlock::Image { .. } => 3,
    }
}

/// How many blocks of `bs` are of kind `k`.
pub open spec fn count_kind(bs: Seq<WriteBlock>, k: nat) -> nat
    decreases bs.len(),
{
    if bs.len() == 0 {
        0
    } else {
        count_kind(bs.drop_last(), k) + if block_kind(bs.last()) == k { 1nat } else { 0nat }
    }
}

proof fn lemma_count_step(s: Seq<WriteBlock>, j: int)
    requires
        0 <= j < s.len(),
    ensures
        forall|k: nat| #[trigger] count_kind(s.subrange(0, j + 1), k) == count_kind(s.subrange(0, j), k) + if block_kind(s[j]) == k {
            1nat
        } else {
            0nat
        },
{
    assert(s.subrange(0, j + 1).drop_last() =~= s.subrange(0, j));
    assert(s.subrange(0, j + 1).last() == s[j]);
}

/// Pictures that can be sized: a positive pixel width.
pub open spec fn blocks_sizable(bs: Seq<WriteBlock>) -> bool {
    forall|i: int| 0 <= i < bs.len() ==> (#[trigger] bs[i] matches WriteBlock::Image { image, .. } ==> image.width_px > 0)
}

fn kind_of(b: &WriteBlock) -> (r: u8)
    ensures
        r == block_kind(*b),
{
    match b {
        WriteBlock::Heading { .. } => 0,
        WriteBlock::Paragraph { .. } => 0,
        WriteBlock::Table { .. } => 1,
        WriteBlock::Toc { .. } => 2,
        WriteBlock::Image { .. } => 3,
    }
}

/// A requested picture width held to the text area: at least 1 EMU, at
/// most `content_width_twips` in EMU.
pub open spec fn spec_clamp_cx(requested: u64, content_width_twips: u32) -> u64 {
    let content = content_width_twips as int * 635;
    if requested < 1 {
        1
    } else if requested > content {
        content as u64
    } else {
        requested
    }
}

/// The size in EMU of a picture: the requested width held to the text area,
/// or the native width at most the text area; the height keeps the aspect
/// ratio (at least 1 EMU).
pub fn image_extent(width_px: u32, height_px: u32, requested_cx: Option<u64>, content_width_twips: u32) -> (r: (u64, u64))
    requires
        width_px > 0,
    ensures
        ({
            let cx: u64 = match requested_cx {
                Some(c) => spec_clamp_cx(c, content_width_twips),
                None => {
                    let content = content_width_twips as int * 635;
                    let native = width_px as int * 9525;
                    let m = if native < content { native } else { content };
                    if m < 1 { 1 } else { m as u64 }
                },
            };
            let cy = (cx as int * height_px as int) / (width_px as int);
            &&& r.0 == cx
            &&& r.1 == if cy < 1 { 1 } else if cy > u64::MAX { u64::MAX as int } else { cy }
        }),
{
    let target: u64 = match requested_cx {
        Some(c) => {
            let content: u64 = content_width_twips as u64 * 635;
            if c < 1 {
                1
            } else if c > content {
                content
            } else {
                c
            }
        },
        None => native_target_cx(width_px, content_width_twips),
    };
    extent_for_width(target, width_px, height_px)
}

/// `xml` with `para` inserted right after body block `anchor` (1-based).
pub open spec fn spec_insert_after(xml: Seq<u8>, anchor: int, para: Seq<u8>) -> Option<Seq<u8>> {
    match crate::locate::spec_locate(xml) {
        Some(spans) => if 1 <= anchor <= spans.len() && spans[anchor - 1].end <= xml.len() {
            Some(crate::bytes_util::splice(xml, spans[anchor - 1].end as int, spans[anchor - 1].end as int, para))
        } else {
            None
        },
        None => None,
    }
}

/// Inserts a paragraph's markup right after body block `anchor` (1-based).
pub fn insert_after_block(xml: &[u8], anchor: usize, para: &[u8]) -> (r: DocResult<Vec<u8>>)
    ensures
        match spec_insert_after(xml@, anchor as int, para@) {
            Some(out) => r matches Ok(v) && v@ == out,
            None => r is Err,
        },
{
    let spans = locate_blocks(xml)?;
    if anchor < 1 || anchor > spans.len() {
        let mut m = str_bytes("锚块越界: 块 ");
        crate::bytes_util::push_usize(&mut m, anchor);
        push_str(&mut m, " 不存在。");
        return Err(DocError::internal(m));
    }
    let end = spans[anchor - 1].end;
    if end > xml.len() {
        return Err(DocError::internal(str_bytes("块定位越界。")));
    }
    Ok(crate::bytes_util::splice_vec(xml, end, end, para))
}

/// Writes a table of contents paragraph after body block `anchor`: the
/// field paragraph in `document.xml`, fields updated on open in the
/// settings part, and the settings part registered when new.
fn insert_toc_after(bytes: &[u8], anchor: usize, levels: u32, hyperlink: bool) -> (r: DocResult<Vec<u8>>)
    ensures
        !(zip_entry_of(bytes@, "word/document.xml"@) matches Some(Some(_))) ==> r is Err,
{
    let doc_xml = docx::read_document_xml(bytes)?;
    let para = build_toc_paragraph(levels, hyperlink);
    let new_xml = insert_after_block(doc_xml.as_slice(), anchor, para.as_slice())?;
    let none: Vec<ImagePayload> = Vec::new();
    let (_allocs, adds) = plan_package_additions(bytes, none.as_slice(), true)?;
    let (mut reps, apps) = place_parts(bytes, &adds)?;
    reps.push((bytes_to_string_of("word/document.xml"), new_xml));
    repack_package(bytes, reps.as_slice(), apps.as_slice())
}

/// The parts a plan writes, as replacements of parts the package has and
/// appends of parts it lacks (a settings part created for a table of
/// contents is new).
fn place_parts(bytes: &[u8], adds: &crate::docx_pkg::PkgAdditions) -> (r: DocResult<(Vec<(String, Vec<u8>)>, Vec<(String, Vec<u8>)>)>)
    ensures
        r is Err <==> exists|k: int| 0 <= k < adds.replacements@.len() && zip_entry_of(bytes@, (#[trigger] adds.replacements@[k]).0@) is None,
        r matches Ok(x) ==> x.0@.len() + x.1@.len() == adds.replacements@.len() + adds.appends@.len(),
        r matches Ok(x) ==> x.0@.len() == count_present(bytes@, adds.replacements@, adds.replacements@.len() as int),
{
    let mut reps: Vec<(String, Vec<u8>)> = Vec::new();
    let mut apps: Vec<(String, Vec<u8>)> = Vec::new();
    let mut k: usize = 0;
    while k < adds.replacements.len()
        invariant
            k <= adds.replacements@.len(),
            reps@.len() + apps@.len() == k,
            reps@.len() == count_present(bytes@, adds.replacements@, k as int),
            forall|j: int| 0 <= j < k ==> zip_entry_of(bytes@, (#[trigger] adds.replacements@[j]).0@) is Some,
        decreases adds.replacements@.len() - k,
    {
        let name = &adds.replacements[k].0;
        let body = &adds.replacements[k].1;
        let present = match docx::read_entry(bytes, name.as_str()) {
            Ok(x) => x.is_some(),
            Err(e) => {
                return Err(e);
            },
        };
        let item = (bytes_to_string_of(name.as_str()), slice_vec(body.as_slice(), 0, body.len()));
        if present {
            reps.push(item);
        } else {
            apps.push(item);
        }
        k = k + 1;
    }
    let mut k: usize = 0;
    while k < adds.appends.len()
        invariant
            k <= adds.appends@.len(),
            reps@.len() + apps@.len() == adds.replacements@.len() + k,
            reps@.len() == count_present(bytes@, adds.replacements@, adds.replacements@.len() as int),
            forall|j: int| 0 <= j < adds.replacements@.len() ==> zip_entry_of(bytes@, (#[trigger] adds.replacements@[j]).0@) is Some,
        decreases adds.appends@.len() - k,
    {
        let name = &adds.appends[k].0;
        let body = &adds.appends[k].1;
        apps.push((bytes_to_string_of(name.as_str()), slice_vec(body.as_slice(), 0, body.len())));
        k = k + 1;
    }
    Ok((reps, apps))
}

/// How many of the parts `parts[0..k]` the package holds.
pub open spec fn count_present(bytes: Seq<u8>, parts: Seq<(String, Vec<u8>)>, k: int) -> nat
    decreases k,
{
    if k <= 0 {
        0
    } else {
        count_present(bytes, parts, k - 1) + if zip_entry_of(bytes, parts[k - 1].0@) matches Some(Some(_)) {
            1nat
        } else {
            0nat
        }
    }
}

fn bytes_to_string_of(s: &str) -> (r: String)
    ensures
        vstd::utf8::valid_utf8(s.spec_bytes()) ==> r@ == vstd::utf8::decode_utf8(s.spec_bytes()),
{
    crate::error::bytes_to_string(s.as_bytes())
}

/// Writes a picture paragraph after body block `anchor`: the picture gets a
/// fresh relationship, media part and drawing ID, and is sized by
/// [`image_extent`] against the document's text area.
fn insert_image_after(bytes: &[u8], anchor: usize, image: &ImagePayload, width_emu: Option<u64>) -> (r: DocResult<Vec<u8>>)
    requires
        image.width_px > 0,
    ensures
        !(zip_entry_of(bytes@, "word/document.xml"@) matches Some(Some(_))) ==> r is Err,
{
    let doc_xml = docx::read_document_xml(bytes)?;
    let dom = xml_dom::parse(doc_xml.as_slice())?;
    let model = docx_model::build_document(&dom);
    let cw = content_width_twips(&model);
    let (cx, cy) = image_extent(image.width_px, image.height_px, width_emu, cw);
    let docpr = next_docpr_id(doc_xml.as_slice());
    let imgs: Vec<ImagePayload> = vec![image.clone()];
    let (allocs, adds) = plan_package_additions(bytes, imgs.as_slice(), false)?;
    if allocs.len() != 1 {
        return Err(DocError::internal(str_bytes("图片分配数量异常。")));
    }
    let mut name = str_bytes("图片 ");
    push_u64(&mut name, docpr as u64);
    let name_s = crate::error::bytes_to_string(name.as_slice());
    let para = build_drawing_paragraph(allocs[0].rid.as_str(), cx, cy, docpr, name_s.as_str());
    let new_xml = insert_after_block(doc_xml.as_slice(), anchor, para.as_slice())?;
    let (mut reps, apps) = place_parts(bytes, &adds)?;
    reps.push((bytes_to_string_of("word/document.xml"), new_xml));
    repack_package(bytes, reps.as_slice(), apps.as_slice())
}

// ---------------------------------------------------------------------------
// Checking what was generated
// ---------------------------------------------------------------------------

fn run_chunk(bytes: &[u8], chunk: &Vec<AssertSpec>, failures: &mut Vec<Vec<u8>>) -> (r: DocResult<()>)
    ensures
        !crate::docx_validate::batch_ok(chunk@) ==> (r matches Err(e) && e.kind == ErrorKind::Validation),
        crate::docx_validate::batch_ok(chunk@) && !(zip_entry_of(bytes@, "word/document.xml"@) matches Some(Some(_)))
            ==> (r matches Err(e) && e.kind == ErrorKind::Internal),
        r is Err ==> final(failures)@ == old(failures)@,
        r is Ok ==> final(failures)@.len() >= old(failures)@.len() && final(failures)@.subrange(0, old(failures)@.len() as int)
            == old(failures)@,
{
    let rep = validate_document(bytes, chunk.as_slice())?;
    let mut k: usize = 0;
    while k < rep.failures.len()
        invariant
            failures@.len() >= old(failures)@.len(),
            failures@.subrange(0, old(failures)@.len() as int) == old(failures)@,
        decreases rep.failures@.len() - k,
    {
        let mut m = str_bytes(rep.failures[k].target.as_str());
        push_str(&mut m, " ");
        push_str(&mut m, rep.failures[k].detail.as_str());
        let ghost f0 = failures@;
        failures.push(m);
        assert(failures@.subrange(0, old(failures)@.len() as int) =~= f0.subrange(0, old(failures)@.len() as int));
        k = k + 1;
    }
    Ok(())
}

fn push_assert(bytes: &[u8], chunk: &mut Vec<AssertSpec>, failures: &mut Vec<Vec<u8>>, a: AssertSpec) -> (r: DocResult<()>)
    ensures
        old(chunk)@.len() + 1 < MAX_ASSERTS ==> r is Ok && final(chunk)@ == old(chunk)@.push(a) && final(failures)@
            == old(failures)@,
        old(chunk)@.len() + 1 >= MAX_ASSERTS && r is Ok ==> final(chunk)@.len() == 0,
        old(chunk)@.len() + 1 >= MAX_ASSERTS && !crate::docx_validate::batch_ok(old(chunk)@.push(a)) ==> r is Err,
        old(chunk)@.len() + 1 >= MAX_ASSERTS && !(zip_entry_of(bytes@, "word/document.xml"@) matches Some(Some(_))) ==> r is Err,
{
    chunk.push(a);
    if chunk.len() >= MAX_ASSERTS {
        run_chunk(bytes, chunk, failures)?;
        *chunk = Vec::new();
    }
    Ok(())
}

fn trimmed_text(s: &String) -> (r: String)
    ensures
        vstd::utf8::valid_utf8(crate::bytes_util::trimmed(vstd::utf8::encode_utf8(s@))) ==> r@ == vstd::utf8::decode_utf8(
            crate::bytes_util::trimmed(vstd::utf8::encode_utf8(s@)),
        ),
{
    bytes_to_string(crate::bytes_util::trim(s.as_str().as_bytes()).as_slice())
}

/// Checks that a generated package holds what was asked, with the
/// validation engine in batches: the number of blocks, the text of each
/// heading and paragraph, the shape and every cell text of each table.
/// A mismatch is an internal error listing the first five differences.
#[verifier::loop_isolation(false)]
pub fn self_check(bytes: &[u8], blocks: &Vec<WriteBlock>) -> (r: DocResult<()>)
    ensures
        !(zip_entry_of(bytes@, "word/document.xml"@) matches Some(Some(_))) ==> r is Err,
{
    let ghost missing = !(zip_entry_of(bytes@, "word/document.xml"@) matches Some(Some(_)));
    let mut failures: Vec<Vec<u8>> = Vec::new();
    let mut chunk: Vec<AssertSpec> = Vec::new();
    push_assert(bytes, &mut chunk, &mut failures, AssertSpec::BlockCount { equals: blocks.len() })?;
    let mut idx: usize = 0;
    while idx < blocks.len()
        invariant
            missing ==> chunk@.len() > 0,
        decreases blocks@.len() - idx,
    {
        let block_no = idx + 1;
        match &blocks[idx] {
            WriteBlock::Heading { text, .. } => {
                let a = AssertSpec::BlockText { block: block_no, equals: Some(trimmed_text(text)), contains: None, starts_with: None };
                push_assert(bytes, &mut chunk, &mut failures, a)?;
            },
            WriteBlock::Paragraph { text, .. } => {
                let a = AssertSpec::BlockText { block: block_no, equals: Some(trimmed_text(text)), contains: None, starts_with: None };
                push_assert(bytes, &mut chunk, &mut failures, a)?;
            },
            WriteBlock::Table { rows, .. } => {
                let cols = if rows.len() > 0 {
                    rows[0].len()
                } else {
                    0
                };
                let a = AssertSpec::TableShape { block: block_no, rows: Some(rows.len()), cols: Some(cols), style: None };
                push_assert(bytes, &mut chunk, &mut failures, a)?;
                let mut ri: usize = 0;
                while ri < rows.len()
                    invariant
                        missing ==> chunk@.len() > 0,
                    decreases rows@.len() - ri,
                {
                    let mut ci: usize = 0;
                    while ci < rows[ri].len()
                        invariant
                            missing ==> chunk@.len() > 0,
                        decreases rows@[ri as int]@.len() - ci,
                    {
                        let a = AssertSpec::CellText {
                            block: block_no,
                            row: ri + 1,
                            cell: ci + 1,
                            equals: Some(trimmed_text(&rows[ri][ci])),
                            contains: None,
                            starts_with: None,
                        };
                        push_assert(bytes, &mut chunk, &mut failures, a)?;
                        ci = ci + 1;
                    }
                    ri = ri + 1;
                }
            },
            WriteBlock::Toc { .. } => {},
            WriteBlock::Image { .. } => {},
        }
        idx = idx + 1;
    }
    if chunk.len() > 0 {
        run_chunk(bytes, &chunk, &mut failures)?;
    }
    if failures.len() > 0 {
        let mut m = str_bytes("生成自检失败: 产物与请求内容不一致（");
        crate::bytes_util::push_usize(&mut m, failures.len());
        push_str(&mut m, " 处：");
        let shown: usize = if failures.len() < 5 {
            failures.len()
        } else {
            5
        };
        let mut k: usize = 0;
        while k < shown
            decreases shown - k,
        {
            if k > 0 {
                push_str(&mut m, "；");
            }
            push_bytes(&mut m, failures[k].as_slice());
            k = k + 1;
        }
        if failures.len() > shown {
            push_str(&mut m, "…另 ");
            crate::bytes_util::push_usize(&mut m, failures.len() - shown);
            push_str(&mut m, " 处");
        }
        push_str(&mut m, "）。这是引擎缺陷而非输入问题，请反馈；本次调用未写入任何文件。");
        return Err(DocError::internal(m));
    }
    Ok(())
}

// ---------------------------------------------------------------------------
// Generation
// ---------------------------------------------------------------------------

/// The text and explicit style of a heading or paragraph block.
fn paragraph_style_of(b: &WriteBlock, sheet: &Stylesheet) -> (r: (String, Option<String>))
    ensures
        match *b {
            WriteBlock::Heading { level, text } => {
                let hs = match first_resolved(sheet.view_styles(), spec_heading_candidates(level), 0) {
                    Some(c) => c,
                    None => spec_heading_candidates(level)[0],
                };
                &&& r.0 == text
                &&& r.1 is Some
                &&& vstd::utf8::valid_utf8(hs) ==> r.1->0@ == vstd::utf8::decode_utf8(hs)
            },
            WriteBlock::Paragraph { text, style } => {
                &&& r.0 == text
                &&& match style {
                    Some(x) => r.1 == Some(x),
                    None => match first_resolved(sheet.view_styles(), seq!["正文".spec_bytes(), "Normal".spec_bytes()], 0) {
                        Some(v) => r.1 is Some && (vstd::utf8::valid_utf8(v) ==> r.1->0@ == vstd::utf8::decode_utf8(v)),
                        None => r.1 is None,
                    },
                }
            },
            _ => r.0@ == Seq::<char>::empty() && r.1 is None,
        },
{
    match b {
        WriteBlock::Heading { level, text } => {
            let st = heading_style_for(*level, sheet);
            (text.clone(), Some(bytes_to_string(st.as_slice())))
        },
        WriteBlock::Paragraph { text, style } => {
            let resolved = match style {
                Some(explicit) => Some(explicit.clone()),
                None => match normal_style_for(sheet) {
                    Some(v) => Some(bytes_to_string(v.as_slice())),
                    None => None,
                },
            };
            (text.clone(), resolved)
        },
        _ => (String::new(), None),
    }
}

/// Row `r` of a table, its cells as UTF-8 bytes.
pub open spec fn row_bytes(r: Vec<String>) -> Seq<Seq<u8>> {
    r@.map_values(|c: String| vstd::utf8::encode_utf8(c@))
}

#[verifier::loop_isolation(false)]
fn table_rows_bytes(rows: &Vec<Vec<String>>) -> (r: Vec<Vec<Vec<u8>>>)
    ensures
        r@.len() == rows@.len(),
        forall|i: int| 0 <= i < r@.len() ==> crate::bytes_util::views((#[trigger] r@[i])@) == row_bytes(rows@[i]),
{
    let mut out: Vec<Vec<Vec<u8>>> = Vec::new();
    let mut ri: usize = 0;
    while ri < rows.len()
        invariant
            ri <= rows@.len(),
            out@.len() == ri,
            forall|i: int| 0 <= i < out@.len() ==> crate::bytes_util::views((#[trigger] out@[i])@) == row_bytes(rows@[i]),
        decreases rows@.len() - ri,
    {
        let mut row: Vec<Vec<u8>> = Vec::new();
        let mut ci: usize = 0;
        while ci < rows[ri].len()
            invariant
                ci <= rows@[ri as int]@.len(),
                crate::bytes_util::views(row@) == row_bytes(rows@[ri as int]).subrange(0, ci as int),
            decreases rows@[ri as int]@.len() - ci,
        {
            let ghost r0 = row@;
            row.push(str_bytes(rows[ri][ci].as_str()));
            assert(crate::bytes_util::views(row@) =~= crate::bytes_util::views(r0).push(row@.last()@));
            assert(crate::bytes_util::views(row@) =~= row_bytes(rows@[ri as int]).subrange(0, ci + 1));
            ci = ci + 1;
        }
        assert(row_bytes(rows@[ri as int]).subrange(0, ci as int) =~= row_bytes(rows@[ri as int]));
        let ghost o0 = out@;
        out.push(row);
        assert(forall|i: int| 0 <= i < o0.len() ==> out@[i] == o0[i]);
        ri = ri + 1;
    }
    out
}

/// Generates a document from a template: the template's body is cleared
/// (a template whose body still has blocks after clearing, having section
/// breaks inside paragraphs, is refused), an anchor paragraph is put at
/// the start of the body, the blocks are written in order after the last
/// block (consecutive headings and paragraphs in one batch, each table,
/// table of contents and picture on its own), the anchor is removed, and
/// the result is checked by [`self_check`]. Headings take the first heading
/// style the template resolves; plain paragraphs take `正文` or `Normal`.
#[verifier::loop_isolation(false)]
pub fn generate_from_template(template: &[u8], blocks: &Vec<WriteBlock>) -> (r: DocResult<GeneratedDoc>)
    requires
        blocks_sizable(blocks@),
    ensures
        blocks@.len() == 0 ==> (r matches Err(e) && e.kind == ErrorKind::Validation),
        blocks@.len() > MAX_WRITE_BLOCKS ==> (r matches Err(e) && e.kind == ErrorKind::Validation),
        0 < blocks@.len() <= MAX_WRITE_BLOCKS && !(zip_entry_of(template@, "word/document.xml"@) matches Some(Some(_)))
            ==> (r matches Err(e) && e.kind == ErrorKind::Validation),
        r matches Ok(g) ==> {
            &&& g.paragraphs == count_kind(blocks@, 0)
            &&& g.tables == count_kind(blocks@, 1)
            &&& g.tocs == count_kind(blocks@, 2)
            &&& g.images == count_kind(blocks@, 3)
            &&& g.paragraphs + g.tables + g.tocs + g.images == blocks@.len()
        },
{
    if blocks.len() == 0 {
        return Err(DocError::validation(str_bytes("生成块无效: blocks 为空。write_docx 至少一个内容块——纯复制模板请用 copy_file。")));
    }
    if blocks.len() > MAX_WRITE_BLOCKS {
        let mut m = str_bytes("生成块无效: ");
        crate::bytes_util::push_usize(&mut m, blocks.len());
        push_str(&mut m, " 块（上限 300）。请拆成多次生成（write_docx 续写前先用 edit_docx 定位末块），或减少单次内容量。");
        return Err(DocError::validation(m));
    }
    let doc_xml = match docx::read_document_xml(template) {
        Ok(x) => x,
        Err(e) => {
            let mut m = str_bytes("模板无效: 不是可用的 docx 模板（");
            push_bytes(&mut m, e.message.as_slice());
            push_str(&mut m, "）。请确认模板文件未损坏，或换用内置模板（template=\"report\"）。");
            return Err(DocError::validation(m));
        },
    };
    let dom = match xml_dom::parse(doc_xml.as_slice()) {
        Ok(d) => d,
        Err(e) => {
            let mut m = str_bytes("模板无效: 模板 document.xml 解析失败（");
            push_bytes(&mut m, e.message.as_slice());
            push_str(&mut m, "）。");
            return Err(DocError::validation(m));
        },
    };
    let model = docx_model::build_document(&dom);
    let stylesheet = load_styles(template)?;
    let mut bytes = slice_vec(template, 0, template.len());
    let n = model.body.len();
    if n > 0 {
        let ops = vec![EditOp::ClearBody { expect_blocks: n }];
        let (cleared, _) = apply_edits_to_bytes(bytes.as_slice(), &ops)?;
        bytes = cleared;
    }
    if block_count(bytes.as_slice())? > 0 {
        return Err(DocError::validation(str_bytes("模板不支持: 该模板是多节文档（分节符内嵌段落），write_docx v1 只支持单节模板。怎么办：copy_file 复制模板后用 edit_docx clear_body + 逐块写入（多节结构原样保留）。")));
    }
    bytes = inject_anchor(bytes)?;
    let mut anchor: usize = 1;
    let mut paragraphs: usize = 0;
    let mut tables: usize = 0;
    let mut images: usize = 0;
    let mut tocs: usize = 0;
    let mut i: usize = 0;
    while i < blocks.len()
        invariant
            i <= blocks@.len() <= MAX_WRITE_BLOCKS,
            anchor == i + 1,
            paragraphs == count_kind(blocks@.subrange(0, i as int), 0),
            tables == count_kind(blocks@.subrange(0, i as int), 1),
            tocs == count_kind(blocks@.subrange(0, i as int), 2),
            images == count_kind(blocks@.subrange(0, i as int), 3),
            paragraphs + tables + tocs + images == i,
        decreases blocks@.len() - i,
    {
        proof {
            lemma_count_step(blocks@, i as int);
        }
        match &blocks[i] {
            WriteBlock::Table { rows, header, table_style } => {
                let op = EditOp::InsertTableAfter {
                    block: anchor,
                    expect_prefix: String::new(),
                    rows: table_rows_bytes(rows),
                    header: *header,
                    table_style: table_style.clone(),
                };
                let ops = vec![op];
                let (nb, _) = apply_edits_to_bytes(bytes.as_slice(), &ops)?;
                bytes = nb;
                tables = tables + 1;
                anchor = anchor + 1;
                i = i + 1;
            },
            WriteBlock::Toc { levels, hyperlink } => {
                bytes = insert_toc_after(bytes.as_slice(), anchor, *levels, *hyperlink)?;
                tocs = tocs + 1;
                anchor = anchor + 1;
                i = i + 1;
            },
            WriteBlock::Image { image, width_emu } => {
                assert(image.width_px > 0) by {
                    assert(blocks@[i as int] matches WriteBlock::Image { image, .. } ==> image.width_px > 0);
                }
                bytes = insert_image_after(bytes.as_slice(), anchor, image, *width_emu)?;
                images = images + 1;
                anchor = anchor + 1;
                i = i + 1;
            },
            _ => {
                let mut ops: Vec<EditOp> = Vec::new();
                let mut j: usize = i;
                while j < blocks.len() && kind_of(&blocks[j]) == 0
                    invariant
                        i <= j <= blocks@.len() <= MAX_WRITE_BLOCKS,
                        anchor == i + 1,
                        paragraphs == count_kind(blocks@.subrange(0, j as int), 0),
                        tables == count_kind(blocks@.subrange(0, j as int), 1),
                        tocs == count_kind(blocks@.subrange(0, j as int), 2),
                        images == count_kind(blocks@.subrange(0, j as int), 3),
                        paragraphs + tables + tocs + images == j,
                    decreases blocks@.len() - j,
                {
                    proof {
                        lemma_count_step(blocks@, j as int);
                    }
                    let (text, style) = paragraph_style_of(&blocks[j], &stylesheet);
                    ops.push(EditOp::InsertParagraphAfter { block: anchor, expect_prefix: String::new(), text, style });
                    paragraphs = paragraphs + 1;
                    j = j + 1;
                }
                assert(j > i);
                let (nb, _) = apply_edits_to_bytes(bytes.as_slice(), &ops)?;
                bytes = nb;
                anchor = anchor + (j - i);
                i = j;
            },
        }
    }
    assert(blocks@.subrange(0, i as int) =~= blocks@);
    let del = vec![EditOp::DeleteBlock { block: 1, expect_prefix: String::new() }];
    let (nb, _) = apply_edits_to_bytes(bytes.as_slice(), &del)?;
    bytes = nb;
    self_check(bytes.as_slice(), blocks)?;
    Ok(GeneratedDoc { bytes, paragraphs, tables, images, tocs })
}

} // verus!
