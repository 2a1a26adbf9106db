use docx_engine::docx::{extract, read_entry, repack_part};
use docx_engine::docx_edit::restyle_paragraph;
use docx_engine::docx_model::build_document;
use docx_engine::docx_validate::{eval_assert, AssertSpec};
use docx_engine::docx_write::build_builtin_template;
use docx_engine::edit_batch::{apply_edits, EditOp};
use docx_engine::locate::locate_blocks;
use docx_engine::styles::{parse_styles, Stylesheet};
use docx_engine::xml_dom;

fn wrap(body: &str) -> String {
    format!(r#"<w:document xmlns:w="w" xmlns:r="r"><w:body>{body}</w:body></w:document>"#)
}

#[test]
fn clear_body_keeps_exactly_the_section_blocks() {
    let xml = wrap(
        r#"<w:p><w:r><w:t>一</w:t></w:r></w:p><w:p><w:pPr><w:sectPr><w:pgSz w:w="1"/></w:sectPr></w:pPr><w:r><w:t>节末</w:t></w:r></w:p><w:p><w:r><w:t>三</w:t></w:r></w:p><w:sectPr/>"#,
    );
    let spans = locate_blocks(xml.as_bytes()).unwrap();
    assert_eq!(spans.len(), 3);
    let b = xml.as_bytes();
    let mut expected: Vec<u8> = b[..spans[0].start].to_vec();
    expected.extend_from_slice(&b[spans[1].start..spans[1].end]);
    expected.extend_from_slice(&b[spans[2].end..]);
    let (out, applied) = apply_edits(b, &Stylesheet::empty(), &vec![EditOp::ClearBody { expect_blocks: 3 }]).unwrap();
    assert_eq!(applied.len(), 1);
    assert_eq!(out, expected);
}

#[test]
fn set_style_splices_the_restyled_paragraph() {
    let styles = parse_styles(
        &xml_dom::parse(
            br#"<w:styles><w:style w:type="paragraph" w:styleId="h2"><w:name w:val="heading 2"/></w:style></w:styles>"#,
        )
        .unwrap(),
    );
    let xml = wrap(r#"<w:p><w:r><w:t>甲</w:t></w:r></w:p><w:p><w:r><w:t>乙</w:t></w:r></w:p>"#);
    let b = xml.as_bytes();
    let spans = locate_blocks(b).unwrap();
    let ops = vec![EditOp::SetStyle { block: 2, expect_prefix: "乙".into(), style: "heading 2".into() }];
    let (out, _) = apply_edits(b, &styles, &ops).unwrap();
    let restyled = restyle_paragraph(&b[spans[1].start..spans[1].end], b"h2").unwrap();
    let mut expected: Vec<u8> = b[..spans[1].start].to_vec();
    expected.extend_from_slice(&restyled);
    expected.extend_from_slice(&b[spans[1].end..]);
    assert_eq!(out, expected);
    assert!(String::from_utf8(out).unwrap().contains(r#"<w:pStyle w:val="h2"/>"#));
}

#[test]
fn parse_accepts_well_formed_text_only() {
    assert!(xml_dom::parse(b"<?xml version=\"1.0\"?><!-- c --><a x='1'><b/>t<![CDATA[z]]></a>").is_ok());
    assert!(xml_dom::parse(b"<a><b></a>").is_err());
    assert!(xml_dom::parse(b"<a>").is_err());
    assert!(xml_dom::parse(b"only text").is_err());
    assert!(xml_dom::parse(b"<a x=1/>").is_err());
    assert!(xml_dom::parse(b"<a></a></b>").is_err());
}

#[test]
fn repack_part_succeeds_on_a_readable_package() {
    let pkg = build_builtin_template("report").unwrap();
    let out = repack_part(&pkg, "word/document.xml", b"<w:document/>").unwrap();
    assert_eq!(read_entry(&out, "word/document.xml").unwrap(), Some(b"<w:document/>".to_vec()));
    assert_eq!(read_entry(&out, "word/styles.xml").unwrap(), read_entry(&pkg, "word/styles.xml").unwrap());
}

#[test]
fn extract_succeeds_on_a_parsing_document() {
    let pkg = build_builtin_template("report").unwrap();
    assert!(extract(&pkg).is_ok());
}

#[test]
fn failed_assertions_name_their_target() {
    let xml = wrap(r#"<w:p><w:r><w:t>甲</w:t></w:r></w:p>"#);
    let model = build_document(&xml_dom::parse(xml.as_bytes()).unwrap());
    let sheet = Stylesheet::empty();
    let f = eval_assert(&AssertSpec::BlockCount { equals: 2 }, &model.body, &sheet).unwrap_err();
    assert_eq!(f.target, "全文");
    let f = eval_assert(
        &AssertSpec::BlockText { block: 9, equals: Some("甲".into()), contains: None, starts_with: None },
        &model.body,
        &sheet,
    )
    .unwrap_err();
    assert_eq!(f.target, "块9");
    let f = eval_assert(
        &AssertSpec::CellText { block: 1, row: 2, cell: 3, equals: Some("x".into()), contains: None, starts_with: None },
        &model.body,
        &sheet,
    )
    .unwrap_err();
    assert_eq!(f.target, "块1");
}
