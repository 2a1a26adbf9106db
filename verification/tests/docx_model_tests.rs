use docx_engine::docx_model::{build_document, document_text, Block, DocxDocument, NumRef, Revision};
use docx_engine::xml_dom;

fn model(xml_body: &str) -> DocxDocument {
    let xml = format!(r#"<w:document xmlns:w="w" xmlns:r="r"><w:body>{}</w:body></w:document>"#, xml_body);
    let dom = xml_dom::parse(xml.as_bytes()).unwrap();
    build_document(&dom)
}

fn text(doc: &DocxDocument) -> String {
    String::from_utf8(document_text(doc)).unwrap()
}

fn s(v: &Option<Vec<u8>>) -> Option<&str> {
    v.as_ref().map(|x| std::str::from_utf8(x).unwrap())
}

#[test]
fn paragraphs_and_props() {
    let doc = model(r#"<w:p><w:pPr><w:pStyle w:val="2"/><w:jc w:val="center"/><w:numPr><w:ilvl w:val="1"/><w:numId w:val="3"/></w:numPr></w:pPr><w:r><w:rPr><w:b/><w:sz w:val="32"/><w:color w:val="FF0000"/><w:rFonts w:eastAsia="黑体" w:ascii="Times"/></w:rPr><w:t>标题</w:t></w:r></w:p>"#);
    let Block::Paragraph(p) = &doc.body[0] else { panic!("应为段落") };
    assert_eq!(s(&p.props.style), Some("2"));
    assert_eq!(s(&p.props.alignment), Some("center"));
    assert_eq!(p.props.numbering, Some(NumRef { num_id: 3, ilvl: 1 }));
    let r = &p.runs[0];
    assert_eq!(r.text, "标题".as_bytes());
    assert_eq!(r.props.bold, Some(true));
    assert_eq!(r.props.size_half_pt, Some(32));
    assert_eq!(s(&r.props.color), Some("FF0000"));
    assert_eq!(s(&r.props.font_east_asia), Some("黑体"));
    assert_eq!(s(&r.props.font_ascii), Some("Times"));
    assert_eq!(text(&doc), "标题\n");
}

#[test]
fn on_off_false_values() {
    let doc = model(r#"<w:p><w:r><w:rPr><w:b w:val="false"/><w:i w:val="0"/></w:rPr><w:t>x</w:t></w:r></w:p>"#);
    let Block::Paragraph(p) = &doc.body[0] else { panic!() };
    assert_eq!(p.runs[0].props.bold, Some(false));
    assert_eq!(p.runs[0].props.italic, Some(false));
}

#[test]
fn revision_semantics() {
    let doc = model(r#"<w:p><w:r><w:t>保留</w:t></w:r><w:ins><w:r><w:t>新增</w:t></w:r></w:ins><w:del><w:r><w:delText>旧文</w:delText></w:r></w:del></w:p>"#);
    let Block::Paragraph(p) = &doc.body[0] else { panic!() };
    assert_eq!(p.runs.len(), 3);
    assert_eq!(p.runs[1].revision, Some(Revision::Inserted));
    assert_eq!(p.runs[2].revision, Some(Revision::Deleted));
    assert_eq!(p.runs[2].text, "旧文".as_bytes());
    assert_eq!(text(&doc), "保留新增\n");
}

#[test]
fn table_grid_and_nesting() {
    let doc = model(
        r#"<w:tbl><w:tr><w:tc><w:p><w:r><w:t>A1</w:t></w:r></w:p></w:tc><w:tc><w:tcPr><w:gridSpan w:val="2"/><w:vMerge w:val="restart"/></w:tcPr><w:p><w:r><w:t>B1</w:t></w:r></w:p></w:tc></w:tr>\
               <w:tr><w:tc><w:p><w:r><w:t>A2</w:t></w:r></w:p></w:tc><w:tc><w:tcPr><w:vMerge/></w:tcPr><w:p><w:r><w:t></w:t></w:r></w:p></w:tc></w:tr></w:tbl>"#,
    );
    let Block::Table(t) = &doc.body[0] else { panic!() };
    assert_eq!(t.rows.len(), 2);
    assert_eq!(t.rows[0].cells[1].grid_span, Some(2));
    assert_eq!(s(&t.rows[0].cells[1].v_merge), Some("restart"));
    assert_eq!(s(&t.rows[1].cells[1].v_merge), Some("continue"));
    assert_eq!(text(&doc), "A1\nB1\nA2\n\n");
}

#[test]
fn nested_table_inside_cell() {
    let doc = model(
        r#"<w:tbl><w:tr><w:tc><w:tbl><w:tr><w:tc><w:p><w:r><w:t>内层</w:t></w:r></w:p></w:tc></w:tr></w:tbl><w:p><w:r><w:t>外层</w:t></w:r></w:p></w:tc></w:tr></w:tbl>"#,
    );
    let Block::Table(t) = &doc.body[0] else { panic!() };
    let Block::Table(inner) = &t.rows[0].cells[0].blocks[0] else { panic!() };
    assert_eq!(text(&doc), "内层\n外层\n");
    assert_eq!(inner.rows.len(), 1);
}

#[test]
fn transparent_containers_flatten() {
    let doc = model(r#"<w:sdt><w:sdtContent><w:p><w:r><w:t>目录项</w:t></w:r></w:p></w:sdtContent></w:sdt><w:p><w:hyperlink><w:r><w:t>链接文字</w:t></w:r></w:hyperlink></w:p>"#);
    assert_eq!(doc.body.len(), 2);
    assert_eq!(text(&doc), "目录项\n链接文字\n");
}

#[test]
fn exotic_drawing_text_flattened() {
    let doc = model(r#"<w:p><w:r><w:t>前</w:t></w:r><w:r><w:drawing><w:pict><w:txbxContent><w:p><w:r><w:t>框内</w:t></w:r></w:p></w:txbxContent></w:pict></w:drawing></w:r><w:r><w:t>后</w:t></w:r></w:p>"#);
    assert_eq!(text(&doc), "前框内\n后\n");
}

#[test]
fn section_props_collected() {
    let doc = model(
        r#"<w:p><w:pPr><w:sectPr><w:pgSz w:w="11906" w:h="16838" w:orient="portrait"/><w:headerReference w:type="default" r:id="rId4"/></w:sectPr></w:pPr><w:r><w:t>节1末段</w:t></w:r></w:p>\
               <w:sectPr><w:pgMar w:top="1440" w:bottom="1440" w:left="1800" w:right="1800"/><w:footerReference w:type="first" r:id="rId8"/></w:sectPr>"#,
    );
    assert_eq!(doc.sections.len(), 2);
    assert_eq!(doc.sections[0].page_w, Some(11906));
    assert_eq!(doc.sections[0].header_refs, vec![(b"default".to_vec(), b"rId4".to_vec())]);
    assert_eq!(doc.sections[1].margin_left, Some(1800));
    assert_eq!(doc.sections[1].footer_refs[0].0, b"first".to_vec());
}

#[test]
fn tab_stop_definitions_not_text() {
    let doc = model(r#"<w:p><w:pPr><w:tabs><w:tab w:val="left" w:pos="864"/><w:tab w:val="right" w:pos="9350"/></w:tabs></w:pPr><w:r><w:t>A</w:t><w:tab/><w:t>B</w:t></w:r></w:p>"#);
    assert_eq!(text(&doc), "A\tB\n");
}

#[test]
fn num_id_zero_is_none() {
    let doc = model(r#"<w:p><w:pPr><w:numPr><w:numId w:val="0"/></w:numPr></w:pPr><w:r><w:t>x</w:t></w:r></w:p>"#);
    let Block::Paragraph(p) = &doc.body[0] else { panic!() };
    assert!(p.props.numbering.is_none());
}

#[test]
fn parse_rejects_text_without_root() {
    let e = xml_dom::parse(b"just text").unwrap_err();
    assert_eq!(e.kind, docx_engine::error::ErrorKind::Internal);
}

#[test]
fn parse_wraps_several_roots() {
    let root = xml_dom::parse(b"<a/><b/>").unwrap();
    assert_eq!(root.name, b"#".to_vec());
    assert_eq!(root.children.len(), 2);
}
