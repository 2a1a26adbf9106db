use docx_engine::docx_edit::{CharFormat, MergeDirection, ParaFormat, TableLevel};
use docx_engine::docx_model::{blocks_text, build_document, Block, DocxDocument};
use docx_engine::edit_batch::{apply_edits, apply_edits_locked, EditOp};
use docx_engine::error::DocError;
use docx_engine::locate::locate_blocks;
use docx_engine::styles::{parse_styles, Stylesheet};
use docx_engine::xml_dom;
use docx_engine::xml_scan::root_children;
use std::io::Write;

fn wrap(body: &str) -> String {
    format!(r#"<w:document xmlns:w="w" xmlns:r="r"><w:body>{body}</w:body></w:document>"#)
}

fn model_of(xml: &str) -> DocxDocument {
    build_document(&xml_dom::parse(xml.as_bytes()).unwrap())
}

fn text_of(m: &DocxDocument) -> String {
    let mut t: Vec<u8> = Vec::new();
    blocks_text(m.body.as_slice(), &mut t);
    String::from_utf8(t).unwrap()
}

fn val_msg(e: DocError) -> String {
    String::from_utf8(e.message).unwrap()
}

fn run(xml: &str, styles: &Stylesheet, ops: Vec<EditOp>) -> Result<(String, Vec<docx_engine::docx_edit::AppliedOp>), DocError> {
    apply_edits(xml.as_bytes(), styles, &ops).map(|(o, a)| (String::from_utf8(o).unwrap(), a))
}

fn sheet(xml: &str) -> Stylesheet {
    parse_styles(&xml_dom::parse(xml.as_bytes()).unwrap())
}

fn heading_styles() -> Stylesheet {
    sheet(r#"<w:styles>
            <w:style w:type="paragraph" w:styleId="h2"><w:name w:val="heading 2"/></w:style>
            <w:style w:type="paragraph" w:styleId="body"><w:name w:val="Normal"/></w:style>
        </w:styles>"#)
}

fn empty_para() -> ParaFormat {
    ParaFormat { align: None, line: None, space_before: None, space_after: None, indent_first_line_tw: None, indent_left_tw: None }
}

fn empty_char() -> CharFormat {
    CharFormat { bold: None, italic: None, size_half_pt: None, color: None, font: None }
}

fn assert_locator_aligned(xml: &str) {
    let spans = locate_blocks(xml.as_bytes()).unwrap();
    let model = model_of(xml);
    assert_eq!(spans.len(), model.body.len(), "定位器/模型块数不一致");
    for (i, span) in spans.iter().enumerate() {
        let piece = &xml[span.start..span.end];
        let piece_model = model_of(piece);
        assert_eq!(piece_model.body.len(), 1, "块 {} 子串应恰为单块: {piece}", i + 1);
        let mut expect: Vec<u8> = Vec::new();
        blocks_text(&model.body[i..i + 1], &mut expect);
        let mut got: Vec<u8> = Vec::new();
        blocks_text(piece_model.body.as_slice(), &mut got);
        assert_eq!(expect, got, "块 {} 文本不一致", i + 1);
    }
}


























fn cell_xml(text: &str) -> String {
    format!(r#"<w:tc><w:tcPr><w:tcW w:w="2000" w:type="dxa"/></w:tcPr><w:p><w:pPr><w:jc w:val="center"/></w:pPr><w:r><w:rPr><w:b/></w:rPr><w:t>{text}</w:t></w:r></w:p></w:tc>"#)
}

fn row_xml(a: &str, b: &str) -> String {
    format!("<w:tr>{}{}</w:tr>", cell_xml(a), cell_xml(b))
}

fn two_row_table_doc() -> String {
    wrap(&format!("<w:p><w:r><w:t>前</w:t></w:r></w:p><w:tbl>{}{}</w:tbl>", row_xml("A1", "B1"), row_xml("A2", "B2")))
}










#[test]
fn merge_vertical_then_split_restores() {
    let xml = two_row_table_doc();
    let styles = Stylesheet::empty();
    let (out, _) = run(
        &xml,
        &styles,
        vec![EditOp::MergeCells {
            block: 2,
            expect_prefix: "".into(),
            direction: Some(MergeDirection::Vertical),
            row: 1,
            cell: 2,
            span: None,
            end_row: None,
            end_cell: None,
        }],
    )
    .unwrap();
    let m = model_of(&out);
    match &m.body[1] {
        Block::Table(t) => {
            assert_eq!(t.rows[0].cells[1].v_merge.as_deref(), Some(b"restart".as_slice()));
            assert_eq!(t.rows[1].cells[1].v_merge.as_deref(), Some(b"continue".as_slice()));
        },
        _ => panic!(),
    }
    let (out2, applied) = run(
        &out,
        &styles,
        vec![EditOp::SplitCell { block: 2, expect_prefix: "".into(), direction: MergeDirection::Vertical, row: 1, cell: 2 }],
    )
    .unwrap();
    assert!(applied[0].after.contains("2 格恢复独立显示"), "{}", applied[0].after);
    assert_eq!(out2, xml, "拆分恢复原样");
}




#[test]
fn clear_body_keeps_section_blocks() {
    let xml = wrap(
        r#"<w:p><w:r><w:t>一</w:t></w:r></w:p><w:p><w:pPr><w:sectPr><w:pgSz w:w="1"/></w:sectPr></w:pPr><w:r><w:t>节末</w:t></w:r></w:p><w:p><w:r><w:t>三</w:t></w:r></w:p><w:sectPr/>"#,
    );
    let (out, applied) = run(&xml, &Stylesheet::empty(), vec![EditOp::ClearBody { expect_blocks: 3 }]).unwrap();
    assert_eq!(applied[0].op, "clear_body");
    assert_eq!(applied[0].after, "清空（删 2 块，保留 1 个节属性块）");
    let m = model_of(&out);
    assert_eq!(m.body.len(), 1);
    assert!(out.contains("<w:sectPr/>"));
    let err = val_msg(run(&xml, &Stylesheet::empty(), vec![EditOp::ClearBody { expect_blocks: 2 }]).unwrap_err());
    assert!(err.starts_with("指纹不符"), "实际: {err}");
}

#[test]
fn block_lock_refuses_blocks_outside() {
    let body: String = (1..=4).map(|i| format!("<w:p><w:r><w:t>第{i}段</w:t></w:r></w:p>")).collect();
    let xml = wrap(&body);
    let styles = Stylesheet::empty();
    let ops = vec![EditOp::ReplaceText { block: 4, expect_prefix: "第4段".into(), new_text: "x".into() }];
    let err = apply_edits_locked(xml.as_bytes(), &styles, &ops, Some((2, 3))).unwrap_err();
    assert!(val_msg(err).starts_with("区间外块"));
    let ops = vec![EditOp::ReplaceText { block: 3, expect_prefix: "第3段".into(), new_text: "x".into() }];
    assert!(apply_edits_locked(xml.as_bytes(), &styles, &ops, Some((2, 3))).is_ok());
    let ops = vec![EditOp::ClearBody { expect_blocks: 4 }];
    let err = apply_edits_locked(xml.as_bytes(), &styles, &ops, Some((1, 4))).unwrap_err();
    assert!(val_msg(err).starts_with("区间外块"));
}

#[test]
fn empty_batch_refused() {
    let xml = wrap(r#"<w:p><w:r><w:t>一</w:t></w:r></w:p>"#);
    let err = run(&xml, &Stylesheet::empty(), vec![]).unwrap_err();
    assert!(val_msg(err).starts_with("操作列表为空"));
}



#[test]
fn edits_leave_bytes_outside_touched_blocks_alone() {
    let xml = wrap(
        r#"<w:p><w:r><w:t>一</w:t></w:r></w:p>  <w:bookmarkStart w:id="0" w:name="x"/><w:p><w:r><w:t>二</w:t></w:r></w:p><!-- c --><w:p><w:r><w:t>三</w:t></w:r></w:p>"#,
    );
    let spans = locate_blocks(xml.as_bytes()).unwrap();
    let (out, applied) = run(
        &xml,
        &Stylesheet::empty(),
        vec![EditOp::ReplaceText { block: 2, expect_prefix: "二".into(), new_text: "贰".into() }],
    )
    .unwrap();
    assert_eq!(applied.len(), 1);
    let (s, e) = (spans[1].start, spans[1].end);
    assert!(out.starts_with(&xml[..s]), "块 2 之前逐字节不变: {out}");
    assert!(out.ends_with(&xml[e..]), "块 2 之后逐字节不变: {out}");
    assert_eq!(text_of(&model_of(&out)), "一\n贰\n三\n");
}

#[test]
fn package_edit_keeps_other_entries_and_reports_each_op() {
    let doc = wrap(r#"<w:p><w:r><w:t>甲</w:t></w:r></w:p><w:p><w:r><w:t>乙</w:t></w:r></w:p>"#);
    let mut w = zip::ZipWriter::new(std::io::Cursor::new(Vec::new()));
    for (name, content) in [("word/document.xml", doc.as_str()), ("word/other.xml", "<x>保持</x>")] {
        w.start_file(name, zip::write::SimpleFileOptions::default()).unwrap();
        w.write_all(content.as_bytes()).unwrap();
    }
    let bytes = w.finish().unwrap().into_inner();
    let ops = vec![
        EditOp::ReplaceText { block: 1, expect_prefix: "甲".into(), new_text: "丙".into() },
        EditOp::DeleteBlock { block: 2, expect_prefix: "乙".into() },
    ];
    let (out, applied) = docx_engine::edit_batch::apply_edits_to_bytes(&bytes, &ops).unwrap();
    assert_eq!(applied.len(), 2);
    let other = docx_engine::docx::read_entry(&out, "word/other.xml").unwrap().unwrap();
    assert_eq!(other, "<x>保持</x>".as_bytes().to_vec());
    let new_doc = String::from_utf8(docx_engine::docx::read_document_xml(&out).unwrap()).unwrap();
    assert_eq!(text_of(&model_of(&new_doc)), "丙\n");
}

#[test]
fn locator_refuses_root_other_than_document() {
    assert!(locate_blocks(br#"<w:body><w:p/></w:body>"#).is_err());
    let ok = locate_blocks(br#"<w:document xmlns:w="w"><w:body><w:p/></w:body></w:document>"#).unwrap();
    assert_eq!(ok.len(), 1);
}

#[test]
fn root_children_refuses_several_roots_and_open_root() {
    assert!(root_children(br#"<w:a></w:a><w:b/>"#).is_none());
    assert!(root_children(br#"<w:a/><w:b/>"#).is_none());
    assert!(root_children(br#"<w:a><w:b/>"#).is_none());
    let cs = root_children(br#"<w:a><w:b/><w:c></w:c></w:a>"#).unwrap();
    assert_eq!(cs.len(), 2);
    assert!(root_children(br#"<w:a/>"#).unwrap().is_empty());
}
