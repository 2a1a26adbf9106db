use docx_engine::docx::{read_document_xml, read_entry};
use docx_engine::docx_model::{blocks_text, build_document, Block};
use docx_engine::docx_pkg::ImagePayload;
use docx_engine::docx_write::{
    build_builtin_template, generate_from_template, image_extent, self_check, WriteBlock, MAX_WRITE_BLOCKS,
};
use docx_engine::xml_dom;
use std::io::Write;

const SYNTH_STYLES: &str = r#"<w:styles xmlns:w="http://schemas.openxmlformats.org/wordprocessingml/2006/main"><w:style w:type="paragraph" w:default="1" w:styleId="Normal"><w:name w:val="Normal"/><w:qFormat/></w:style><w:style w:type="paragraph" w:styleId="Heading1"><w:name w:val="heading 1"/><w:qFormat/></w:style><w:style w:type="paragraph" w:styleId="Heading2"><w:name w:val="heading 2"/><w:qFormat/></w:style></w:styles>"#;

fn zip_of(parts: &[(&str, &str)]) -> Vec<u8> {
    let mut w = zip::ZipWriter::new(std::io::Cursor::new(Vec::new()));
    for (name, content) in parts {
        w.start_file(*name, zip::write::SimpleFileOptions::default()).unwrap();
        w.write_all(content.as_bytes()).unwrap();
    }
    w.finish().unwrap().into_inner()
}

/// A single-section template whose body holds `body_blocks` and a body-level `w:sectPr`.
fn synth_template(body_blocks: &str, styles_xml: &str) -> Vec<u8> {
    let document = format!(
        r#"<w:document xmlns:w="http://schemas.openxmlformats.org/wordprocessingml/2006/main"><w:body>{body_blocks}<w:sectPr><w:pgSz w:w="11906" w:h="16838"/></w:sectPr></w:body></w:document>"#
    );
    zip_of(&[
        ("[Content_Types].xml", "<Types/>"),
        ("word/document.xml", &document),
        ("word/styles.xml", styles_xml),
    ])
}

fn heading(level: u32, text: &str) -> WriteBlock {
    WriteBlock::Heading { level, text: text.into() }
}

fn para(text: &str) -> WriteBlock {
    WriteBlock::Paragraph { text: text.into(), style: None }
}

fn table(rows: &[&[&str]]) -> WriteBlock {
    WriteBlock::Table {
        rows: rows.iter().map(|r| r.iter().map(|c| c.to_string()).collect()).collect(),
        header: None,
        table_style: None,
    }
}

/// What the text of a table block reads as: each cell's text on its own line.
fn table_text(rows: &[&[&str]]) -> String {
    let mut s = String::new();
    for row in rows {
        for c in *row {
            s.push_str(c);
            s.push('\n');
        }
    }
    s.trim().to_string()
}

fn doc_text(bytes: &[u8]) -> String {
    String::from_utf8(read_document_xml(bytes).unwrap()).unwrap()
}

/// Each body block: its trimmed text and whether it is a table.
fn outline_of(bytes: &[u8]) -> Vec<(String, bool)> {
    let xml = read_document_xml(bytes).unwrap();
    let dom = xml_dom::parse(&xml).unwrap();
    let model = build_document(&dom);
    model
        .body
        .iter()
        .map(|b| {
            let mut text = Vec::new();
            blocks_text(std::slice::from_ref(b), &mut text);
            let is_table = matches!(b, Block::Table { .. });
            (String::from_utf8(text).unwrap().trim().to_string(), is_table)
        })
        .collect()
}

fn err_text(e: docx_engine::error::DocError) -> String {
    e.to_string()
}

#[test]
fn generates_mixed_sequence_in_order() {
    let tpl = synth_template(
        r#"<w:p><w:r><w:t>旧标题</w:t></w:r></w:p><w:p><w:r><w:t>旧正文</w:t></w:r></w:p>"#,
        SYNTH_STYLES,
    );
    let blocks = vec![
        heading(1, "总标题"),
        para("引言段。"),
        table(&[&["列A", "列B"], &["1", "2"]]),
        para("表后段。"),
        heading(2, "小结"),
        table(&[&["x"], &["y"], &["z"]]),
        para("尾段。"),
    ];
    let out = generate_from_template(&tpl, &blocks).unwrap();
    assert_eq!(out.paragraphs, 5);
    assert_eq!(out.tables, 2);
    let outline = outline_of(&out.bytes);
    assert_eq!(
        outline,
        vec![
            ("总标题".into(), false),
            ("引言段。".into(), false),
            (table_text(&[&["列A", "列B"], &["1", "2"]]), true),
            ("表后段。".into(), false),
            ("小结".into(), false),
            (table_text(&[&["x"], &["y"], &["z"]]), true),
            ("尾段。".into(), false),
        ]
    );
}

#[test]
fn builtin_template_generates_and_carries_heading_styles() {
    let tpl = build_builtin_template("report").unwrap();
    let blocks = vec![heading(1, "季度报告"), para("正文第一段。"), table(&[&["项", "值"], &["收入", "100"]])];
    let out = generate_from_template(&tpl, &blocks).unwrap();
    let xml = doc_text(&out.bytes);
    assert!(xml.contains(r#"<w:pStyle w:val="Heading1"/>"#), "标题段应挂 Heading1");
    assert!(xml.contains(r#"<w:pStyle w:val="Normal"/>"#), "正文段应显式挂 Normal");
    assert!(xml.contains("<w:sectPr>"));
}

#[test]
fn empty_body_template_also_works() {
    let tpl = synth_template("", SYNTH_STYLES);
    let out = generate_from_template(&tpl, &vec![para("唯一段")]).unwrap();
    let outline = outline_of(&out.bytes);
    assert_eq!(outline, vec![("唯一段".into(), false)]);
}

#[test]
fn anchor_removed_from_output() {
    let tpl = synth_template(r#"<w:p><w:r><w:t>旧</w:t></w:r></w:p>"#, SYNTH_STYLES);
    let out = generate_from_template(&tpl, &vec![para("首段")]).unwrap();
    let xml = doc_text(&out.bytes);
    assert!(!xml.contains("<w:p/>"), "锚段应已删除");
}

#[test]
fn multi_section_template_rejected() {
    let tpl = synth_template(
        r#"<w:p><w:pPr><w:sectPr><w:pgSz w:w="11906" w:h="16838"/></w:sectPr></w:pPr></w:p><w:p><w:r><w:t>尾节段</w:t></w:r></w:p>"#,
        SYNTH_STYLES,
    );
    let err = generate_from_template(&tpl, &vec![para("x")]).unwrap_err();
    let msg = err_text(err);
    assert!(msg.starts_with("参数校验失败: 模板不支持:"), "实际: {msg}");
}

#[test]
fn empty_and_overflow_blocks_rejected() {
    let tpl = build_builtin_template("report").unwrap();
    let err = generate_from_template(&tpl, &vec![]).unwrap_err();
    assert!(err_text(err).starts_with("参数校验失败: 生成块无效:"));
    let many: Vec<WriteBlock> = (0..MAX_WRITE_BLOCKS + 1).map(|i| para(&format!("p{i}"))).collect();
    let err = generate_from_template(&tpl, &many).unwrap_err();
    assert!(err_text(err).starts_with("参数校验失败: 生成块无效:"));
}

#[test]
fn heading_style_missing_falls_to_engine_error() {
    let tpl = synth_template(r#"<w:p/>"#, SYNTH_STYLES);
    let err = generate_from_template(&tpl, &vec![heading(3, "三级标题")]).unwrap_err();
    let msg = err_text(err);
    assert!(msg.contains("未知样式"), "实际: {msg}");
    assert!(msg.contains("标题 3"), "报错应指名主候选: {msg}");
}

#[test]
fn zh_display_name_heading_resolves() {
    let styles = r#"<w:styles xmlns:w="http://schemas.openxmlformats.org/wordprocessingml/2006/main"><w:style w:type="paragraph" w:default="1" w:styleId="a0"><w:name w:val="Normal"/></w:style><w:style w:type="paragraph" w:styleId="2"><w:name w:val="heading 2"/></w:style></w:styles>"#;
    let tpl = synth_template(r#"<w:p/>"#, styles);
    let out = generate_from_template(&tpl, &vec![heading(2, "二级")]).unwrap();
    let xml = doc_text(&out.bytes);
    assert!(xml.contains(r#"<w:pStyle w:val="2"/>"#), "应解析到实际 styleId=2");
}

#[test]
fn self_check_catches_mismatch() {
    let tpl = build_builtin_template("report").unwrap();
    let out = generate_from_template(&tpl, &vec![para("甲"), para("乙")]).unwrap();
    assert!(self_check(&out.bytes, &vec![para("甲")]).is_err());
    assert!(self_check(&out.bytes, &vec![para("甲"), para("乙")]).is_ok());
}

#[test]
fn more_than_fifty_asserts_chunked_in_self_check() {
    let tpl = build_builtin_template("report").unwrap();
    let rows: Vec<Vec<String>> = (0..12).map(|r| (0..12).map(|c| format!("r{r}c{c}")).collect()).collect();
    let blocks = vec![para("前"), WriteBlock::Table { rows, header: None, table_style: None }, para("后")];
    let out = generate_from_template(&tpl, &blocks).unwrap();
    assert_eq!(out.tables, 1);
}

#[test]
fn not_a_docx_template_rejected() {
    let err = generate_from_template(b"not a zip", &vec![para("x")]).unwrap_err();
    assert!(err_text(err).starts_with("参数校验失败: 模板无效:"));
}

#[test]
fn toc_and_image_blocks_extend_the_package() {
    let tpl = build_builtin_template("report").unwrap();
    let img = ImagePayload { bytes: b"PNGDATA".to_vec(), width_px: 100, height_px: 50, ext: "png" };
    let blocks = vec![
        WriteBlock::Toc { levels: 3, hyperlink: true },
        heading(1, "第一章"),
        WriteBlock::Image { image: img, width_emu: None },
        para("图后段。"),
    ];
    let out = generate_from_template(&tpl, &blocks).unwrap();
    assert_eq!((out.paragraphs, out.tables, out.tocs, out.images), (2, 0, 1, 1));
    let xml = doc_text(&out.bytes);
    assert!(xml.contains(r#"<w:fldSimple w:instr=" TOC \o &quot;1-3&quot; \h \z \u ">"#), "目录域段: {xml}");
    assert!(xml.contains(r#"<wp:extent cx="952500" cy="476250"/>"#), "原生宽不放大: {xml}");
    assert!(xml.contains(r#"r:embed="rId2""#), "新关系 ID: {xml}");
    assert!(xml.contains(r#"name="图片 1""#));
    assert_eq!(read_entry(&out.bytes, "word/media/image1.png").unwrap().unwrap(), b"PNGDATA".to_vec());
    let settings = String::from_utf8(read_entry(&out.bytes, "word/settings.xml").unwrap().unwrap()).unwrap();
    assert!(settings.contains("updateFields"));
    let ct = String::from_utf8(read_entry(&out.bytes, "[Content_Types].xml").unwrap().unwrap()).unwrap();
    assert!(ct.contains(r#"<Default Extension="png" ContentType="image/png"/>"#));
    assert!(ct.contains(r#"PartName="/word/settings.xml""#));
    assert_eq!(outline_of(&out.bytes).len(), 4);
}

#[test]
fn requested_image_width_held_to_text_area() {
    // A4 text area of 8306 twips is 5,274,310 EMU.
    let content = 8306u64 * 635;
    assert_eq!(image_extent(100, 50, None, 8306), (952_500, 476_250));
    assert_eq!(image_extent(2000, 1000, None, 8306), (content, content / 2));
    assert_eq!(image_extent(100, 50, Some(3_600_000), 8306), (3_600_000, 1_800_000));
    assert_eq!(image_extent(100, 50, Some(10_800_000), 8306).0, content);
    assert_eq!(image_extent(100, 50, Some(0), 8306), (1, 1));
}
