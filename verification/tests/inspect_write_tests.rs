use docx_engine::docx_inspect::{fmt_cm, fmt_pt, indent_continuation, inspect_document, resolve_range, summarize, InspectProjection, InspectRequest};
use docx_engine::docx_write::{block_count, build_builtin_template, heading_style_candidates, heading_style_for, load_styles, normal_style_for};
use std::io::Write;

fn zip_of(parts: &[(&str, &str)]) -> Vec<u8> {
    let mut w = zip::ZipWriter::new(std::io::Cursor::new(Vec::new()));
    for (name, content) in parts {
        w.start_file(*name, zip::write::SimpleFileOptions::default()).unwrap();
        w.write_all(content.as_bytes()).unwrap();
    }
    w.finish().unwrap().into_inner()
}

fn two_para_docx() -> Vec<u8> {
    zip_of(&[(
        "word/document.xml",
        r#"<w:document xmlns:w="w"><w:body><w:p><w:r><w:t>第一段正文</w:t></w:r></w:p><w:p><w:r><w:t>第二段</w:t></w:r></w:p></w:body></w:document>"#,
    )])
}

fn req(p: InspectProjection, start: Option<usize>, end: Option<usize>) -> InspectRequest {
    InspectRequest { projection: p, start, end }
}

#[test]
fn format_span_default_is_50() {
    assert_eq!(InspectProjection::Format.default_span(), 50);
    assert_eq!(InspectProjection::Outline.default_span(), 400);
    assert_eq!(InspectProjection::Text.default_span(), 100);
}

#[test]
fn projections_on_a_small_package() {
    let bytes = two_para_docx();
    let report = inspect_document(&bytes, &req(InspectProjection::Outline, None, None)).unwrap();
    assert_eq!(report.total_blocks, 2);
    assert_eq!(report.range, (1, 2));
    assert!(!report.has_more);
    assert!(report.content.contains("[1] ¶"), "{}", report.content);
    assert!(report.content.contains("第一段正文"));
    let text = inspect_document(&bytes, &req(InspectProjection::Text, None, None)).unwrap();
    assert!(text.content.contains("[2] 第二段"));
    let fmt = inspect_document(&bytes, &req(InspectProjection::Format, None, None)).unwrap();
    assert!(fmt.content.contains("文本:"), "{}", fmt.content);
    assert_eq!(InspectProjection::HeadersFooters.as_str(), "headers_footers");
}

#[test]
fn range_errors_and_clamps() {
    let bytes = two_para_docx();
    let err = inspect_document(&bytes, &req(InspectProjection::Outline, Some(5), None)).unwrap_err();
    assert!(err.to_string().contains("块号越界"));
    let err = inspect_document(&bytes, &req(InspectProjection::Outline, Some(2), Some(1))).unwrap_err();
    assert!(err.to_string().contains("区间无效"));
    let r = inspect_document(&bytes, &req(InspectProjection::Outline, Some(1), Some(99))).unwrap();
    assert_eq!(r.range, (1, 2));
    assert_eq!(resolve_range(500, &req(InspectProjection::Format, Some(10), None)).unwrap(), (10, 59, true));
    assert_eq!(resolve_range(0, &req(InspectProjection::Text, None, None)).unwrap(), (1, 0, false));
}

#[test]
fn headers_footers_by_section() {
    let doc_xml = r#"<?xml version="1.0"?><w:document xmlns:w="w" xmlns:r="r"><w:body><w:p><w:r><w:t>正文一</w:t></w:r></w:p><w:p><w:pPr><w:sectPr><w:headerReference w:type="default" r:id="rIdH"/><w:footerReference w:type="default" r:id="rIdF"/></w:sectPr></w:pPr><w:r><w:t>节一末</w:t></w:r></w:p><w:sectPr><w:headerReference w:type="default" r:id="rIdH"/><w:footerReference w:type="first" r:id="rIdMISSING"/></w:sectPr></w:body></w:document>"#;
    let rels_xml = r#"<?xml version="1.0"?><Relationships><Relationship Id="rIdH" Type="http://x/header" Target="header1.xml"/><Relationship Id="rIdF" Type="http://x/footer" Target="footer1.xml"/><Relationship Id="rIdIMG" Type="http://x/image" Target="media/a.png"/></Relationships>"#;
    let hdr = r#"<?xml version="1.0"?><w:hdr xmlns:w="w"><w:p><w:r><w:t>页眉甲行</w:t></w:r></w:p><w:p><w:r><w:t>页眉乙行</w:t></w:r></w:p></w:hdr>"#;
    let ftr = r#"<?xml version="1.0"?><w:ftr xmlns:w="w"><w:p><w:r><w:t>页脚一行</w:t></w:r></w:p></w:ftr>"#;
    let bytes = zip_of(&[
        ("word/document.xml", doc_xml),
        ("word/_rels/document.xml.rels", rels_xml),
        ("word/header1.xml", hdr),
        ("word/footer1.xml", ftr),
    ]);
    let r = inspect_document(&bytes, &req(InspectProjection::HeadersFooters, None, None)).unwrap();
    assert!(r.content.contains("2 节"), "{}", r.content);
    assert_eq!(r.range, (1, 2));
    assert!(r.content.contains("页眉 default: 页眉甲行\n    页眉乙行"), "{}", r.content);
    assert!(r.content.contains("页脚 default: 页脚一行"));
    assert_eq!(r.content.matches("页眉甲行").count(), 2);
    assert!(r.content.contains("悬空"));
    assert!(!r.content.contains("media/a.png"));
    let err = inspect_document(&bytes, &req(InspectProjection::HeadersFooters, Some(1), None)).unwrap_err().to_string();
    assert!(err.contains("不接受 start/end"), "{err}");
}

#[test]
fn unit_formatters_in_integers() {
    assert_eq!(fmt_pt(32), b"16pt".to_vec());
    assert_eq!(fmt_pt(21), b"10.5pt".to_vec());
    assert_eq!(fmt_cm(11906), b"21.0".to_vec());
    assert_eq!(fmt_cm(16838), b"29.7".to_vec());
    assert_eq!(summarize("  abc\ndef ".as_bytes(), 10), b"abc def".to_vec());
    let long = "字".repeat(100);
    let s = String::from_utf8(summarize(long.as_bytes(), 60)).unwrap();
    assert_eq!(s.chars().count(), 61);
    assert!(s.ends_with('…'));
    assert_eq!(indent_continuation(b"a\nb"), b"a\n    b".to_vec());
}

#[test]
fn builtin_template_is_valid_single_section_docx() {
    let tpl = build_builtin_template("report").unwrap();
    assert_eq!(block_count(&tpl).unwrap(), 1);
    let styles = load_styles(&tpl).unwrap();
    for name in ["heading 1", "heading 2", "heading 3", "Heading3", "Normal"] {
        assert!(styles.id_of(name.as_bytes()).is_some(), "{name} 应可反查");
    }
    assert!(styles.table_style_id(b"Table Grid").is_some());
    let err = build_builtin_template("nope").unwrap_err();
    assert!(err.to_string().starts_with("参数校验失败: 模板无效:"));
    assert!(err.to_string().contains("report"));
}

#[test]
fn heading_and_normal_style_resolution() {
    let tpl = build_builtin_template("report").unwrap();
    let styles = load_styles(&tpl).unwrap();
    assert_eq!(heading_style_for(2, &styles), b"heading 2".to_vec());
    assert_eq!(heading_style_for(7, &styles), "标题 7".as_bytes().to_vec());
    assert_eq!(normal_style_for(&styles), Some(b"Normal".to_vec()));
    let c = heading_style_candidates(3);
    assert_eq!(c[5], b"3".to_vec());
    assert_eq!(c[3], b"Heading3".to_vec());
}

#[test]
fn effective_formatting_follows_style_chain() {
    let tpl = build_builtin_template("report").unwrap();
    let styles = load_styles(&tpl).unwrap();
    let chain = styles.resolve_chain(b"Heading1");
    assert_eq!(chain.len(), 2);
    assert_eq!(styles.outline_lvl_of(b"Heading2"), Some(1));
    let direct = docx_engine::docx_model::RunProps {
        bold: None,
        italic: Some(true),
        underline: None,
        strike: None,
        size_half_pt: None,
        color: None,
        highlight: None,
        font_east_asia: None,
        font_ascii: None,
    };
    let eff = styles.effective_run(&direct, &chain);
    assert_eq!(eff.size_half_pt, Some(32));
    assert_eq!(eff.bold, Some(true));
    assert_eq!(eff.italic, Some(true));
    assert_eq!(eff.font_east_asia, Some("黑体".as_bytes().to_vec()));
}
