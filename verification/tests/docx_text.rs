use docx_engine::docx::{extract_text_from_xml, normalize};
use docx_engine::docx_model::{build_document, document_text};
use docx_engine::xml_dom;

fn run(xml: &str) -> String {
    let mut t = extract_text_from_xml(xml.as_bytes());
    normalize(&mut t);
    String::from_utf8(t).unwrap()
}

fn model_text(xml: &str) -> String {
    let dom = xml_dom::parse(xml.as_bytes()).unwrap();
    let model = build_document(&dom);
    let mut t = document_text(&model);
    normalize(&mut t);
    String::from_utf8(t).unwrap()
}

fn assert_zero_regression(xml: &str) {
    assert_eq!(model_text(xml), run(xml), "模型投影 ≠ 扫描器: {xml}");
}

#[test]
fn model_text_matches_golden_scanner() {
    assert_zero_regression(r#"<w:p><w:r><w:t>Hello</w:t></w:r></w:p><w:p><w:r><w:t>World</w:t></w:r></w:p>"#);
    assert_zero_regression("<w:p><w:r><w:t xml:space=\"preserve\">保留空格</w:t></w:r></w:p>");
    assert_zero_regression(
        "<w:p><w:r><w:t>a &amp; b &lt; c &gt; d &quot;e&quot; &apos;f&apos;</w:t></w:r></w:p>",
    );
    assert_zero_regression("<w:p><w:r><w:t>&#65;&#x42;&#20013;</w:t></w:r></w:p>");
    assert_zero_regression("<w:p><w:r><w:t>a &foo; b</w:t></w:r></w:p>");
    assert_zero_regression("<w:p><w:r><w:t>A</w:t><w:tab/><w:t>B</w:t></w:r></w:p>");
    assert_zero_regression("<w:p><w:r><w:t>A</w:t><w:br/><w:t>B</w:t></w:r></w:p>");
    assert_zero_regression(
        "<w:p></w:p><w:p></w:p><w:p></w:p><w:p><w:r><w:t>正文</w:t></w:r></w:p>",
    );
    assert_zero_regression(
        r#"<w:p><w:ins><w:r><w:t>新增</w:t></w:r></w:ins><w:del><w:r><w:delText>旧文</w:delText></w:r></w:del></w:p>"#,
    );
    assert_zero_regression(r#"<w:p><w:hyperlink><w:r><w:t>链接</w:t></w:r></w:hyperlink></w:p>"#);
    assert_zero_regression(
        r#"<w:sdt><w:sdtContent><w:p><w:r><w:t>目录</w:t></w:r></w:p></w:sdtContent></w:sdt>"#,
    );
    assert_zero_regression(
        r#"<w:p><w:r><w:fldChar w:fldCharType="begin"/></w:r><w:r><w:instrText>TOC</w:instrText></w:r><w:r><w:fldChar w:fldCharType="separate"/></w:r><w:r><w:t>域结果</w:t></w:r><w:r><w:fldChar w:fldCharType="end"/></w:r></w:p>"#,
    );
    assert_zero_regression(
        r#"<w:tbl><w:tr><w:tc><w:p><w:r><w:t>A1</w:t></w:r></w:p></w:tc><w:tc><w:p><w:r><w:t>B1</w:t></w:r></w:p></w:tc></w:tr></w:tbl>"#,
    );
    assert_zero_regression(
        r#"<w:tbl><w:tr><w:tc><w:tbl><w:tr><w:tc><w:p><w:r><w:t>内层</w:t></w:r></w:p></w:tc></w:tr></w:tbl></w:tc></w:tr></w:tbl>"#,
    );
    assert_zero_regression(
        r#"<w:p><w:r><w:drawing><w:pict><w:txbxContent><w:p><w:r><w:t>框内</w:t></w:r></w:p></w:txbxContent></w:pict></w:drawing></w:r></w:p>"#,
    );
}

#[test]
fn extracts_text_from_wt() {
    let xml = r#"<?xml version="1.0"?>
<w:document xmlns:w="w"><w:body>
<w:p><w:r><w:t>Hello</w:t></w:r></w:p>
<w:p><w:r><w:t>World</w:t></w:r></w:p>
</w:body></w:document>"#;
    assert_eq!(run(xml), "Hello\nWorld");
    assert_zero_regression(xml);
}

#[test]
fn entities_decoded() {
    let xml = "<w:p><w:r><w:t>a &amp; b &lt; c &gt; d &quot;e&quot; &apos;f&apos;</w:t></w:r></w:p>";
    assert_eq!(run(xml), "a & b < c > d \"e\" 'f'");
}

#[test]
fn numeric_entities_decoded() {
    let xml = "<w:p><w:r><w:t>&#65;&#x42;&#20013;</w:t></w:r></w:p>";
    assert_eq!(run(xml), "AB中");
}

#[test]
fn unknown_entity_preserved() {
    let xml = "<w:p><w:r><w:t>a &foo; b</w:t></w:r></w:p>";
    assert_eq!(run(xml), "a &foo; b");
}

#[test]
fn tab_and_break_handling() {
    let xml = "<w:p><w:r><w:t>A</w:t><w:tab/><w:t>B</w:t></w:r></w:p>";
    assert_eq!(run(xml), "A\tB");
    let xml = "<w:p><w:r><w:t>A</w:t><w:br/><w:t>B</w:t></w:r></w:p>";
    assert_eq!(run(xml), "A\nB");
}

#[test]
fn blank_paragraphs_collapsed() {
    let xml = "<w:p></w:p><w:p></w:p><w:p></w:p><w:p><w:r><w:t>正文</w:t></w:r></w:p>";
    assert_eq!(run(xml), "正文");
}

#[test]
fn normalize_keeps_one_blank_line_between_paragraphs() {
    let mut t = b"  a\n\n\n\nb\n".to_vec();
    normalize(&mut t);
    assert_eq!(String::from_utf8(t).unwrap(), "a\n\nb");
}

#[test]
fn first_nonempty_line_skips_blank_lines() {
    let t = docx_engine::docx::first_nonempty_line("\n  \n 标题 \n正文".as_bytes());
    assert_eq!(t.map(|v| String::from_utf8(v).unwrap()), Some("标题".to_string()));
    assert_eq!(docx_engine::docx::first_nonempty_line(b" \n\t\n"), None);
}

#[test]
fn entity_decoder_on_raw_bytes() {
    let mut out = Vec::new();
    docx_engine::docx_model::decode_entities_into(b"x&#x4E2D;&lt;&bad;", &mut out);
    assert_eq!(String::from_utf8(out).unwrap(), "x中<&bad;");
}
