use docx_engine::docx::read_document_xml;
use docx_engine::docx_edit::{AppliedOp, CharFormat, MergeDirection, ParaFormat, TableLevel};
use docx_engine::docx_model::{blocks_text, build_document, Block, DocxDocument};
use docx_engine::docx_write::build_builtin_template;
use docx_engine::docx::repack_part;
use docx_engine::edit_batch::{apply_edits, EditOp};
use docx_engine::error::DocError;
use docx_engine::locate::{direct_children_spans, locate_blocks, BlockSpan};
use docx_engine::styles::{parse_styles, Stylesheet};
use docx_engine::xml_dom;
use std::io::{Cursor, Read};

fn wrap(body: &str) -> String {
    format!(r#"<w:document xmlns:w="w" xmlns:r="r"><w:body>{body}</w:body></w:document>"#)
}

fn model_of(xml: &str) -> DocxDocument {
    build_document(&xml_dom::parse(xml.as_bytes()).unwrap())
}

fn val_msg(e: DocError) -> String {
    String::from_utf8(e.message).unwrap()
}

fn sheet(xml: &str) -> Stylesheet {
    parse_styles(&xml_dom::parse(xml.as_bytes()).unwrap())
}

fn ae(xml: &str, styles: &Stylesheet, ops: &[EditOp]) -> Result<(String, Vec<AppliedOp>), DocError> {
    apply_edits(xml.as_bytes(), styles, &ops.to_vec()).map(|(o, a)| (String::from_utf8(o).unwrap(), a))
}

fn bt(blocks: &[Block], out: &mut String) {
    let mut v: Vec<u8> = Vec::new();
    blocks_text(blocks, &mut v);
    out.push_str(&String::from_utf8(v).unwrap());
}

fn lb(xml: &str) -> Result<Vec<BlockSpan>, DocError> {
    locate_blocks(xml.as_bytes())
}

fn dcs(s: &str, name: &str) -> Vec<(usize, usize)> {
    direct_children_spans(s.as_bytes(), name.as_bytes())
}

fn assert_locator_aligned(xml: &str) {
    let spans = lb(xml).unwrap();
    let model = model_of(xml);
    assert_eq!(spans.len(), model.body.len(), "定位器/模型块数不一致");
    for (i, span) in spans.iter().enumerate() {
        let piece = &xml[span.start..span.end];
        let piece_model = model_of(piece);
        assert_eq!(piece_model.body.len(), 1, "块 {} 子串应恰为单块: {piece}", i + 1);
        let mut expect = String::new();
        bt(&model.body[i..i + 1], &mut expect);
        let mut got = String::new();
        bt(&piece_model.body, &mut got);
        assert_eq!(expect, got, "块 {} 文本不一致", i + 1);
    }
}

fn read_entry_at<R: std::io::Read + std::io::Seek>(zip: &mut zip::ZipArchive<R>, i: usize) -> (String, Vec<u8>) {
    let mut entry = zip.by_index(i).unwrap();
    let name = entry.name().to_string();
    let mut data = Vec::new();
    entry.read_to_end(&mut data).unwrap();
    (name, data)
}
#[test]
fn locator_aligns_with_model_basic() {
    assert_locator_aligned(&wrap(
        r#"<w:p><w:r><w:t>第一段</w:t></w:r></w:p><w:p/><w:p><w:r><w:t>第三段</w:t></w:r></w:p>"#,
    ));
}

#[test]
fn locator_aligns_with_sdt_tables_and_markers() {
    // sdt 摊平 / 表格成块 / sectPr+书签跳过 / 未知容器递归
    assert_locator_aligned(&wrap(
        r#"<w:sdt><w:sdtContent><w:p><w:r><w:t>目录项</w:t></w:r></w:p></w:sdtContent></w:sdt>\
           <w:bookmarkStart w:id="1" w:name="_Toc"/><w:bookmarkEnd w:id="1"/>\
           <w:tbl><w:tr><w:tc><w:p><w:r><w:t>A1</w:t></w:r></w:p></w:tc></w:tr></w:tbl>\
           <w:proofErr w:type="spellStart"/><w:p><w:r><w:t>正文</w:t></w:r></w:p>\
           <w:p><w:pPr><w:sectPr><w:pgSz w:w="1"/></w:sectPr></w:pPr><w:r><w:t>节末</w:t></w:r></w:p>\
           <w:sectPr><w:pgSz w:w="2"/></w:sectPr>"#,
    ));
}

#[test]
fn locator_rejects_bodyless_xml() {
    let err = lb(r#"<w:document xmlns:w="w"></w:document>"#).unwrap_err();
    let msg = err.to_string();
    assert!(msg.contains("w:body"), "实际: {msg}");
}

#[test]
fn replace_text_preserves_ppr_and_rpr() {
    let xml = wrap(
        r#"<w:p w14:paraId="ABC"><w:pPr><w:pStyle w:val="2"/><w:jc w:val="center"/></w:pPr>\
           <w:r><w:rPr><w:b/><w:sz w:val="32"/></w:rPr><w:t>旧标题</w:t></w:r></w:p>"#,
    );
    let styles = Stylesheet::empty();
    let (out, applied) = ae(
        &xml,
        &styles,
        &[EditOp::ReplaceText {
            block: 1,
            expect_prefix: "旧标题".into(),
            new_text: "新标题<x>&".into(),
        }],
    )
    .unwrap();
    assert!(out.contains(r#"<w:p w14:paraId="ABC">"#), "开标签属性保留");
    assert!(out.contains(r#"<w:pPr><w:pStyle w:val="2"/><w:jc w:val="center"/></w:pPr>"#));
    assert!(out.contains("<w:rPr><w:b/><w:sz w:val=\"32\"/></w:rPr>"));
    assert!(out.contains("新标题&lt;x&gt;&amp;"), "实体转义");
    assert_eq!(applied.len(), 1);
    assert_eq!(applied[0].op, "replace_text");
    // 重解析：单块 + 新文本 + 格式仍可解析
    let m = model_of(&out);
    let mut t = String::new();
    bt(&m.body, &mut t);
    assert_eq!(t, "新标题<x>&\n");
}

#[test]
fn insert_after_inherits_anchor_format() {
    let xml = wrap(
        r#"<w:p><w:pPr><w:pStyle w:val="body"/></w:pPr><w:r><w:rPr><w:i/></w:rPr><w:t>锚段</w:t></w:r></w:p><w:p><w:r><w:t>尾段</w:t></w:r></w:p>"#,
    );
    let styles = Stylesheet::empty();
    let (out, _) = ae(
        &xml,
        &styles,
        &[EditOp::InsertParagraphAfter {
            block: 1,
            expect_prefix: "锚段".into(),
            text: "插入段".into(),
            style: None,
        }],
    )
    .unwrap();
    let m = model_of(&out);
    assert_eq!(m.body.len(), 3);
    let mut t = String::new();
    bt(&m.body, &mut t);
    assert_eq!(t, "锚段\n插入段\n尾段\n");
    // 继承锚块 pPr + rPr
    assert!(out.contains(r#"<w:pPr><w:pStyle w:val="body"/></w:pPr><w:r><w:rPr><w:i/></w:rPr>"#));
}

#[test]
fn insert_with_style_name_resolves_id() {
    let styles_xml = r#"<w:styles><w:style w:type="paragraph" w:styleId="h1"><w:name w:val="heading 1"/></w:style></w:styles>"#;
    let sheet = sheet(styles_xml);
    let xml = wrap(r#"<w:p><w:r><w:t>正文</w:t></w:r></w:p>"#);
    let (out, _) = ae(
        &xml,
        &sheet,
        &[EditOp::InsertParagraphAfter {
            block: 1,
            expect_prefix: "正文".into(),
            text: "新标题".into(),
            style: Some("heading 1".into()),
        }],
    )
    .unwrap();
    assert!(out.contains(r#"<w:pPr><w:pStyle w:val="h1"/></w:pPr>"#), "显示名反查 ID");
    // 未知样式报错
    let err = val_msg(ae(
        &xml,
        &sheet,
        &[EditOp::InsertParagraphAfter {
            block: 1,
            expect_prefix: "正文".into(),
            text: "x".into(),
            style: Some("不存在的样式".into()),
        }],
    )
    .unwrap_err());
    assert!(err.starts_with("未知样式"), "实际: {err}");
}

#[test]
fn delete_block_removes_span_only() {
    let xml = wrap(
        r#"<w:p><w:r><w:t>一</w:t></w:r></w:p><w:p><w:r><w:t>二</w:t></w:r></w:p><w:p><w:r><w:t>三</w:t></w:r></w:p>"#,
    );
    let styles = Stylesheet::empty();
    let (out, _) = ae(
        &xml,
        &styles,
        &[EditOp::DeleteBlock { block: 2, expect_prefix: "二".into() }],
    )
    .unwrap();
    let m = model_of(&out);
    assert_eq!(m.body.len(), 2);
    let mut t = String::new();
    bt(&m.body, &mut t);
    assert_eq!(t, "一\n三\n");
    // 区间外字节原样：两侧块 XML 不变
    assert!(out.contains("<w:p><w:r><w:t>一</w:t></w:r></w:p>"));
    assert!(out.contains("<w:p><w:r><w:t>三</w:t></w:r></w:p>"));
}

#[test]
fn multi_ops_descending_splice() {
    // 一批三操作：删 5 / 改 3 / 插 1 后——原始偏移经降序 splice 全部正确落点
    let body: String = (1..=5)
        .map(|i| format!("<w:p><w:r><w:t>第{i}段</w:t></w:r></w:p>"))
        .collect();
    let xml = wrap(&body);
    let styles = Stylesheet::empty();
    let (out, applied) = ae(
        &xml,
        &styles,
        &[
            EditOp::DeleteBlock { block: 5, expect_prefix: "第5段".into() },
            EditOp::ReplaceText { block: 3, expect_prefix: "第3段".into(), new_text: "改后".into() },
            EditOp::InsertParagraphAfter {
                block: 1,
                expect_prefix: "第1段".into(),
                text: "新插".into(),
                style: None,
            },
        ],
    )
    .unwrap();
    assert_eq!(applied.len(), 3);
    let m = model_of(&out);
    let mut t = String::new();
    bt(&m.body, &mut t);
    assert_eq!(t, "第1段\n新插\n第2段\n改后\n第4段\n");
}

#[test]
fn fingerprint_mismatch_rejects_whole_batch() {
    let xml = wrap(r#"<w:p><w:r><w:t>实际内容</w:t></w:r></w:p>"#);
    let styles = Stylesheet::empty();
    let err = val_msg(ae(
        &xml,
        &styles,
        &[
            EditOp::ReplaceText { block: 1, expect_prefix: "别的内容".into(), new_text: "x".into() },
        ],
    )
    .unwrap_err());
    assert!(err.starts_with("指纹不符"), "实际: {err}");
    assert!(err.contains("inspect_docx"));
}

#[test]
fn revision_and_sectpr_blocks_rejected() {
    let styles = Stylesheet::empty();
    // 修订块
    let xml = wrap(r#"<w:p><w:ins><w:r><w:t>修订段</w:t></w:r></w:ins></w:p>"#);
    let err = val_msg(ae(
        &xml,
        &styles,
        &[EditOp::DeleteBlock { block: 1, expect_prefix: "修订段".into() }],
    )
    .unwrap_err());
    assert!(err.starts_with("含修订标记"), "实际: {err}");
    // 节末段
    let xml = wrap(
        r#"<w:p><w:pPr><w:sectPr><w:pgSz w:w="1"/></w:sectPr></w:pPr><w:r><w:t>节末段</w:t></w:r></w:p>"#,
    );
    let err = val_msg(ae(
        &xml,
        &styles,
        &[EditOp::DeleteBlock { block: 1, expect_prefix: "节末段".into() }],
    )
    .unwrap_err());
    assert!(err.starts_with("节属性保护"), "实际: {err}");
}

#[test]
fn duplicate_block_and_bounds_rejected() {
    let xml = wrap(r#"<w:p><w:r><w:t>一</w:t></w:r></w:p>"#);
    let styles = Stylesheet::empty();
    let err = val_msg(ae(
        &xml,
        &styles,
        &[
            EditOp::ReplaceText { block: 1, expect_prefix: "一".into(), new_text: "x".into() },
            EditOp::DeleteBlock { block: 1, expect_prefix: "x".into() },
        ],
    )
    .unwrap_err());
    assert!(err.starts_with("同一块多操作"), "实际: {err}");
    let err = val_msg(ae(
        &xml,
        &styles,
        &[EditOp::DeleteBlock { block: 7, expect_prefix: "".into() }],
    )
    .unwrap_err());
    assert!(err.starts_with("块号越界"), "实际: {err}");
    assert!(err.contains("1-1"), "应带有效范围: {err}");
}

#[test]
fn table_block_replace_rejected() {
    let xml = wrap(r#"<w:tbl><w:tr><w:tc><w:p><w:r><w:t>表</w:t></w:r></w:p></w:tc></w:tr></w:tbl>"#);
    let styles = Stylesheet::empty();
    let err = val_msg(ae(
        &xml,
        &styles,
        &[EditOp::ReplaceText { block: 1, expect_prefix: "表".into(), new_text: "x".into() }],
    )
    .unwrap_err());
    assert!(err.starts_with("表格块"), "实际: {err}");
}

fn heading_styles() -> Stylesheet {
    let styles_xml = r#"<w:styles>
        <w:style w:type="paragraph" w:styleId="h2"><w:name w:val="heading 2"/></w:style>
        <w:style w:type="paragraph" w:styleId="body"><w:name w:val="Normal"/></w:style>
    </w:styles>"#;
    sheet(styles_xml)
}

#[test]
fn set_style_replaces_pstyle_val_only() {
    // 已有 pStyle：只换 val，pPr 其余子元素 / run / rPr 字节原样
    let xml = wrap(
        r#"<w:p w14:paraId="X1"><w:pPr><w:pStyle w:val="body"/><w:jc w:val="center"/></w:pPr>\
           <w:r><w:rPr><w:b/></w:rPr><w:t>正文段</w:t></w:r></w:p>"#,
    );
    let (out, applied) = ae(
        &xml,
        &heading_styles(),
        &[EditOp::SetStyle { block: 1, expect_prefix: "正文段".into(), style: "heading 2".into() }],
    )
    .unwrap();
    assert_eq!(applied[0].op, "set_style");
    assert_eq!(applied[0].style.as_deref(), Some("h2"));
    assert!(out.contains(r#"<w:p w14:paraId="X1">"#), "开标签属性保留");
    assert!(out.contains(r#"<w:pPr><w:pStyle w:val="h2"/><w:jc w:val="center"/></w:pPr>"#));
    assert!(out.contains(r#"<w:rPr><w:b/></w:rPr><w:t>正文段</w:t></w:r>"#), "run 原样");
    // 模型侧：样式生效 + 文本不变
    let m = model_of(&out);
    let Block::Paragraph(p) = &m.body[0] else { panic!() };
    assert_eq!(p.props.style.as_deref(), Some("h2".as_bytes()));
    let mut t = String::new();
    bt(&m.body, &mut t);
    assert_eq!(t, "正文段\n");
}

#[test]
fn set_style_noop_reports_style_unchanged() {
    // 目标段 pStyle 已是 h2，再 set 成 heading 2（显示名解析到同一 ID）→ 空转，
    // AppliedOp 显式报 style_unchanged=true；换到不同样式则 None（字段省略）
    let xml = wrap(r#"<w:p><w:pPr><w:pStyle w:val="h2"/></w:pPr><w:r><w:t>已是标题段</w:t></w:r></w:p>"#);
    let (_, applied) = ae(
        &xml,
        &heading_styles(),
        &[EditOp::SetStyle { block: 1, expect_prefix: "已是标题段".into(), style: "heading 2".into() }],
    )
    .unwrap();
    assert_eq!(applied[0].style_unchanged, Some(true));

    let (out, applied) = ae(
        &xml,
        &heading_styles(),
        &[EditOp::SetStyle { block: 1, expect_prefix: "已是标题段".into(), style: "Normal".into() }],
    )
    .unwrap();
    assert_eq!(applied[0].style_unchanged, None);
    assert!(out.contains(r#"<w:pStyle w:val="body"/>"#), "真换样式仍生效");
}

// ---- S3 二波（D9）：set_ppr_element 通用 pPr 元素手术 ----

#[test]
fn ppr_remove_keeps_sibling_elements() {
    // numPr 摘除，pStyle/spacing 兄弟字节原样，编号引用从模型消失
    let xml = wrap(&[
        r#"<w:p><w:pPr><w:pStyle w:val="3"/><w:numPr><w:ilvl w:val="2"/><w:numId w:val="2"/></w:numPr>"#,
        r#"<w:spacing w:before="163"/></w:pPr><w:r><w:t>1.2.6 标题段</w:t></w:r></w:p>"#,
    ].concat());
    let (out, applied) = ae(
        &xml,
        &heading_styles(),
        &[EditOp::SetPprElement {
            block: 1,
            expect_prefix: "1.2.6".into(),
            element: "numPr".into(),
            xml: None,
        }],
    )
    .unwrap();
    assert_eq!(applied[0].op, "set_ppr_element");
    assert!(applied[0].after.starts_with("removed numPr"), "实际: {}", applied[0].after);
    assert!(!out.contains("<w:numPr"), "numPr 应消失");
    assert!(
        out.contains(r#"<w:pPr><w:pStyle w:val="3"/><w:spacing w:before="163"/></w:pPr>"#),
        "兄弟元素原样: {out}"
    );
    let m = model_of(&out);
    let Block::Paragraph(p) = &m.body[0] else { panic!() };
    assert!(p.props.numbering.is_none(), "模型侧编号引用应消失");
}

#[test]
fn ppr_remove_last_child_drops_empty_ppr() {
    // numPr 是唯一子元素 → 摘空后 pPr 整体清理
    let xml = wrap(
        r#"<w:p><w:pPr><w:numPr><w:numId w:val="2"/></w:numPr></w:pPr><w:r><w:t>仅编号段</w:t></w:r></w:p>"#,
    );
    let (out, applied) = ae(
        &xml,
        &heading_styles(),
        &[EditOp::SetPprElement {
            block: 1,
            expect_prefix: "仅编号".into(),
            element: "numPr".into(),
            xml: None,
        }],
    )
    .unwrap();
    assert!(applied[0].after.starts_with("removed numPr"));
    assert!(!out.contains("<w:pPr"), "空 pPr 应整体清理: {out}");
    let m = model_of(&out);
    assert_eq!(m.body.len(), 1, "块数守恒");
}

#[test]
fn ppr_remove_absent_reports_noop() {
    // 段落无 numPr → 空转：文档逐字节不变 + 摘要明示
    let xml = wrap(
        r#"<w:p><w:pPr><w:jc w:val="center"/></w:pPr><w:r><w:t>普通段</w:t></w:r></w:p>"#,
    );
    let (out, applied) = ae(
        &xml,
        &heading_styles(),
        &[EditOp::SetPprElement {
            block: 1,
            expect_prefix: "普通".into(),
            element: "numPr".into(),
            xml: None,
        }],
    )
    .unwrap();
    assert!(applied[0].after.contains("空转"), "实际: {}", applied[0].after);
    assert_eq!(out, xml, "空转输出应与输入逐字节一致");
}

#[test]
fn ppr_upsert_inserts_at_schema_position() {
    // keepNext（schema 序早于 numPr）插在 pStyle 与 numPr 之间；
    // outlineLvl（序晚于 spacing、早于 rPr）插在 spacing 与 rPr 之间
    let mk = |text: &str| {
        format!(
            "{}{}{}{}{}",
            r#"<w:p><w:pPr><w:pStyle w:val="3"/><w:numPr><w:numId w:val="2"/></w:numPr>"#,
            r#"<w:spacing w:before="120"/><w:rPr><w:b/></w:rPr></w:pPr>"#,
            r#"<w:r><w:t>"#,
            text,
            r#"</w:t></w:r></w:p>"#
        )
    };
    let xml = wrap(&(mk("位序A") + &mk("位序B")));
    let (out, applied) = ae(
        &xml,
        &heading_styles(),
        &[
            EditOp::SetPprElement {
                block: 1,
                expect_prefix: "位序A".into(),
                element: "keepNext".into(),
                xml: Some("<w:keepNext/>".into()),
            },
            EditOp::SetPprElement {
                block: 2,
                expect_prefix: "位序B".into(),
                element: "outlineLvl".into(),
                xml: Some(r#"<w:outlineLvl w:val="0"/>"#.into()),
            },
        ],
    )
    .unwrap();
    assert_eq!(applied.len(), 2);
    assert!(
        out.contains(r#"<w:pStyle w:val="3"/><w:keepNext/><w:numPr>"#),
        "keepNext 应插在 numPr 前: {out}"
    );
    assert!(
        out.contains(r#"<w:spacing w:before="120"/><w:outlineLvl w:val="0"/><w:rPr>"#),
        "outlineLvl 应插在 spacing 后 rPr 前: {out}"
    );
}

#[test]
fn ppr_upsert_replaces_existing_whole_element() {
    // 已存在 jc → 整元素替换（属性值 + 属性集都以片段为准）
    let xml = wrap(r#"<w:p><w:pPr><w:jc w:val="left"/></w:pPr><w:r><w:t>替换段</w:t></w:r></w:p>"#);
    let (out, _) = ae(
        &xml,
        &heading_styles(),
        &[EditOp::SetPprElement {
            block: 1,
            expect_prefix: "替换".into(),
            element: "jc".into(),
            xml: Some(r#"<w:jc w:val="right"/>"#.into()),
        }],
    )
    .unwrap();
    assert!(out.contains(r#"<w:pPr><w:jc w:val="right"/></w:pPr>"#), "整元素替换: {out}");
}

#[test]
fn ppr_upsert_creates_ppr_in_bare_paragraph() {
    // 无 pPr 裸段 → 开标签后新建；自闭合空段 → 顺势展开成对标签
    let xml = wrap(&[
        r#"<w:p><w:r><w:t>裸段</w:t></w:r></w:p>"#,
        r#"<w:p w14:paraId="E"/>"#,
    ].concat());
    let (out, _) = ae(
        &xml,
        &heading_styles(),
        &[
            EditOp::SetPprElement {
                block: 1,
                expect_prefix: "裸段".into(),
                element: "keepNext".into(),
                xml: Some("<w:keepNext/>".into()),
            },
            EditOp::SetPprElement {
                block: 2,
                expect_prefix: "".into(),
                element: "keepLines".into(),
                xml: Some("<w:keepLines/>".into()),
            },
        ],
    )
    .unwrap();
    assert!(out.contains(r#"<w:p><w:pPr><w:keepNext/></w:pPr><w:r><w:t>裸段</w:t></w:r></w:p>"#));
    assert!(
        out.contains(r#"<w:p w14:paraId="E"><w:pPr><w:keepLines/></w:pPr></w:p>"#),
        "自闭合段展开: {out}"
    );
}

#[test]
fn ppr_rejects_illegal_protected_and_table() {
    let styles = heading_styles();
    let para = wrap(r#"<w:p><w:r><w:t>一段</w:t></w:r></w:p>"#);
    // 非法元素名（numId 是 numPr 的子元素，不是 pPr 子元素）
    let err = val_msg(ae(
        &para,
        &styles,
        &[EditOp::SetPprElement { block: 1, expect_prefix: "一段".into(), element: "numId".into(), xml: None }],
    ).unwrap_err());
    assert!(err.starts_with("非法pPr子元素"), "实际: {err}");
    // 受保护：sectPr / pPrChange
    for protected in ["sectPr", "pPrChange"] {
        let err = val_msg(ae(
            &para,
            &styles,
            &[EditOp::SetPprElement {
                block: 1,
                expect_prefix: "一段".into(),
                element: protected.into(),
                xml: None,
            }],
        ).unwrap_err());
        assert!(err.starts_with("受保护子元素"), "实际: {err}");
    }
    // 表格块
    let tbl = wrap(r#"<w:tbl><w:tr><w:tc><w:p><w:r><w:t>表</w:t></w:r></w:p></w:tc></w:tr></w:tbl>"#);
    let err = val_msg(ae(
        &tbl,
        &styles,
        &[EditOp::SetPprElement { block: 1, expect_prefix: "表".into(), element: "keepNext".into(), xml: None }],
    ).unwrap_err());
    assert!(err.starts_with("表格块"), "实际: {err}");
}

#[test]
fn ppr_fragment_validation_families() {
    let styles = heading_styles();
    let para = wrap(r#"<w:p><w:r><w:t>片段段</w:t></w:r></w:p>"#);
    let run = |xml: Option<&str>| {
        val_msg(ae(
            &para,
            &styles,
            &[EditOp::SetPprElement {
                block: 1,
                expect_prefix: "片段".into(),
                element: "numPr".into(),
                xml: xml.map(str::to_string),
            }],
        ).unwrap_err())
    };
    // 根元素名与 element 不一致
    let err = run(Some(r#"<w:jc w:val="center"/>"#));
    assert!(err.starts_with("片段校验失败"), "实际: {err}");
    assert!(err.contains("根元素"));
    // 未闭合
    let err = run(Some(r#"<w:numPr><w:ilvl w:val="0"/>"#));
    assert!(err.starts_with("片段校验失败"), "实际: {err}");
    // xmlns 声明
    let err = run(Some(r#"<w:numPr xmlns:w="http://x"/>"#));
    assert!(err.starts_with("片段校验失败") && err.contains("xmlns"), "实际: {err}");
    // 夹带受保护元素
    let err = run(Some(r#"<w:numPr><w:sectPr/></w:numPr>"#));
    assert!(err.starts_with("片段校验失败"), "实际: {err}");
    // 平铺双根
    let err = run(Some("<w:keepNext/><w:keepLines/>"));
    assert!(err.starts_with("片段校验失败"), "实际: {err}");
}

/// 样式定义自带编号（h2 直接带 / h3 经 basedOn 继承）——链检测 fixture
fn numbered_heading_styles() -> Stylesheet {
    let styles_xml = r#"<w:styles>
        <w:style w:type="paragraph" w:styleId="h2"><w:name w:val="heading 2"/>
          <w:pPr><w:numPr><w:numId w:val="9"/></w:numPr></w:pPr></w:style>
        <w:style w:type="paragraph" w:styleId="h3"><w:name w:val="heading 3"/>
          <w:basedOn w:val="h2"/></w:style>
        <w:style w:type="paragraph" w:styleId="body"><w:name w:val="Normal"/></w:style>
    </w:styles>"#;
    sheet(styles_xml)
}

#[test]
fn ppr_numpr_removal_warns_on_style_chain_numbering() {
    // 样式链（含 basedOn 继承）定义编号 → 段级 numPr 摘除后显式警告；
    // 样式无编号 → 无警告
    let mk = |style: &str| {
        format!(
            r#"<w:p><w:pPr><w:pStyle w:val="{style}"/><w:numPr><w:ilvl w:val="2"/><w:numId w:val="2"/></w:numPr></w:pPr><w:r><w:t>双源段</w:t></w:r></w:p>"#
        )
    };
    for style in ["h2", "h3"] {
        let xml = wrap(&mk(style));
        let (_, applied) = ae(
            &xml,
            &numbered_heading_styles(),
            &[EditOp::SetPprElement {
                block: 1,
                expect_prefix: "双源".into(),
                element: "numPr".into(),
                xml: None,
            }],
        )
        .unwrap();
        assert!(
            applied[0].after.contains("样式链仍定义编号"),
            "{style} 应触发回退警告，实际: {}",
            applied[0].after
        );
    }
    let xml = wrap(&mk("h2"));
    let (_, applied) = ae(
        &xml,
        &heading_styles(),
        &[EditOp::SetPprElement {
            block: 1,
            expect_prefix: "双源".into(),
            element: "numPr".into(),
            xml: None,
        }],
    )
    .unwrap();
    assert!(!applied[0].after.contains("样式链仍定义编号"), "样式无编号不应警告");
}

#[test]
fn set_style_inserts_or_creates_ppr() {
    // 块 1：有 pPr 无 pStyle → 插在 pPr 开标签后（schema 首子元素位，先于 numPr）
    // 块 2：无 pPr → 开标签后新建；块 3：自闭合空段 → 展开成对标签
    let xml = wrap(&[
        r#"<w:p><w:pPr><w:numPr><w:ilvl w:val="0"/><w:numId w:val="3"/></w:numPr></w:pPr><w:r><w:t>列表项</w:t></w:r></w:p>"#,
        r#"<w:p><w:r><w:t>裸段</w:t></w:r></w:p>"#,
        r#"<w:p w14:paraId="E"/>"#,
    ].concat());
    let (out, applied) = ae(
        &xml,
        &heading_styles(),
        &[
            EditOp::SetStyle { block: 1, expect_prefix: "列表项".into(), style: "h2".into() },
            EditOp::SetStyle { block: 2, expect_prefix: "裸段".into(), style: "h2".into() },
            EditOp::SetStyle { block: 3, expect_prefix: "".into(), style: "body".into() },
        ],
    )
    .unwrap();
    assert_eq!(applied.len(), 3);
    assert!(
        out.contains(r#"<w:pPr><w:pStyle w:val="h2"/><w:numPr>"#),
        "pStyle 应插在 pPr 首位: {out}"
    );
    assert!(out.contains(r#"<w:p><w:pPr><w:pStyle w:val="h2"/></w:pPr><w:r><w:t>裸段</w:t></w:r></w:p>"#));
    assert!(out.contains(r#"<w:p w14:paraId="E"><w:pPr><w:pStyle w:val="body"/></w:pPr></w:p>"#));
    let m = model_of(&out);
    assert_eq!(m.body.len(), 3, "块数守恒");
}

#[test]
fn set_style_unknown_and_table_rejected() {
    let styles = heading_styles();
    // 未知样式（家族前缀）
    let xml = wrap(r#"<w:p><w:r><w:t>一段</w:t></w:r></w:p>"#);
    let err = val_msg(ae(
        &xml,
        &styles,
        &[EditOp::SetStyle { block: 1, expect_prefix: "一段".into(), style: "没有这样式".into() }],
    )
    .unwrap_err());
    assert!(err.starts_with("未知样式"), "实际: {err}");
    // 表格块
    let xml = wrap(r#"<w:tbl><w:tr><w:tc><w:p><w:r><w:t>表</w:t></w:r></w:p></w:tc></w:tr></w:tbl>"#);
    let err = val_msg(ae(
        &xml,
        &styles,
        &[EditOp::SetStyle { block: 1, expect_prefix: "表".into(), style: "h2".into() }],
    )
    .unwrap_err());
    assert!(err.starts_with("表格块"), "实际: {err}");
    // 段落属性修订（pPrChange）——换样式与其语义纠缠，拒
    let xml = wrap(
        r#"<w:p><w:pPr><w:pStyle w:val="body"/><w:pPrChange w:id="1"><w:pPr><w:pStyle w:val="h2"/></w:pPr></w:pPrChange></w:pPr><w:r><w:t>改格段</w:t></w:r></w:p>"#,
    );
    let err = val_msg(ae(
        &xml,
        &styles,
        &[EditOp::SetStyle { block: 1, expect_prefix: "改格段".into(), style: "h2".into() }],
    )
    .unwrap_err());
    assert!(err.starts_with("含修订标记"), "实际: {err}");
    assert!(err.contains("pPrChange"));
}

#[test]
fn set_format_paragraph_merges_existing_attrs() {
    // 已有 spacing(before)/ind(firstLine)：合并——未提及的 before 原样，新字段进同一元素
    let xml = wrap(&[
        r#"<w:p><w:pPr><w:pStyle w:val="body"/><w:spacing w:before="120"/>"#,
        r#"<w:ind w:firstLine="480"/></w:pPr><w:r><w:t>正文段</w:t></w:r></w:p>"#,
    ].concat());
    let (out, applied) = ae(
        &xml,
        &Stylesheet::empty(),
        &[EditOp::SetFormat { summary: "段落(对齐=center 行距=1.5倍 段后=6pt 首行缩进=720tw)".into(),
            block: 1,
            expect_prefix: "正文段".into(),
            paragraph: Some(ParaFormat {
                align: Some("center".into()),
                line: Some(360),
                space_after: Some(120),
                indent_first_line_tw: Some(720),
                ..Default::default()
            }),
            character: None,
        }],
    )
    .unwrap();
    assert_eq!(applied[0].op, "set_format");
    assert!(applied[0].after.contains("对齐=center"), "摘要: {}", applied[0].after);
    // 合并断言：before 未提及原样 120；line/lineRule/after 追加进同一 spacing；firstLine 覆盖 720
    assert!(
        out.contains(r#"<w:spacing w:before="120" w:line="360" w:lineRule="auto" w:after="120"/>"#),
        "spacing 合并: {out}"
    );
    assert!(
        out.contains(r#"<w:ind w:firstLine="720" w:firstLineChars="0"/>"#),
        "ind 覆盖 + chars 变体压 0（跨层压制）: {out}"
    );
    assert!(out.contains(r#"<w:jc w:val="center"/>"#), "jc 插入: {out}");
    // schema 序：pStyle < spacing < ind < jc
    let ppr = out.find("<w:pPr>").unwrap();
    let end = out.find("</w:pPr>").unwrap();
    let seg = &out[ppr..end];
    let pos = |pat: &str| seg.find(pat).unwrap();
    assert!(pos("<w:pStyle") < pos("<w:spacing")
        && pos("<w:spacing") < pos("<w:ind")
        && pos("<w:ind") < pos("<w:jc"));
    // 模型读回
    let m = model_of(&out);
    let Block::Paragraph(p) = &m.body[0] else { panic!() };
    assert_eq!(p.props.alignment.as_deref(), Some("center".as_bytes()));
    assert_eq!(p.props.spacing_line, Some(360));
    assert_eq!(p.props.line_rule.as_deref(), Some("auto".as_bytes()));
    assert_eq!(p.props.spacing_before, Some(120));
    assert_eq!(p.props.spacing_after, Some(120)); // 6pt × 20
    assert_eq!(p.props.indent_first_line, Some(720));
}

#[test]
fn set_format_character_applies_to_all_runs() {
    // 两个 run：已有含 rFonts/u 的 rPr / 无 rPr——全量应用且无关子元素保留
    let xml = wrap(&[
        r#"<w:p><w:r><w:rPr><w:rFonts w:ascii="Times"/><w:u/></w:rPr><w:t>甲</w:t></w:r>"#,
        r#"<w:r><w:t>乙</w:t></w:r></w:p>"#,
    ].concat());
    let (out, _) = ae(
        &xml,
        &Stylesheet::empty(),
        &[EditOp::SetFormat { summary: String::new(),
            block: 1,
            expect_prefix: "甲".into(),
            paragraph: None,
            character: Some(CharFormat {
                bold: Some(true),
                size_half_pt: Some(28),
                color: Some("FF0000".into()),
                ..Default::default()
            }),
        }],
    )
    .unwrap();
    // run 1：rFonts 原样（本操作未设 font）+ u 保留；b/bCs/color/sz/szCs 按 schema 序插入
    assert!(out.contains(r#"<w:rFonts w:ascii="Times"/>"#), "rFonts 原样: {out}");
    assert!(out.contains("<w:u/>"), "无关子元素保留: {out}");
    assert_eq!(out.matches("<w:b/>").count(), 2, "两个 run 都加粗: {out}");
    assert_eq!(out.matches(r#"<w:sz w:val="28"/>"#).count(), 2, "14pt = 28 半磅: {out}");
    assert_eq!(out.matches(r#"<w:color w:val="FF0000"/>"#).count(), 2);
    // run 2 无 rPr → 新建（rPr 是 w:r 的 schema 首子元素）
    assert!(out.contains(r#"<w:r><w:rPr>"#), "无 rPr 的 run 新建 rPr: {out}");
    // 模型读回
    let m = model_of(&out);
    let Block::Paragraph(p) = &m.body[0] else { panic!() };
    for r in &p.runs {
        assert_eq!(r.props.bold, Some(true));
        assert_eq!(r.props.size_half_pt, Some(28));
        assert_eq!(r.props.color.as_deref(), Some("FF0000".as_bytes()));
    }
}

#[test]
fn set_format_creates_ppr_and_rpr_when_absent() {
    // 裸段：pPr/rPr 均新建；自闭合空段展开成对标签并新建 pPr
    let xml = wrap(&[
        r#"<w:p><w:r><w:t>裸段</w:t></w:r></w:p>"#,
        r#"<w:p/>"#,
    ].concat());
    let (out, _) = ae(
        &xml,
        &Stylesheet::empty(),
        &[
            EditOp::SetFormat { summary: String::new(),
                block: 1,
                expect_prefix: "裸段".into(),
                paragraph: Some(ParaFormat {
                    align: Some("both".into()),
                    indent_first_line_tw: Some(480),
                    indent_left_tw: Some(-240),
                    ..Default::default()
                }),
                character: Some(CharFormat { bold: Some(true), ..Default::default() }),
            },
            EditOp::SetFormat { summary: String::new(),
                block: 2,
                expect_prefix: "".into(),
                paragraph: Some(ParaFormat { line: Some(480), ..Default::default() }),
                character: None,
            },
        ],
    )
    .unwrap();
    assert!(
        out.contains(r#"<w:p><w:pPr><w:spacing w:line="480" w:lineRule="auto"/></w:pPr></w:p>"#),
        "块 2 自闭合空段展开并新建 pPr: {out}"
    );
    let m = model_of(&out);
    assert_eq!(m.body.len(), 2);
    let Block::Paragraph(p1) = &m.body[0] else { panic!() };
    assert_eq!(p1.props.alignment.as_deref(), Some("both".as_bytes()));
    assert_eq!(p1.props.indent_first_line, Some(480));
    assert_eq!(p1.props.indent_left, None, "负左缩进 i32 → 模型 u32 不收，XML 已写");
    assert!(out.contains(r#"w:left="-240""#), "负左缩进写入: {out}");
    assert_eq!(p1.runs[0].props.bold, Some(true));
    let Block::Paragraph(p2) = &m.body[1] else { panic!() };
    assert_eq!(p2.props.spacing_line, Some(480));
}

#[test]
fn set_format_indent_zero_suppresses_chars_variants() {
    // 缺口 2（2026-08-26 生产反馈）：正文样式带 firstLineChars=200，工具只写
    // firstLine=0、删掉直接层 chars 变体 → 样式层 chars 透出、缩进仍在。
    // 修复后显式写 0（chars 单位优先于 twips，跨层压制唯一正解）
    let xml = &[
        r#"<w:p><w:pPr><w:pStyle w:val="body"/>"#,
        r#"<w:ind w:firstLine="480" w:firstLineChars="200"/></w:pPr><w:r><w:t>甲</w:t></w:r></w:p>"#,
    ].concat();
    // ① 直接层原带 chars 变体（生产真实形态）→ 四变体显式归零
    let (out, _) = ae(
        &wrap(xml),
        &heading_styles(),
        &[EditOp::SetFormat { summary: String::new(),
            block: 1,
            expect_prefix: "甲".into(),
            paragraph: Some(ParaFormat { indent_first_line_tw: Some(0), ..Default::default() }),
            character: None,
        }],
    )
    .unwrap();
    assert!(
        out.contains(r#"<w:ind w:firstLine="0" w:firstLineChars="0" w:hanging="0" w:hangingChars="0"/>"#),
        "四变体归零（任意元素内优先序下都渲染无缩进）: {out}"
    );
    // ② 无直接 ind → 新建即四零（压制不依赖直接层已有 ind）
    let xml2 = wrap(r#"<w:p><w:r><w:t>乙</w:t></w:r></w:p>"#);
    let (out2, _) = ae(
        &xml2,
        &Stylesheet::empty(),
        &[EditOp::SetFormat { summary: String::new(),
            block: 1,
            expect_prefix: "乙".into(),
            paragraph: Some(ParaFormat { indent_first_line_tw: Some(0), ..Default::default() }),
            character: None,
        }],
    )
    .unwrap();
    assert!(
        out2.contains(r#"<w:ind w:firstLine="0" w:firstLineChars="0" w:hanging="0" w:hangingChars="0"/>"#),
        "新建即四零: {out2}"
    );
    // ③ 非零值：chars 压 0、hanging 系移除（写 hanging=0 会反伤——元素内 hanging 优先 firstLine）
    let (out3, _) = ae(
        &wrap(xml),
        &heading_styles(),
        &[EditOp::SetFormat { summary: String::new(),
            block: 1,
            expect_prefix: "甲".into(),
            paragraph: Some(ParaFormat { indent_first_line_tw: Some(480), ..Default::default() }),
            character: None,
        }],
    )
    .unwrap();
    assert!(
        out3.contains(r#"<w:ind w:firstLine="480" w:firstLineChars="0"/>"#),
        "非零：chars=0: {out3}"
    );
    assert!(!out3.contains("w:hanging"), "非零不写 hanging（反伤 firstLine）: {out3}");
    // ④ 左缩进同律：leftChars=0 压样式层
    let (out4, _) = ae(
        &xml2,
        &Stylesheet::empty(),
        &[EditOp::SetFormat { summary: String::new(),
            block: 1,
            expect_prefix: "乙".into(),
            paragraph: Some(ParaFormat { indent_left_tw: Some(0), ..Default::default() }),
            character: None,
        }],
    )
    .unwrap();
    assert!(out4.contains(r#"<w:ind w:left="0" w:leftChars="0"/>"#), "左缩进双零: {out4}");
}

#[test]
fn set_cell_format_style_restyles_cell_paragraphs() {
    // 缺口 1（2026-08-26 生产反馈）：格内段落无法套段落样式（set_style 拒表格块）。
    // set_cell_format 加 style：格内全段 pStyle 手术，名/ID 反查同 set_style
    let cell = &[
        r#"<w:tc><w:tcPr><w:tcW w:w="4500" w:type="dxa"/></w:tcPr>"#,
        r#"<w:p><w:pPr><w:ind w:firstLine="480"/></w:pPr><w:r><w:t>上</w:t></w:r></w:p>"#,
        r#"<w:p><w:r><w:t>下</w:t></w:r></w:p></w:tc>"#,
    ].concat();
    let xml = wrap(&format!(
        r#"<w:tbl><w:tblPr/><w:tblGrid><w:gridCol w:w="4500"/><w:gridCol w:w="4500"/></w:tblGrid><w:tr>{}{}</w:tr></w:tbl>"#,
        cell,
        cell_xml("邻")
    ));
    // ① 纯样式操作（paragraph/character 全空）合法 + 摘要携带样式
    let (out, applied) = ae(
        &xml,
        &heading_styles(),
        &[EditOp::SetCellFormat { summary: String::new(),
            block: 1,
            expect_prefix: "上".into(),
            row: 1,
            cell: 1,
            paragraph: None,
            character: None,
            style: Some("heading 2".into()),
        }],
    )
    .unwrap();
    assert_eq!(applied[0].op, "set_cell_format");
    assert_eq!(applied[0].style.as_deref(), Some("h2"), "AppliedOp.style 携带解析后 ID");
    assert!(applied[0].after.contains("样式=heading 2"), "摘要: {}", applied[0].after);
    assert_eq!(out.matches(r#"<w:pStyle w:val="h2"/>"#).count(), 2, "格内两段都换样式: {out}");
    assert!(out.contains(r#"<w:ind w:firstLine="480"/>"#), "既有 ind 保留: {out}");
    let before_last_close = out.rsplit_once("</w:tc>").unwrap().0;
    let neighbor = &out[before_last_close.rfind("<w:tc>").unwrap()..];
    assert!(!neighbor.contains("w:pStyle"), "邻格未动: {neighbor}");
    // 模型读回：格内两段样式都生效
    let m = model_of(&out);
    let Block::Table(t) = &m.body[0] else { panic!() };
    for b in &t.rows[0].cells[0].blocks {
        let Block::Paragraph(p) = b else { continue };
        assert_eq!(p.props.style.as_deref(), Some("h2".as_bytes()));
    }
    // ② 样式 + 直接格式同手：pStyle 首位 + 四零 ind（与缺口 2 修复叠加的生产配方）
    let (out2, _) = ae(
        &xml,
        &heading_styles(),
        &[EditOp::SetCellFormat { summary: String::new(),
            block: 1,
            expect_prefix: "上".into(),
            row: 1,
            cell: 1,
            paragraph: Some(ParaFormat { indent_first_line_tw: Some(0), ..Default::default() }),
            character: None,
            style: Some("heading 2".into()),
        }],
    )
    .unwrap();
    assert!(
        out2.contains(
            r#"<w:pPr><w:pStyle w:val="h2"/><w:ind w:firstLine="0" w:firstLineChars="0" w:hanging="0" w:hangingChars="0"/></w:pPr>"#
        ),
        "pStyle 首位（schema 序）+ 四零 ind: {out2}"
    );
    // ③ 未知样式家族前缀（与 set_style 同判）
    let err = val_msg(
        ae(
            &xml,
            &heading_styles(),
            &[EditOp::SetCellFormat { summary: String::new(),
                block: 1,
                expect_prefix: "上".into(),
                row: 1,
                cell: 1,
                paragraph: None,
                character: None,
                style: Some("没有这样式".into()),
            }],
        )
        .unwrap_err(),
    );
    assert!(err.starts_with("未知样式"), "实际: {err}");
}

#[test]
fn set_format_validation_families() {
    let xml = wrap(r#"<w:p><w:r><w:t>一段</w:t></w:r></w:p>"#);
    let empty_op = |paragraph, character| EditOp::SetFormat { summary: String::new(),
        block: 1,
        expect_prefix: "一段".into(),
        paragraph,
        character,
    };
    // 空格式
    let err = val_msg(ae(&xml, &Stylesheet::empty(), &[empty_op(None, None)]).unwrap_err());
    assert!(err.starts_with("空格式操作"), "实际: {err}");
    let err = val_msg(
        ae(&xml, &Stylesheet::empty(), &[empty_op(Some(ParaFormat::default()), None)]).unwrap_err(),
    );
    assert!(err.starts_with("空格式操作"), "实际: {err}");
    // 对齐白名单
    let err = val_msg(
        ae(
            &xml,
            &Stylesheet::empty(),
            &[empty_op(
                Some(ParaFormat { align: Some("middle".into()), ..Default::default() }),
                None,
            )],
        )
        .unwrap_err(),
    );
    assert!(err.starts_with("对齐值无效"), "实际: {err}");
    // 颜色 hex
    let err = val_msg(
        ae(
            &xml,
            &Stylesheet::empty(),
            &[empty_op(
                None,
                Some(CharFormat { color: Some("RED".into()), ..Default::default() }),
            )],
        )
        .unwrap_err(),
    );
    assert!(err.starts_with("颜色值无效"), "实际: {err}");
    // 字号范围
    
    // 负首行缩进
    let err = val_msg(
        ae(
            &xml,
            &Stylesheet::empty(),
            &[empty_op(
                Some(ParaFormat { indent_first_line_tw: Some(-10), ..Default::default() }),
                None,
            )],
        )
        .unwrap_err(),
    );
    assert!(err.starts_with("缩进值无效"), "实际: {err}");
    // 表格块（前缀对准表内文字，确保落在表格拒绝而非指纹不符）
    let tbl = wrap(r#"<w:tbl><w:tr><w:tc><w:p><w:r><w:t>表</w:t></w:r></w:p></w:tc></w:tr></w:tbl>"#);
    let err = val_msg(
        ae(
            &tbl,
            &Stylesheet::empty(),
            &[EditOp::SetFormat { summary: String::new(),
                block: 1,
                expect_prefix: "表".into(),
                paragraph: None,
                character: Some(CharFormat { bold: Some(true), ..Default::default() }),
            }],
        )
        .unwrap_err(),
    );
    assert!(err.starts_with("表格块"), "实际: {err}");
}

#[test]
fn newline_and_tab_in_inserted_text() {
    let xml = wrap(r#"<w:p><w:r><w:t>锚</w:t></w:r></w:p>"#);
    let styles = Stylesheet::empty();
    let (out, _) = ae(
        &xml,
        &styles,
        &[EditOp::InsertParagraphAfter {
            block: 1,
            expect_prefix: "锚".into(),
            text: "甲\n乙\t丙".into(),
            style: None,
        }],
    )
    .unwrap();
    let m = model_of(&out);
    let mut t = String::new();
    bt(&m.body, &mut t);
    assert_eq!(t, "锚\n甲\n乙\t丙\n");
}

#[test]
fn repack_keeps_untouched_entries_byte_identical() {
    let original = build_builtin_template("report").unwrap();
    let xml = read_document_xml(&original).unwrap();
    let repacked = repack_part(&original, "word/document.xml", &xml).unwrap();
    let mut orig_zip = zip::ZipArchive::new(Cursor::new(&original)).unwrap();
    let mut new_zip = zip::ZipArchive::new(Cursor::new(&repacked)).unwrap();
    assert_eq!(orig_zip.len(), new_zip.len(), "entry 数一致");
    for i in 0..orig_zip.len() {
        let (oname, odata) = read_entry_at(&mut orig_zip, i);
        let (nname, ndata) = read_entry_at(&mut new_zip, i);
        assert_eq!(oname, nname, "entry 名一致");
        assert_eq!(odata, ndata, "entry {oname} 内容应逐字节相等");
    }
    let new_xml = String::from_utf8(xml.clone()).unwrap().replace("<w:p/>", "<w:p><w:r><w:t>改后段</w:t></w:r></w:p>");
    assert_ne!(new_xml.as_bytes(), xml.as_slice());
    let repacked2 = repack_part(&original, "word/document.xml", new_xml.as_bytes()).unwrap();
    let mut new_zip2 = zip::ZipArchive::new(Cursor::new(&repacked2)).unwrap();
    for i in 0..orig_zip.len() {
        let (oname, odata) = read_entry_at(&mut orig_zip, i);
        let (nname, ndata) = read_entry_at(&mut new_zip2, i);
        assert_eq!(oname, nname);
        if oname == "word/document.xml" {
            assert_ne!(odata, ndata, "document.xml 应已替换");
        } else {
            assert_eq!(odata, ndata, "untouched entry {oname} 应逐字节相等");
        }
    }
    let extracted = String::from_utf8(read_document_xml(&repacked2).unwrap()).unwrap();
    assert!(extracted.contains("改后段"));
}


// ---- 表格四件（S3 三波）----

/// 两格行 / 两行两格表 fixture。
fn cell_xml(text: &str) -> String {
    format!(
        r#"<w:tc><w:tcPr><w:tcW w:w="4500" w:type="dxa"/></w:tcPr><w:p><w:r><w:t>{text}</w:t></w:r></w:p></w:tc>"#
    )
}
fn row_xml(a: &str, b: &str) -> String {
    format!("<w:tr>{}{}</w:tr>", cell_xml(a), cell_xml(b))
}
fn tbl_of(rows: &[String]) -> String {
    format!(
        r#"<w:tbl><w:tblPr><w:tblW w:w="0" w:type="auto"/></w:tblPr><w:tblGrid><w:gridCol w:w="4500"/><w:gridCol w:w="4500"/></w:tblGrid>{}</w:tbl>"#,
        rows.concat()
    )
}
fn two_row_table_doc() -> String {
    wrap(&tbl_of(&[row_xml("甲一", "乙一"), row_xml("甲二", "乙二")]))
}

#[test]
fn insert_table_after_builds_grid() {
    let xml = wrap(r#"<w:p><w:r><w:t>锚段</w:t></w:r></w:p>"#);
    let (out, applied) = ae(
        &xml,
        &Stylesheet::empty(),
        &[EditOp::InsertTableAfter {
            block: 1,
            expect_prefix: "锚段".into(),
            rows: vec![vec!["列一".into(), "列二".into()], vec!["1".into(), "2".into()]],
            header: None,
            table_style: None,
        }],
    )
    .unwrap();
    assert_eq!(applied.len(), 1);
    assert_eq!(applied[0].op, "insert_table_after");
    // 块数守恒：1 段 + 1 表
    let m = model_of(&out);
    assert_eq!(m.body.len(), 2);
    let Block::Table(t) = &m.body[1] else { panic!("块 2 应为表格") };
    assert_eq!(t.rows.len(), 2);
    assert_eq!(t.rows[0].cells.len(), 2);
    // 默认表头：加粗 + 跨页重复 + 全边框 + 100% 宽
    assert!(out.contains("<w:tblHeader/>"), "表头行应带 tblHeader");
    assert!(out.contains("<w:b/>"), "表头应加粗");
    assert!(out.contains(r#"w:type="pct""#), "tblW 应为百分比宽");
    assert!(out.contains("<w:insideH"), "应有内框线");
    // header=false：无表头标记无加粗
    let (out2, _) = ae(
        &xml,
        &Stylesheet::empty(),
        &[EditOp::InsertTableAfter {
            block: 1,
            expect_prefix: "锚段".into(),
            rows: vec![vec!["a".into(), "b".into()]],
            header: Some(false),
            table_style: None,
        }],
    )
    .unwrap();
    assert!(!out2.contains("<w:tblHeader/>"));
    // \n = 格内多段（两个 <w:p>，非 br——表格格内软换行走真段落）
    let (out3, _) = ae(
        &xml,
        &Stylesheet::empty(),
        &[EditOp::InsertTableAfter {
            block: 1,
            expect_prefix: "锚段".into(),
            rows: vec![vec!["一\n二".into(), "b".into()]],
            header: Some(false),
            table_style: None,
        }],
    )
    .unwrap();
    assert!(!out3.contains("<w:br/>"), "格内 \\n 不应转 br（设计=分段）");
    let cell1 = out3.find("一</w:t>").map(|p| out3[..p].matches("<w:p>").count()).unwrap_or(0);
    assert_eq!(cell1, 2, "首格应含两个段落: {}", &out3[out3.find("<w:tbl>").unwrap()..out3.find("<w:tbl>").unwrap() + 300]);
}

#[test]
fn insert_table_after_rejects_bad_rows() {
    let xml = wrap(r#"<w:p><w:r><w:t>锚</w:t></w:r></w:p>"#);
    // 空 rows
    let err = val_msg(ae(
        &xml,
        &Stylesheet::empty(),
        &[EditOp::InsertTableAfter { block: 1, expect_prefix: "锚".into(), rows: vec![], header: None, table_style: None }],
    ).unwrap_err());
    assert!(err.starts_with("表格数据无效"), "实际: {err}");
    // 非矩形
    let err = val_msg(ae(
        &xml,
        &Stylesheet::empty(),
        &[EditOp::InsertTableAfter {
            block: 1,
            expect_prefix: "锚".into(),
            rows: vec![vec!["a".into(), "b".into()], vec!["c".into()]],
            header: None,
            table_style: None,
        }],
    ).unwrap_err());
    assert!(err.starts_with("表格数据无效"), "实际: {err}");
    assert!(err.contains("2 行"), "应指明行号: {err}");
    // 超行数上限
    let big: Vec<Vec<Vec<u8>>> = (0..201).map(|i| vec![i.to_string().into_bytes()]).collect();
    let err = val_msg(ae(
        &xml,
        &Stylesheet::empty(),
        &[EditOp::InsertTableAfter { block: 1, expect_prefix: "锚".into(), rows: big, header: None, table_style: None }],
    ).unwrap_err());
    assert!(err.starts_with("表格数据无效"), "实际: {err}");
    assert!(err.contains("超上限"), "实际: {err}");
}

#[test]
fn set_cell_text_preserves_structure_and_formats() {
    // 格 (1,1)：gridSpan=2 + 段 pPr 居中 + run 加粗——改文本全保留
    let span_cell = r#"<w:tc><w:tcPr><w:tcW w:w="4500" w:type="dxa"/><w:gridSpan w:val="2"/></w:tcPr><w:p><w:pPr><w:jc w:val="center"/></w:pPr><w:r><w:rPr><w:b/></w:rPr><w:t>旧文</w:t></w:r></w:p></w:tc>"#;
    let xml = wrap(&format!(
        r#"<w:tbl><w:tblPr/><w:tblGrid><w:gridCol w:w="4500"/><w:gridCol w:w="4500"/></w:tblGrid><w:tr>{}{}</w:tr></w:tbl>"#,
        span_cell,
        cell_xml("乙")
    ));
    let (out, applied) = ae(
        &xml,
        &Stylesheet::empty(),
        &[EditOp::SetCellText {
            block: 1,
            expect_prefix: "旧文".into(),
            row: 1,
            cell: 1,
            text: "新文\n二段".into(),
        }],
    )
    .unwrap();
    assert_eq!(applied.len(), 1);
    assert_eq!(applied[0].op, "set_cell_text");
    assert_eq!(applied[0].before, "旧文");
    assert_eq!(applied[0].after, "新文\n二段");
    // tcPr 整体保留（tcW + gridSpan）
    assert!(out.contains(r#"<w:gridSpan w:val="2"/>"#), "gridSpan 应保留");
    // 段/字符格式保留 + \n 成两段
    assert!(out.contains(r#"<w:jc w:val="center"/>"#), "段落格式应保留");
    assert!(out.contains("<w:b/>"), "字符格式应保留");
    assert!(out.contains("新文"), "新文本应写入");
    assert!(!out.contains("旧文"), "旧文本应替换");
    assert_eq!(out.matches("<w:p>").count(), 2 + 1, "格 1 两段 + 格 2 一段");
    // 产物可回读且结构不变
    let m = model_of(&out);
    let Block::Table(t) = &m.body[0] else { panic!() };
    assert_eq!(t.rows[0].cells.len(), 2);
    assert_eq!(t.rows[0].cells[0].grid_span, Some(2));
    // 空文本 = 清空（留一个带原格式的空段）
    let (out2, _) = ae(
        &xml,
        &Stylesheet::empty(),
        &[EditOp::SetCellText {
            block: 1,
            expect_prefix: "旧文".into(),
            row: 1,
            cell: 1,
            text: String::new(),
        }],
    )
    .unwrap();
    assert!(out2.contains(r#"<w:jc w:val="center"/>"#), "清空仍保留段落格式");
    assert!(!out2.contains("旧文"));
}

#[test]
fn set_cell_text_error_families() {
    // 非表格块
    let xml = wrap(r#"<w:p><w:r><w:t>段</w:t></w:r></w:p>"#);
    let err = val_msg(ae(
        &xml,
        &Stylesheet::empty(),
        &[EditOp::SetCellText { block: 1, expect_prefix: "段".into(), row: 1, cell: 1, text: "x".into() }],
    ).unwrap_err());
    assert!(err.starts_with("非表格块"), "实际: {err}");
    // 行越界 / 格越界
    let xml = two_row_table_doc();
    let err = val_msg(ae(
        &xml,
        &Stylesheet::empty(),
        &[EditOp::SetCellText { block: 1, expect_prefix: "甲".into(), row: 5, cell: 1, text: "x".into() }],
    ).unwrap_err());
    assert!(err.starts_with("单元格越界"), "实际: {err}");
    let err = val_msg(ae(
        &xml,
        &Stylesheet::empty(),
        &[EditOp::SetCellText { block: 1, expect_prefix: "甲".into(), row: 1, cell: 3, text: "x".into() }],
    ).unwrap_err());
    assert!(err.starts_with("单元格越界"), "实际: {err}");
    // 纵向合并续格（bare vMerge = continue）——续格放第 2 行，指纹取首行
    let cont_cell = r#"<w:tc><w:tcPr><w:vMerge/></w:tcPr><w:p/></w:tc>"#;
    let cont_row = format!("<w:tr>{}{}</w:tr>", cont_cell, cell_xml("乙二"));
    let xml = wrap(&format!(
        r#"<w:tbl><w:tblPr/><w:tblGrid><w:gridCol w:w="4500"/><w:gridCol w:w="4500"/></w:tblGrid>{}{}</w:tbl>"#,
        row_xml("甲一", "乙一"),
        cont_row
    ));
    let err = val_msg(ae(
        &xml,
        &Stylesheet::empty(),
        &[EditOp::SetCellText { block: 1, expect_prefix: "甲一".into(), row: 2, cell: 1, text: "x".into() }],
    ).unwrap_err());
    assert!(err.starts_with("纵向合并续格"), "实际: {err}");
    assert!(err.contains("合并头"), "应指向合并头: {err}");
    // 同一格多操作
    let xml = two_row_table_doc();
    let err = val_msg(ae(
        &xml,
        &Stylesheet::empty(),
        &[
            EditOp::SetCellText { block: 1, expect_prefix: "甲".into(), row: 1, cell: 1, text: "x".into() },
            EditOp::SetCellText { block: 1, expect_prefix: "甲".into(), row: 1, cell: 1, text: "y".into() },
        ],
    ).unwrap_err());
    assert!(err.starts_with("同一格多操作"), "实际: {err}");
    // 段落操作与表格操作同块冲突
    let err = val_msg(ae(
        &xml,
        &Stylesheet::empty(),
        &[
            EditOp::SetCellText { block: 1, expect_prefix: "甲".into(), row: 1, cell: 1, text: "x".into() },
            EditOp::DeleteBlock { block: 1, expect_prefix: "甲".into() },
        ],
    ).unwrap_err());
    assert!(err.starts_with("同一块多操作"), "实际: {err}");
}

#[test]
fn insert_table_row_after_clones_template() {
    // 模板行带 vMerge restart + gridSpan——克隆后结构原样、文本替换
    let merged_cell = r#"<w:tc><w:tcPr><w:tcW w:w="4500" w:type="dxa"/><w:vMerge w:val="restart"/><w:gridSpan w:val="1"/></w:tcPr><w:p><w:r><w:t>头</w:t></w:r></w:p></w:tc>"#;
    let merged_row = format!("<w:tr>{}{}</w:tr>", merged_cell, cell_xml("右"));
    let xml = wrap(&format!(
        r#"<w:tbl><w:tblPr/><w:tblGrid><w:gridCol w:w="4500"/><w:gridCol w:w="4500"/></w:tblGrid>{}{}</w:tbl>"#,
        merged_row,
        row_xml("甲二", "乙二")
    ));
    // 克隆第 1 行插到其后 + 填文本
    let (out, applied) = ae(
        &xml,
        &Stylesheet::empty(),
        &[EditOp::InsertTableRowAfter {
            block: 1,
            expect_prefix: "头".into(),
            after_row: Some(1),
            cells: Some(vec!["新甲".into(), "新乙".into()]),
        }],
    )
    .unwrap();
    assert_eq!(applied.len(), 1);
    assert_eq!(applied[0].op, "insert_table_row_after");
    let m = model_of(&out);
    let Block::Table(t) = &m.body[0] else { panic!() };
    assert_eq!(t.rows.len(), 3, "2 行 + 1 克隆");
    // 新行（第 2 行）结构继承：vMerge restart / 格数一致；文本已换
    assert_eq!(t.rows[1].cells[0].v_merge.as_deref(), Some("restart".as_bytes()), "vMerge 应随克隆保留");
    assert!(out.contains("新甲"), "cells 文本应写入");
    // 缺省：克隆末行、全空格
    let (out2, _) = ae(
        &xml,
        &Stylesheet::empty(),
        &[EditOp::InsertTableRowAfter {
            block: 1,
            expect_prefix: "头".into(),
            after_row: None,
            cells: None,
        }],
    )
    .unwrap();
    let m2 = model_of(&out2);
    let Block::Table(t2) = &m2.body[0] else { panic!() };
    assert_eq!(t2.rows.len(), 3);
    // 新末行文本为空（甲二/乙二 不重复出现三次）
    assert_eq!(out2.matches("甲二").count(), 1, "克隆行文本应清空");
}

#[test]
fn insert_table_row_after_error_families() {
    let xml = two_row_table_doc();
    // 行号越界
    let err = val_msg(ae(
        &xml,
        &Stylesheet::empty(),
        &[EditOp::InsertTableRowAfter {
            block: 1,
            expect_prefix: "甲".into(),
            after_row: Some(9),
            cells: None,
        }],
    ).unwrap_err());
    assert!(err.starts_with("行号越界"), "实际: {err}");
    // 列数不符
    let err = val_msg(ae(
        &xml,
        &Stylesheet::empty(),
        &[EditOp::InsertTableRowAfter {
            block: 1,
            expect_prefix: "甲".into(),
            after_row: Some(1),
            cells: Some(vec!["只给一格".into(), "两格".into(), "三格".into()]),
        }],
    ).unwrap_err());
    assert!(err.starts_with("列数不符"), "实际: {err}");
    // 非表格块
    let xml_p = wrap(r#"<w:p><w:r><w:t>段</w:t></w:r></w:p>"#);
    let err = val_msg(ae(
        &xml_p,
        &Stylesheet::empty(),
        &[EditOp::InsertTableRowAfter {
            block: 1,
            expect_prefix: "段".into(),
            after_row: None,
            cells: None,
        }],
    ).unwrap_err());
    assert!(err.starts_with("非表格块"), "实际: {err}");
}

#[test]
fn same_table_batch_insert_then_fill() {
    // 「增行 + 填新行格」一批完成：虚拟行寻址 + 按序生效
    let xml = two_row_table_doc();
    let (out, applied) = ae(
        &xml,
        &Stylesheet::empty(),
        &[
            EditOp::InsertTableRowAfter {
                block: 1,
                expect_prefix: "甲".into(),
                after_row: None,
                cells: None,
            },
            EditOp::SetCellText {
                block: 1,
                expect_prefix: "甲".into(),
                row: 3,
                cell: 1,
                text: "新行甲".into(),
            },
            EditOp::SetCellText {
                block: 1,
                expect_prefix: "甲".into(),
                row: 3,
                cell: 2,
                text: "新行乙".into(),
            },
        ],
    )
    .unwrap();
    assert_eq!(applied.len(), 3, "三操作同块按序组合");
    let m = model_of(&out);
    let Block::Table(t) = &m.body[0] else { panic!() };
    assert_eq!(t.rows.len(), 3);
    let mut text = String::new();
    for c in &t.rows[2].cells {
        bt(&c.blocks, &mut text);
    }
    assert_eq!(text, "新行甲\n新行乙\n", "新行两格已填: {text}");
    // 原行不动
    let mut text0 = String::new();
    for c in &t.rows[0].cells {
        bt(&c.blocks, &mut text0);
    }
    assert_eq!(text0, "甲一\n乙一\n");
}

#[test]
fn text_op_on_table_points_to_table_ops() {
    // 段落操作命中表格块 → 家族前缀「表格块」+ 指路新三件
    let xml = two_row_table_doc();
    let err = val_msg(ae(
        &xml,
        &Stylesheet::empty(),
        &[EditOp::ReplaceText { block: 1, expect_prefix: "甲一".into(), new_text: "x".into() }],
    ).unwrap_err());
    assert!(err.starts_with("表格块"), "实际: {err}");
    assert!(err.contains("set_cell_text"), "应指路 set_cell_text: {err}");
    assert!(err.contains("insert_table_after"), "应指路建表: {err}");
}

#[test]
fn direct_children_spans_skips_nested() {
    // 行内嵌套表（tc 里的 w:tbl 含 w:tr）不得计入直接子行
    let nested_row = format!(
        r#"<w:tr>{}<w:tc><w:tcPr><w:tcW w:w="4500" w:type="dxa"/></w:tcPr><w:tbl><w:tr>{}</w:tr></w:tbl><w:p/></w:tc></w:tr>"#,
        cell_xml("外"),
        row_xml("内甲", "内乙")
    );
    let tbl = format!(
        r#"<w:tbl><w:tblPr/><w:tblGrid><w:gridCol w:w="4500"/><w:gridCol w:w="4500"/></w:tblGrid>{nested_row}{}</w:tbl>"#,
        row_xml("二行", "二行乙")
    );
    let rows = dcs(&tbl, "tr");
    assert_eq!(rows.len(), 2, "嵌套 w:tr 不计入: {}", rows.len());
    for (s, e) in &rows {
        assert!(tbl[*s..*e].starts_with("<w:tr>"));
        assert!(tbl[*s..*e].ends_with("</w:tr>"));
    }
    // 格级同理：首行 2 格（嵌套表在格内，其 w:tc 不计入）
    let first_row = &tbl[rows[0].0..rows[0].1];
    let cells = dcs(first_row, "tc");
    assert_eq!(cells.len(), 2, "嵌套 w:tc 不计入");
}

// ---- 表格格式四件（S3 四波）----

const SHD_FRAG: &str = r#"<w:shd w:val="clear" w:color="auto" w:fill="DDEEFF"/>"#;

#[test]
fn set_table_element_table_level_upsert_remove_noop() {
    let xml = two_row_table_doc(); // tblPr 内已有 tblW
    // 插入 shd（schema 序在 tblBorders 后、无 tblBorders 则 tblW 后）
    let (out, applied) = ae(
        &xml,
        &Stylesheet::empty(),
        &[EditOp::SetTableElement {
            block: 1,
            expect_prefix: "甲一".into(),
            level: TableLevel::Table,
            row: None,
            cell: None,
            element: "shd".into(),
            xml: Some(SHD_FRAG.into()),
        }],
    )
    .unwrap();
    assert_eq!(applied[0].op, "set_table_element");
    assert_eq!(applied[0].after, "set table:shd");
    let tblpr = out.split("<w:tblPr>").nth(1).unwrap().split("</w:tblPr>").next().unwrap();
    assert!(tblpr.contains(r#"<w:tblW w:w="0" w:type="auto"/>"#), "tblW 原样保留");
    assert!(tblpr.contains(SHD_FRAG), "shd 已插入");
    assert!(
        tblpr.find("<w:tblW").unwrap() < tblpr.find("<w:shd").unwrap(),
        "schema 序：tblW 在 shd 前"
    );
    // 替换：同元素再写不同值
    let frag2 = r#"<w:shd w:val="clear" w:color="auto" w:fill="FFFFFF"/>"#;
    let (out2, _) = ae(
        &xml,
        &Stylesheet::empty(),
        &[EditOp::SetTableElement {
            block: 1,
            expect_prefix: "甲一".into(),
            level: TableLevel::Table,
            row: None,
            cell: None,
            element: "shd".into(),
            xml: Some(frag2.into()),
        }],
    )
    .unwrap();
    assert!(out2.contains(frag2), "整元素替换");
    // 移除 tblW → 摘空（tblPr 只剩 tblW 的 fixture）→ 容器整体清理
    let (out3, applied3) = ae(
        &xml,
        &Stylesheet::empty(),
        &[EditOp::SetTableElement {
            block: 1,
            expect_prefix: "甲一".into(),
            level: TableLevel::Table,
            row: None,
            cell: None,
            element: "tblW".into(),
            xml: None,
        }],
    )
    .unwrap();
    assert_eq!(applied3[0].after, "removed table:tblW");
    assert!(!out3.contains("<w:tblPr"), "摘空容器整体清理");
    // 空转：元素不存在 + xml=null
    let (out4, applied4) = ae(
        &xml,
        &Stylesheet::empty(),
        &[EditOp::SetTableElement {
            block: 1,
            expect_prefix: "甲一".into(),
            level: TableLevel::Table,
            row: None,
            cell: None,
            element: "tblLook".into(),
            xml: None,
        }],
    )
    .unwrap();
    assert_eq!(out4, xml, "空转不改字节");
    assert!(applied4[0].after.contains("不存在"), "空转信号: {}", applied4[0].after);
}

#[test]
fn set_table_element_creates_container_when_absent() {
    // tblPr 自闭合空容器 → 有片段时展开为完整容器
    let xml = wrap(&format!(
        r#"<w:tbl><w:tblPr/><w:tblGrid><w:gridCol w:w="4500"/><w:gridCol w:w="4500"/></w:tblGrid>{}</w:tbl>"#,
        row_xml("甲", "乙")
    ));
    let (out, _) = ae(
        &xml,
        &Stylesheet::empty(),
        &[EditOp::SetTableElement {
            block: 1,
            expect_prefix: "甲".into(),
            level: TableLevel::Table,
            row: None,
            cell: None,
            element: "tblBorders".into(),
            xml: Some(r#"<w:tblBorders><w:insideH w:val="single" w:sz="4"/></w:tblBorders>"#.into()),
        }],
    )
    .unwrap();
    assert!(out.contains(r#"<w:tblPr><w:tblBorders>"#), "空容器展开: {out}");
    // tblPr 完全缺失 → 开标签后新建
    let xml2 = wrap(&format!(
        r#"<w:tbl><w:tblGrid><w:gridCol w:w="4500"/></w:tblGrid><w:tr>{}</w:tr></w:tbl>"#,
        cell_xml("独")
    ));
    let (out2, _) = ae(
        &xml2,
        &Stylesheet::empty(),
        &[EditOp::SetTableElement {
            block: 1,
            expect_prefix: "独".into(),
            level: TableLevel::Table,
            row: None,
            cell: None,
            element: "tblW".into(),
            xml: Some(r#"<w:tblW w:w="0" w:type="auto"/>"#.into()),
        }],
    )
    .unwrap();
    assert!(out2.contains(r#"<w:tbl><w:tblPr><w:tblW w:w="0" w:type="auto"/></w:tblPr><w:tblGrid>"#), "容器新建于开标签后: {out2}");
}

#[test]
fn set_table_element_row_and_cell_levels() {
    let xml = two_row_table_doc();
    // 行级：trHeight（容器不存在 → 新建于 tr 开标签后）
    let (out, applied) = ae(
        &xml,
        &Stylesheet::empty(),
        &[EditOp::SetTableElement {
            block: 1,
            expect_prefix: "甲一".into(),
            level: TableLevel::Row,
            row: Some(2),
            cell: None,
            element: "trHeight".into(),
            xml: Some(r#"<w:trHeight w:val="400" w:hRule="atLeast"/>"#.into()),
        }],
    )
    .unwrap();
    assert_eq!(applied[0].after, "set r2:trHeight");
    // 第二行（甲二/乙二）带 trPr，第一行不带
    let r2 = out.split("甲二").next().unwrap();
    assert!(r2.contains(r#"<w:trPr><w:trHeight w:val="400" w:hRule="atLeast"/></w:trPr>"#), "行级容器新建: {out}");
    // 格级：shd + vAlign
    let (out2, _) = ae(
        &xml,
        &Stylesheet::empty(),
        &[EditOp::SetTableElement {
            block: 1,
            expect_prefix: "甲一".into(),
            level: TableLevel::Cell,
            row: Some(1),
            cell: Some(2),
            element: "shd".into(),
            xml: Some(SHD_FRAG.into()),
        }],
    )
    .unwrap();
    assert!(out2.contains(&format!(r#"<w:tcW w:w="4500" w:type="dxa"/>{SHD_FRAG}"#)), "tcPr 内 schema 位插入");
    // 模型读回：格特征上屏
    let m = model_of(&out2);
    let Block::Table(t) = &m.body[0] else { panic!() };
    assert_eq!(t.rows[0].cells.len(), 2);
    assert_eq!(out2.matches(SHD_FRAG).count(), 1, "只动目标格");
}

#[test]
fn set_table_element_error_families() {
    let xml = two_row_table_doc();
    // 受保护结构属性
    let err = val_msg(ae(
        &xml,
        &Stylesheet::empty(),
        &[EditOp::SetTableElement {
            block: 1,
            expect_prefix: "甲一".into(),
            level: TableLevel::Cell,
            row: Some(1),
            cell: Some(1),
            element: "gridSpan".into(),
            xml: Some(r#"<w:gridSpan w:val="2"/>"#.into()),
        }],
    ).unwrap_err());
    assert!(err.starts_with("受保护子元素"), "实际: {err}");
    assert!(err.contains("merge_cells"), "应指路 merge_cells: {err}");
    // 白名单外
    let err = val_msg(ae(
        &xml,
        &Stylesheet::empty(),
        &[EditOp::SetTableElement {
            block: 1,
            expect_prefix: "甲一".into(),
            level: TableLevel::Table,
            row: None,
            cell: None,
            element: "tblGridX".into(),
            xml: None,
        }],
    ).unwrap_err());
    assert!(err.starts_with("非法子元素"), "实际: {err}");
    assert!(err.contains("tblpr"), "应指路 tblpr 投影: {err}");
    // level 与 row/cell 组合校验
    let err = val_msg(ae(
        &xml,
        &Stylesheet::empty(),
        &[EditOp::SetTableElement {
            block: 1,
            expect_prefix: "甲一".into(),
            level: TableLevel::Table,
            row: Some(1),
            cell: None,
            element: "shd".into(),
            xml: Some(SHD_FRAG.into()),
        }],
    ).unwrap_err());
    assert!(err.starts_with("参数校验失败"), "实际: {err}");
    let err = val_msg(ae(
        &xml,
        &Stylesheet::empty(),
        &[EditOp::SetTableElement {
            block: 1,
            expect_prefix: "甲一".into(),
            level: TableLevel::Cell,
            row: Some(1),
            cell: None,
            element: "shd".into(),
            xml: Some(SHD_FRAG.into()),
        }],
    ).unwrap_err());
    assert!(err.starts_with("参数校验失败"), "实际: {err}");
    // 行越界
    let err = val_msg(ae(
        &xml,
        &Stylesheet::empty(),
        &[EditOp::SetTableElement {
            block: 1,
            expect_prefix: "甲一".into(),
            level: TableLevel::Row,
            row: Some(9),
            cell: None,
            element: "trHeight".into(),
            xml: Some(r#"<w:trHeight w:val="400"/>"#.into()),
        }],
    ).unwrap_err());
    assert!(err.starts_with("行号越界"), "实际: {err}");
    // 片段校验（根名不符）
    let err = val_msg(ae(
        &xml,
        &Stylesheet::empty(),
        &[EditOp::SetTableElement {
            block: 1,
            expect_prefix: "甲一".into(),
            level: TableLevel::Table,
            row: None,
            cell: None,
            element: "shd".into(),
            xml: Some(r#"<w:wrong val="1"/>"#.into()),
        }],
    ).unwrap_err());
    assert!(err.contains("tblpr"), "片段校验错应指路 tblpr: {err}");
    // 非表格块
    let xml_p = wrap(r#"<w:p><w:r><w:t>段</w:t></w:r></w:p>"#);
    let err = val_msg(ae(
        &xml_p,
        &Stylesheet::empty(),
        &[EditOp::SetTableElement {
            block: 1,
            expect_prefix: "段".into(),
            level: TableLevel::Table,
            row: None,
            cell: None,
            element: "shd".into(),
            xml: Some(SHD_FRAG.into()),
        }],
    ).unwrap_err());
    assert!(err.starts_with("非表格块"), "实际: {err}");
}

#[test]
fn set_cell_format_hits_all_paras_and_runs() {
    // 格内两段（一段带文本、一段空）+ 全 run 加粗 + 段落居中
    let cell = r#"<w:tc><w:tcPr><w:tcW w:w="4500" w:type="dxa"/></w:tcPr><w:p><w:r><w:t>上</w:t></w:r></w:p><w:p><w:r><w:t>下</w:t></w:r></w:p></w:tc>"#;
    let xml = wrap(&format!(
        r#"<w:tbl><w:tblPr/><w:tblGrid><w:gridCol w:w="4500"/><w:gridCol w:w="4500"/></w:tblGrid><w:tr>{}{}</w:tr></w:tbl>"#,
        cell,
        cell_xml("邻")
    ));
    let (out, applied) = ae(
        &xml,
        &Stylesheet::empty(),
        &[EditOp::SetCellFormat { summary: String::new(),
            block: 1,
            expect_prefix: "上".into(),
            row: 1,
            cell: 1,
            paragraph: Some(ParaFormat { align: Some("center".into()), ..Default::default() }),
            character: Some(CharFormat { bold: Some(true), ..Default::default() }),
            style: None,
        }],
    )
    .unwrap();
    assert_eq!(applied[0].op, "set_cell_format");
    assert_eq!(out.matches(r#"<w:jc w:val="center"/>"#).count(), 2, "两段都居中: {out}");
    assert_eq!(out.matches("<w:b/>").count(), 2, "两 run 都加粗（邻格不中枪）: {out}");
    // 邻格（最后一个 tc）原样：无 jc 无 b
    let before_last_close = out.rsplit_once("</w:tc>").unwrap().0;
    let neighbor = &out[before_last_close.rfind("<w:tc>").unwrap()..];
    assert!(neighbor.contains("邻"), "提取到的确是邻格: {neighbor}");
    assert!(!neighbor.contains("w:jc") && !neighbor.contains("<w:b/>"), "邻格未动: {neighbor}");
    // 只给 character（paragraph None）合法
    let (out2, _) = ae(
        &xml,
        &Stylesheet::empty(),
        &[EditOp::SetCellFormat { summary: String::new(),
            block: 1,
            expect_prefix: "上".into(),
            row: 1,
            cell: 1,
            paragraph: None,
            character: Some(CharFormat { size_half_pt: Some(28), ..Default::default() }),
            style: None,
        }],
    )
    .unwrap();
    assert_eq!(out2.matches(r#"<w:sz w:val="28"/>"#).count(), 2, "14pt → sz=28 半磅");
    // 两个都 None → 空格式操作（与 set_format 同家族，文案点名 set_cell_format）
    let err = val_msg(ae(
        &xml,
        &Stylesheet::empty(),
        &[EditOp::SetCellFormat { summary: String::new(),
            block: 1,
            expect_prefix: "上".into(),
            row: 1,
            cell: 1,
            paragraph: None,
            character: None,
            style: None,
        }],
    ).unwrap_err());
    assert!(err.starts_with("空格式操作"), "实际: {err}");
    assert!(err.contains("set_cell_format"), "实际: {err}");
    // 越界家族
    let err = val_msg(ae(
        &xml,
        &Stylesheet::empty(),
        &[EditOp::SetCellFormat { summary: String::new(),
            block: 1,
            expect_prefix: "上".into(),
            row: 1,
            cell: 9,
            paragraph: Some(ParaFormat { align: Some("center".into()), ..Default::default() }),
            character: None,
            style: None,
        }],
    ).unwrap_err());
    assert!(err.starts_with("单元格越界"), "实际: {err}");
}

/// 纵并 3 行：r1 restart、r2/r3 continue；内容留原格。
fn vmerged_doc() -> String {
    let head = r#"<w:tc><w:tcPr><w:tcW w:w="4500" w:type="dxa"/></w:tcPr><w:p><w:r><w:t>头</w:t></w:r></w:p></w:tc>"#;
    let cont = r#"<w:tc><w:tcPr><w:tcW w:w="4500" w:type="dxa"/><w:vMerge/></w:tcPr><w:p><w:r><w:t>藏一</w:t></w:r></w:p></w:tc>"#;
    let cont2 = r#"<w:tc><w:tcPr><w:tcW w:w="4500" w:type="dxa"/><w:vMerge/></w:tcPr><w:p><w:r><w:t>藏二</w:t></w:r></w:p></w:tc>"#;
    wrap(&format!(
        r#"<w:tbl><w:tblPr/><w:tblGrid><w:gridCol w:w="4500"/><w:gridCol w:w="4500"/></w:tblGrid><w:tr>{}{}</w:tr><w:tr>{}{}</w:tr><w:tr>{}{}</w:tr></w:tbl>"#,
        head,
        cell_xml("右上"),
        cont,
        cell_xml("右中"),
        cont2,
        cell_xml("右下"),
    ))
}

#[test]
fn merge_vertical_sets_restart_continue_keeps_content() {
    let xml = vmerged_doc();
    let (out, applied) = ae(
        &xml,
        &Stylesheet::empty(),
        &[EditOp::MergeCells {
            block: 1,
            expect_prefix: "头".into(),
            direction: Some(MergeDirection::Vertical),
            row: 1,
            cell: 1,
            span: Some(3),
            end_row: None,
            end_cell: None,
        }],
    )
    .unwrap();
    assert_eq!(applied[0].op, "merge_cells");
    let m = model_of(&out);
    let Block::Table(t) = &m.body[0] else { panic!() };
    assert_eq!(t.rows[0].cells[0].v_merge.as_deref(), Some("restart".as_bytes()));
    assert_eq!(t.rows[1].cells[0].v_merge.as_deref(), Some("continue".as_bytes()));
    assert_eq!(t.rows[2].cells[0].v_merge.as_deref(), Some("continue".as_bytes()));
    // 内容留原格（拆分即恢复）：藏一/藏二 仍在 XML
    assert!(out.contains("藏一") && out.contains("藏二"), "纵并内容保留");
    // 右列不中枪
    assert_eq!(t.rows[1].cells[1].v_merge, None);
}

#[test]
fn merge_vertical_misaligned_rejected() {
    // 第 2 行首格跨 2 列 → [0,1) 网格区间无整格对齐
    let span_row = r#"<w:tr><w:tc><w:tcPr><w:gridSpan w:val="2"/></w:tcPr><w:p><w:r><w:t>整行</w:t></w:r></w:p></w:tc></w:tr>"#.to_string();
    let xml = wrap(&format!(
        r#"<w:tbl><w:tblPr/><w:tblGrid><w:gridCol w:w="4500"/><w:gridCol w:w="4500"/></w:tblGrid>{}{}</w:tbl>"#,
        row_xml("甲", "乙"),
        span_row
    ));
    let err = val_msg(ae(
        &xml,
        &Stylesheet::empty(),
        &[EditOp::MergeCells {
            block: 1,
            expect_prefix: "甲".into(),
            direction: Some(MergeDirection::Vertical),
            row: 1,
            cell: 1,
            span: Some(2),
            end_row: None,
            end_cell: None,
        }],
    ).unwrap_err());
    assert!(err.starts_with("合并结构冲突"), "实际: {err}");
    assert!(err.contains("对齐"), "应解释网格对齐: {err}");
}

#[test]
fn merge_horizontal_concatenates_and_sums_span() {
    let xml = two_row_table_doc();
    let (out, applied) = ae(
        &xml,
        &Stylesheet::empty(),
        &[EditOp::MergeCells {
            block: 1,
            expect_prefix: "甲一".into(),
            direction: Some(MergeDirection::Horizontal),
            row: 1,
            cell: 1,
            span: Some(2),
            end_row: None,
            end_cell: None,
        }],
    )
    .unwrap();
    assert_eq!(applied[0].op, "merge_cells");
    let m = model_of(&out);
    let Block::Table(t) = &m.body[0] else { panic!() };
    assert_eq!(t.rows[0].cells.len(), 1, "两格并一格");
    assert_eq!(t.rows[0].cells[0].grid_span, Some(2), "gridSpan 求和");
    let mut text = String::new();
    bt(&t.rows[0].cells[0].blocks, &mut text);
    let joined: String = text.split('\n').collect::<Vec<_>>().join("");
    assert!(joined.contains("甲一") && joined.contains("乙一"), "内容按序拼接: {joined}");
    // 第二行不中枪
    assert_eq!(t.rows[1].cells.len(), 2);
}

#[test]
fn split_vertical_restores_whole_chain() {
    let xml = vmerged_doc();
    // 先纵并整链（r1 头 + 2 续），再拆 → vMerge 全部消失、内容恢复独立
    let (merged, _) = ae(
        &xml,
        &Stylesheet::empty(),
        &[EditOp::MergeCells {
            block: 1,
            expect_prefix: "头".into(),
            direction: Some(MergeDirection::Vertical),
            row: 1,
            cell: 1,
            span: Some(3),
            end_row: None,
            end_cell: None,
        }],
    )
    .unwrap();
    let (split, applied) = ae(
        &merged,
        &Stylesheet::empty(),
        &[EditOp::SplitCell {
            block: 1,
            expect_prefix: "头".into(),
            direction: MergeDirection::Vertical,
            row: 1,
            cell: 1,
        }],
    )
    .unwrap();
    assert_eq!(applied[0].op, "split_cell");
    assert!(!split.contains("vMerge"), "vMerge 全链摘除: {split}");
    // 与原始模型等价（格数/文本）——纵并拆分 = 语义还原
    let (mo, ms) = (model_of(&xml), model_of(&split));
    let mut a = String::new();
    let mut b = String::new();
    bt(&mo.body, &mut a);
    bt(&ms.body, &mut b);
    assert_eq!(a, b, "拆分后文本投影与原doc一致");
}

#[test]
fn split_horizontal_restores_unit_cells() {
    let xml = two_row_table_doc();
    let (merged, _) = ae(
        &xml,
        &Stylesheet::empty(),
        &[EditOp::MergeCells {
            block: 1,
            expect_prefix: "甲一".into(),
            direction: Some(MergeDirection::Horizontal),
            row: 1,
            cell: 1,
            span: Some(2),
            end_row: None,
            end_cell: None,
        }],
    )
    .unwrap();
    let (split, applied) = ae(
        &merged,
        &Stylesheet::empty(),
        &[EditOp::SplitCell {
            block: 1,
            expect_prefix: "甲一".into(),
            direction: MergeDirection::Horizontal,
            row: 1,
            cell: 1,
        }],
    )
    .unwrap();
    assert_eq!(applied[0].op, "split_cell");
    let m = model_of(&split);
    let Block::Table(t) = &m.body[0] else { panic!() };
    assert_eq!(t.rows[0].cells.len(), 2, "拆回 2 格");
    assert_eq!(t.rows[0].cells[0].grid_span, None, "首格回单格");
    assert_eq!(t.rows[0].cells[1].grid_span, None, "补格单格");
    // 内容留首格、补格空段（继承首段格式模板；空 ppr 展开为成对标签）
    assert!(split.contains("甲一") && split.contains("乙一"), "内容留首格");
    assert!(split.contains("<w:p></w:p>"), "补格空段: {split}");
    // 补格结构：同开标签 + 空 tcPr 之外无 gridSpan
    let new_cells = split.split("<w:tr>").nth(1).unwrap().split("</w:tr>").next().unwrap();
    assert_eq!(new_cells.matches("<w:tc>").count(), 2);
}

#[test]
fn merge_split_error_families() {
    let xml = vmerged_doc();
    // span < 2
    let err = val_msg(ae(
        &xml,
        &Stylesheet::empty(),
        &[EditOp::MergeCells {
            block: 1,
            expect_prefix: "头".into(),
            direction: Some(MergeDirection::Vertical),
            row: 1,
            cell: 1,
            span: Some(1),
            end_row: None,
            end_cell: None,
        }],
    ).unwrap_err());
    assert!(err.starts_with("合并跨度无效"), "实际: {err}");
    // 缺省 span=2 合法
    assert!(ae(
        &xml,
        &Stylesheet::empty(),
        &[EditOp::MergeCells {
            block: 1,
            expect_prefix: "头".into(),
            direction: Some(MergeDirection::Vertical),
            row: 1,
            cell: 1,
            span: None,
            end_row: None,
            end_cell: None,
        }],
    ).is_ok());
    // 纵并 onto 续格 → 指路合并头
    let err = val_msg(ae(
        &xml,
        &Stylesheet::empty(),
        &[EditOp::MergeCells {
            block: 1,
            expect_prefix: "头".into(),
            direction: Some(MergeDirection::Vertical),
            row: 2,
            cell: 1,
            span: Some(2),
            end_row: None,
            end_cell: None,
        }],
    ).unwrap_err());
    assert!(err.starts_with("纵向合并续格"), "实际: {err}");
    // split vertical 指到续格 → 专属家族 + 指路合并头（比泛化的非合并格更可行动）
    let err = val_msg(ae(
        &xml,
        &Stylesheet::empty(),
        &[EditOp::SplitCell {
            block: 1,
            expect_prefix: "头".into(),
            direction: MergeDirection::Vertical,
            row: 2,
            cell: 1,
        }],
    ).unwrap_err());
    assert!(err.starts_with("纵向合并续格"), "实际: {err}");
    assert!(err.contains("合并头"), "应指路合并头: {err}");
    // split horizontal 单格 → 非合并格
    let err = val_msg(ae(
        &xml,
        &Stylesheet::empty(),
        &[EditOp::SplitCell {
            block: 1,
            expect_prefix: "头".into(),
            direction: MergeDirection::Horizontal,
            row: 1,
            cell: 2,
        }],
    ).unwrap_err());
    assert!(err.starts_with("非合并格"), "实际: {err}");
    // 行越界
    let err = val_msg(ae(
        &xml,
        &Stylesheet::empty(),
        &[EditOp::MergeCells {
            block: 1,
            expect_prefix: "头".into(),
            direction: Some(MergeDirection::Vertical),
            row: 9,
            cell: 1,
            span: Some(2),
            end_row: None,
            end_cell: None,
        }],
    ).unwrap_err());
    // 行越界归并进跨度家族（首行前缀稳定 + 报行数事实）
    assert!(err.starts_with("合并跨度无效"), "实际: {err}");
    assert!(err.contains("越界"), "实际: {err}");
}

#[test]
fn merge_split_exclusive_per_batch() {
    let xml = two_row_table_doc();
    // merge 同批挂 set_cell_text → 拒（结构重构独占）
    let err = val_msg(ae(
        &xml,
        &Stylesheet::empty(),
        &[
            EditOp::SetCellText { block: 1, expect_prefix: "甲一".into(), row: 1, cell: 1, text: "x".into() },
            EditOp::MergeCells {
                block: 1,
                expect_prefix: "甲一".into(),
                direction: Some(MergeDirection::Horizontal),
                row: 1,
                cell: 1,
                span: Some(2),
                end_row: None,
                end_cell: None,
            },
        ],
    ).unwrap_err());
    assert!(err.starts_with("同一块多操作"), "实际: {err}");
    assert!(err.contains("独占"), "应解释独占: {err}");
    // 反序：merge 在前，后挂表格操作 → 拒
    let err = val_msg(ae(
        &xml,
        &Stylesheet::empty(),
        &[
            EditOp::MergeCells {
                block: 1,
                expect_prefix: "甲一".into(),
                direction: Some(MergeDirection::Horizontal),
                row: 1,
                cell: 1,
                span: Some(2),
                end_row: None,
                end_cell: None,
            },
            EditOp::SetCellText { block: 1, expect_prefix: "甲一".into(), row: 1, cell: 1, text: "x".into() },
        ],
    ).unwrap_err());
    assert!(err.starts_with("同一块多操作"), "实际: {err}");
    assert!(err.contains("重新 inspect_docx"), "应指路重寻址: {err}");
}

#[test]
fn table_format_ops_compose_in_one_batch() {
    // 同块：set_table_element（表级）+ set_cell_format + set_cell_text 按序组合
    let xml = two_row_table_doc();
    let (out, applied) = ae(
        &xml,
        &Stylesheet::empty(),
        &[
            EditOp::SetTableElement {
                block: 1,
                expect_prefix: "甲一".into(),
                level: TableLevel::Table,
                row: None,
                cell: None,
                element: "shd".into(),
                xml: Some(SHD_FRAG.into()),
            },
            EditOp::SetCellFormat { summary: String::new(),
                block: 1,
                expect_prefix: "甲一".into(),
                row: 1,
                cell: 1,
                paragraph: None,
                character: Some(CharFormat { bold: Some(true), ..Default::default() }),
                style: None,
            },
            EditOp::SetCellText { block: 1, expect_prefix: "甲一".into(), row: 2, cell: 2, text: "新乙二".into() },
        ],
    )
    .unwrap();
    assert_eq!(applied.len(), 3, "三操作同批生效");
    assert!(out.contains(SHD_FRAG), "表级 shd");
    assert!(out.contains("<w:b/>"), "格级加粗");
    assert!(out.contains("新乙二"), "改格文本");
    // 产物再解析健康（apply_edits 内部已有模型级 diff 校验，这里再锁块数）
    let m = model_of(&out);
    assert_eq!(m.body.len(), 1);
}

// ---- S3 七波·删行 + 批组合放宽（生产反馈 P0/P2）----

/// 纵并表（显式 restart 头）：r1c1 头、r2c1 续、r2c2 普通——删守卫用。
fn vchain_doc() -> String {
    let head = r#"<w:tc><w:tcPr><w:tcW w:w="4500" w:type="dxa"/><w:vMerge w:val="restart"/></w:tcPr><w:p><w:r><w:t>头</w:t></w:r></w:p></w:tc>"#;
    let cont = r#"<w:tc><w:tcPr><w:tcW w:w="4500" w:type="dxa"/><w:vMerge/></w:tcPr><w:p><w:r><w:t>藏一</w:t></w:r></w:p></w:tc>"#;
    wrap(&tbl_of(&[
        format!("<w:tr>{}{}</w:tr>", head, cell_xml("右上")),
        format!("<w:tr>{}{}</w:tr>", cont, cell_xml("右中")),
        row_xml("甲三", "乙三"),
    ]))
}

#[test]
fn delete_table_row_removes_row_keeps_rest() {
    let xml = wrap(&tbl_of(&[row_xml("甲一", "乙一"), row_xml("甲二", "乙二"), row_xml("甲三", "乙三")]));
    let (out, applied) = ae(
        &xml,
        &Stylesheet::empty(),
        &[EditOp::DeleteTableRow { block: 1, expect_prefix: "甲一".into(), row: 2 }],
    )
    .unwrap();
    assert_eq!(applied.len(), 1);
    assert_eq!(applied[0].op, "delete_table_row");
    assert!(applied[0].after.contains("剩 2 行"), "摘要带剩余行数: {}", applied[0].after);
    assert!(!out.contains("甲二"), "目标行内容应删除");
    assert!(out.contains("甲一") && out.contains("甲三"), "其余行不中枪");
    // 块数不变（表仍是 1 块）、行数 3→2、tblGrid 原样
    let m = model_of(&out);
    assert_eq!(m.body.len(), 1);
    let Block::Table(t) = &m.body[0] else { panic!() };
    assert_eq!(t.rows.len(), 2);
    assert_eq!(out.matches("<w:gridCol").count(), 2, "tblGrid 不动");
}

#[test]
fn delete_table_row_guards() {
    // ① 末行保护：单行表删唯一行 → 拒、指路 delete_block
    let one = wrap(&tbl_of(&[row_xml("仅", "一")]));
    let err = val_msg(ae(
        &one,
        &Stylesheet::empty(),
        &[EditOp::DeleteTableRow { block: 1, expect_prefix: "仅".into(), row: 1 }],
    ).unwrap_err());
    assert!(err.starts_with("空表保护"), "实际: {err}");
    assert!(err.contains("delete_block"), "应指路整表删除: {err}");

    // ② 合并头行（下方有续格）→ 拒、指路 split_cell
    let err = val_msg(ae(
        &vchain_doc(),
        &Stylesheet::empty(),
        &[EditOp::DeleteTableRow { block: 1, expect_prefix: "头".into(), row: 1 }],
    ).unwrap_err());
    assert!(err.starts_with("合并结构冲突"), "实际: {err}");
    assert!(err.contains("split_cell"), "应指路先拆纵并: {err}");

    // ③ 纯续格行可删（头在上方，链条缩短仍合法）
    let (out, applied) = ae(
        &vchain_doc(),
        &Stylesheet::empty(),
        &[EditOp::DeleteTableRow { block: 1, expect_prefix: "头".into(), row: 2 }],
    )
    .unwrap();
    assert_eq!(applied.len(), 1);
    let m = model_of(&out);
    let Block::Table(t) = &m.body[0] else { panic!() };
    assert_eq!(t.rows.len(), 2, "删续格行后剩 2 行");
    assert_eq!(t.rows[0].cells[0].v_merge.as_deref(), Some("restart".as_bytes()), "头保留");
    assert!(!out.contains("藏一"), "续格内容随行删除");

    // ④ 独占一批：同批挂 set_cell_text → 拒
    let err = val_msg(ae(
        &two_row_table_doc(),
        &Stylesheet::empty(),
        &[
            EditOp::SetCellText { block: 1, expect_prefix: "甲一".into(), row: 1, cell: 1, text: "x".into() },
            EditOp::DeleteTableRow { block: 1, expect_prefix: "甲一".into(), row: 2 },
        ],
    ).unwrap_err());
    assert!(err.starts_with("同一块多操作"), "实际: {err}");
    assert!(err.contains("delete_table_row"), "应点名结构重构家族: {err}");

    // ⑤ 行号越界
    let err = val_msg(ae(
        &two_row_table_doc(),
        &Stylesheet::empty(),
        &[EditOp::DeleteTableRow { block: 1, expect_prefix: "甲一".into(), row: 5 }],
    ).unwrap_err());
    assert!(err.starts_with("行号越界"), "实际: {err}");
}

#[test]
fn set_table_element_same_cell_different_elements_compose() {
    // 同格不同 element 一批组合（vAlign + tcBorders）——生产反馈「拆两批」修正
    let xml = two_row_table_doc();
    let borders = r#"<w:tcBorders><w:top w:val="single" w:sz="4" w:color="auto"/></w:tcBorders>"#;
    let (out, applied) = ae(
        &xml,
        &Stylesheet::empty(),
        &[
            EditOp::SetTableElement {
                block: 1,
                expect_prefix: "甲一".into(),
                level: TableLevel::Cell,
                row: Some(1),
                cell: Some(1),
                element: "vAlign".into(),
                xml: Some(r#"<w:vAlign w:val="center"/>"#.into()),
            },
            EditOp::SetTableElement {
                block: 1,
                expect_prefix: "甲一".into(),
                level: TableLevel::Cell,
                row: Some(1),
                cell: Some(1),
                element: "tcBorders".into(),
                xml: Some(borders.into()),
            },
        ],
    )
    .unwrap();
    assert_eq!(applied.len(), 2);
    assert!(out.contains(r#"<w:vAlign w:val="center"/>"#), "vAlign 生效");
    assert!(out.contains("<w:tcBorders>"), "tcBorders 生效");
    // schema 序：tcBorders 应排在 vAlign 前（tcW → tcBorders → … → vAlign）
    let b = out.find("<w:tcBorders>").unwrap();
    let v = out.find(r#"<w:vAlign"#).unwrap();
    assert!(b < v, "schema 序 tcBorders < vAlign");
    // 邻格不中枪
    let m = model_of(&out);
    let Block::Table(t) = &m.body[0] else { panic!() };
    assert_eq!(t.rows[0].cells.len(), 2);
    assert_eq!(out.matches("<w:vAlign").count(), 1, "右格不中枪");

    // 同元素两条 → 拒「同一格多操作」
    let err = val_msg(ae(
        &xml,
        &Stylesheet::empty(),
        &[
            EditOp::SetTableElement {
                block: 1, expect_prefix: "甲一".into(), level: TableLevel::Cell,
                row: Some(1), cell: Some(1), element: "vAlign".into(),
                xml: Some(r#"<w:vAlign w:val="center"/>"#.into()),
            },
            EditOp::SetTableElement {
                block: 1, expect_prefix: "甲一".into(), level: TableLevel::Cell,
                row: Some(1), cell: Some(1), element: "vAlign".into(),
                xml: Some(r#"<w:vAlign w:val="bottom"/>"#.into()),
            },
        ],
    ).unwrap_err());
    assert!(err.starts_with("同一格多操作"), "实际: {err}");
    assert!(err.contains("vAlign"), "应点名冲突元素: {err}");

    // set_cell_text + set_table_element 同格（不同目标键）→ 合法组合
    let (out2, _) = ae(
        &xml,
        &Stylesheet::empty(),
        &[
            EditOp::SetCellText { block: 1, expect_prefix: "甲一".into(), row: 1, cell: 1, text: "新甲一".into() },
            EditOp::SetTableElement {
                block: 1, expect_prefix: "甲一".into(), level: TableLevel::Cell,
                row: Some(1), cell: Some(1), element: "vAlign".into(),
                xml: Some(r#"<w:vAlign w:val="center"/>"#.into()),
            },
        ],
    )
    .unwrap();
    assert!(out2.contains("新甲一") && out2.contains(r#"<w:vAlign w:val="center"/>"#));

    // set_cell_text 同格两条仍拒（重写语义）
    let err = val_msg(ae(
        &xml,
        &Stylesheet::empty(),
        &[
            EditOp::SetCellText { block: 1, expect_prefix: "甲一".into(), row: 1, cell: 1, text: "a".into() },
            EditOp::SetCellText { block: 1, expect_prefix: "甲一".into(), row: 1, cell: 1, text: "b".into() },
        ],
    ).unwrap_err());
    assert!(err.starts_with("同一格多操作"), "实际: {err}");
}

#[test]
fn insert_paragraph_after_same_anchor_chains_in_order() {
    let xml = wrap(r#"<w:p><w:r><w:t>锚</w:t></w:r></w:p>"#);
    let (out, applied) = ae(
        &xml,
        &Stylesheet::empty(),
        &[
            EditOp::InsertParagraphAfter { block: 1, expect_prefix: "锚".into(), text: "一".into(), style: None },
            EditOp::InsertParagraphAfter { block: 1, expect_prefix: "锚".into(), text: "二".into(), style: None },
            EditOp::InsertParagraphAfter { block: 1, expect_prefix: "锚".into(), text: "三".into(), style: None },
        ],
    )
    .unwrap();
    assert_eq!(applied.len(), 3, "逐操作摘要");
    assert_eq!(applied[0].op, "insert_paragraph_after");
    // 块数守恒：1 锚 + 3 新段
    let m = model_of(&out);
    assert_eq!(m.body.len(), 4);
    // 链序 = 输入序：锚 → 一 → 二 → 三
    let p0 = out.find("锚</w:t>").unwrap();
    let p1 = out.find("一</w:t>").unwrap();
    let p2 = out.find("二</w:t>").unwrap();
    let p3 = out.find("三</w:t>").unwrap();
    assert!(p0 < p1 && p1 < p2 && p2 < p3, "链序应为锚→一→二→三");

    // 异块组合仍合法：块 1 链式插 2 段 + 块 2 改文本，一批
    let xml2 = wrap(r#"<w:p><w:r><w:t>锚</w:t></w:r></w:p><w:p><w:r><w:t>他段</w:t></w:r></w:p>"#);
    let (out2, applied2) = ae(
        &xml2,
        &Stylesheet::empty(),
        &[
            EditOp::InsertParagraphAfter { block: 1, expect_prefix: "锚".into(), text: "甲".into(), style: None },
            EditOp::InsertParagraphAfter { block: 1, expect_prefix: "锚".into(), text: "乙".into(), style: None },
            EditOp::ReplaceText { block: 2, expect_prefix: "他段".into(), new_text: "改段".into() },
        ],
    )
    .unwrap();
    assert_eq!(applied2.len(), 3);
    assert!(out2.contains("改段"));
    let m2 = model_of(&out2);
    assert_eq!(m2.body.len(), 4);

    // 同锚混其他段落操作仍拒（链式例外只对 insert_paragraph_after 开放）
    let err = val_msg(ae(
        &xml,
        &Stylesheet::empty(),
        &[
            EditOp::InsertParagraphAfter { block: 1, expect_prefix: "锚".into(), text: "一".into(), style: None },
            EditOp::ReplaceText { block: 1, expect_prefix: "锚".into(), new_text: "改".into() },
        ],
    ).unwrap_err());
    assert!(err.starts_with("同一块多操作"), "实际: {err}");
    // 反序：replace 在前，insert 在后 → 同样拒
    let err = val_msg(ae(
        &xml,
        &Stylesheet::empty(),
        &[
            EditOp::ReplaceText { block: 1, expect_prefix: "锚".into(), new_text: "改".into() },
            EditOp::InsertParagraphAfter { block: 1, expect_prefix: "锚".into(), text: "一".into(), style: None },
        ],
    ).unwrap_err());
    assert!(err.starts_with("同一块多操作"), "实际: {err}");
}