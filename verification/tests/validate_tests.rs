use docx_engine::docx_model::{build_document, Block};
use docx_engine::docx_validate::{check_asserts, validate_body, AssertSpec, FailCause, ValidateReport, MAX_ASSERTS};
use docx_engine::styles::Stylesheet;
use docx_engine::xml_dom;

fn wrap(body: &str) -> String {
    format!(r#"<w:document xmlns:w="w" xmlns:r="r"><w:body>{body}</w:body></w:document>"#)
}

fn doc_with_table() -> Vec<Block> {
    let xml = wrap(
        r#"<w:p><w:pPr><w:pStyle w:val="2"/></w:pPr><w:r><w:t>标题段</w:t></w:r></w:p>\
               <w:p><w:r><w:t>正文</w:t></w:r></w:p>\
               <w:tbl>\
                 <w:tr><w:tc><w:tcPr><w:gridSpan w:val="2"/></w:tcPr><w:p><w:r><w:t>A</w:t></w:r></w:p></w:tc><w:tc><w:p><w:r><w:t>B</w:t></w:r></w:p></w:tc></w:tr>\
                 <w:tr><w:tc><w:p><w:r><w:t>C</w:t></w:r></w:p></w:tc><w:tc><w:p><w:r><w:t>D1</w:t></w:r></w:p></w:tc><w:tc><w:p><w:r><w:t>D2</w:t></w:r></w:p></w:tc></w:tr>\
               </w:tbl>"#,
    );
    build_document(&xml_dom::parse(xml.as_bytes()).unwrap()).body
}

fn report(body: &[Block], asserts: &[AssertSpec]) -> ValidateReport {
    check_asserts(asserts).unwrap();
    validate_body(body, &Stylesheet::empty(), asserts)
}

fn bc(equals: usize) -> AssertSpec {
    AssertSpec::BlockCount { equals }
}

#[test]
fn all_pass_reports_kinds_summary() {
    let body = doc_with_table();
    let r = report(
        &body,
        &[
            bc(3),
            AssertSpec::TableShape { block: 3, rows: Some(2), cols: Some(3), style: None },
            AssertSpec::CellText { block: 3, row: 2, cell: 3, equals: Some("D2".into()), contains: None, starts_with: None },
            AssertSpec::CellParagraphCount { block: 3, row: 1, cell: 1, equals: 1 },
            AssertSpec::BlockText { block: 2, equals: Some("正文".into()), contains: None, starts_with: None },
        ],
    );
    assert!(r.passed);
    assert_eq!(r.failed, 0);
    assert_eq!(r.total, 5);
    assert_eq!(r.passed_kinds, vec!["block_count", "table_shape", "cell_text", "cell_paragraph_count", "block_text"]);
    assert!(r.failures.is_empty());
}

#[test]
fn duplicate_kinds_aggregate_with_count() {
    let body = doc_with_table();
    let r = report(
        &body,
        &[
            AssertSpec::CellText { block: 3, row: 2, cell: 1, equals: Some("C".into()), contains: None, starts_with: None },
            AssertSpec::CellText { block: 3, row: 2, cell: 2, equals: Some("D1".into()), contains: None, starts_with: None },
        ],
    );
    assert!(r.passed);
    assert_eq!(r.passed_kinds, vec!["cell_text×2".to_string()]);
}

#[test]
fn block_count_mismatch_fails_with_actual() {
    let body = doc_with_table();
    let r = report(&body, &[bc(99)]);
    assert!(!r.passed);
    assert_eq!(r.failures[0].detail, "期望 99 块，实际 3 块");
}

#[test]
fn table_shape_on_paragraph_points_to_outline() {
    let body = doc_with_table();
    let r = report(&body, &[AssertSpec::TableShape { block: 1, rows: Some(2), cols: None, style: None }]);
    assert!(!r.passed);
    assert!(r.failures[0].detail.contains("是段落不是表格"));
}

#[test]
fn table_shape_rows_and_cols_mismatch() {
    let body = doc_with_table();
    let r = report(&body, &[AssertSpec::TableShape { block: 3, rows: Some(3), cols: Some(4), style: None }]);
    assert!(r.failures[0].detail.contains("期望 3 行，实际 2 行"));
    let r = report(&body, &[AssertSpec::TableShape { block: 3, rows: Some(2), cols: Some(4), style: None }]);
    assert!(r.failures[0].detail.contains("期望 4 列，实际 3 列"));
}

#[test]
fn block_text_on_table_points_to_cell_text() {
    let body = doc_with_table();
    let r = report(&body, &[AssertSpec::BlockText { block: 3, equals: Some("A".into()), contains: None, starts_with: None }]);
    assert!(r.failures[0].detail.contains("cell_text"));
}

#[test]
fn block_style_falls_back_to_raw_id_without_styles() {
    let body = doc_with_table();
    let r = report(&body, &[AssertSpec::BlockStyle { block: 1, equals: "2".into() }]);
    assert!(r.passed);
    let r = report(&body, &[AssertSpec::BlockStyle { block: 2, equals: "2".into() }]);
    assert!(r.failures[0].detail.contains("(无样式)"));
}

#[test]
fn block_address_out_of_range_is_failure_not_error() {
    let body = doc_with_table();
    let r = report(
        &body,
        &[bc(3), AssertSpec::CellText { block: 99, row: 1, cell: 1, equals: Some("x".into()), contains: None, starts_with: None }],
    );
    assert_eq!(r.failed, 1);
    assert!(r.failures[0].detail.contains("超出范围"));
    assert_eq!(r.passed_kinds, vec!["block_count".to_string()]);
}

#[test]
fn cell_address_out_of_range_reports_actual_extent() {
    let body = doc_with_table();
    let r = report(&body, &[AssertSpec::CellText { block: 3, row: 9, cell: 1, equals: Some("x".into()), contains: None, starts_with: None }]);
    assert!(r.failures[0].detail.contains("表共 2 行"));
    let r = report(&body, &[AssertSpec::CellText { block: 3, row: 2, cell: 9, equals: Some("x".into()), contains: None, starts_with: None }]);
    assert!(r.failures[0].detail.contains("r2 共 3 格"));
}

#[test]
fn continuation_cell_fails_with_merge_head_pointer() {
    let xml = wrap(
        r#"<w:tbl>\
                 <w:tr><w:tc><w:tcPr><w:vMerge w:val="restart"/></w:tcPr><w:p><w:r><w:t>头</w:t></w:r></w:p></w:tc></w:tr>\
                 <w:tr><w:tc><w:tcPr><w:vMerge/></w:tcPr><w:p/></w:tc></w:tr>\
               </w:tbl>"#,
    );
    let body = build_document(&xml_dom::parse(xml.as_bytes()).unwrap()).body;
    let r = report(&body, &[AssertSpec::CellText { block: 1, row: 2, cell: 1, equals: Some("".into()), contains: None, starts_with: None }]);
    assert!(r.failures[0].detail.contains("合并头"));
}

#[test]
fn multi_paragraph_cell_text_joins_with_newline() {
    let xml = wrap(r#"<w:tbl><w:tr><w:tc><w:p><w:r><w:t>甲</w:t></w:r></w:p><w:p><w:r><w:t>乙</w:t></w:r></w:p></w:tc></w:tr></w:tbl>"#);
    let body = build_document(&xml_dom::parse(xml.as_bytes()).unwrap()).body;
    let r = report(
        &body,
        &[
            AssertSpec::CellText { block: 1, row: 1, cell: 1, equals: Some("甲\n乙".into()), contains: None, starts_with: None },
            AssertSpec::CellParagraphCount { block: 1, row: 1, cell: 1, equals: 2 },
        ],
    );
    assert!(r.passed, "failures: {:?}", r.failures);
}

#[test]
fn matcher_zero_or_multiple_rejected_before_eval() {
    assert!(check_asserts(&[]).is_err());
    let zero = vec![AssertSpec::BlockText { block: 1, equals: None, contains: None, starts_with: None }];
    let err = check_asserts(&zero).unwrap_err().to_string();
    assert!(err.contains("断言无效"), "{err}");
    let both = vec![AssertSpec::CellText { block: 1, row: 1, cell: 1, equals: Some("a".into()), contains: Some("b".into()), starts_with: None }];
    assert!(check_asserts(&both).is_err());
}

#[test]
fn assert_cap_enforced() {
    let many: Vec<AssertSpec> = (0..MAX_ASSERTS + 1).map(|_| bc(1)).collect();
    let err = check_asserts(&many).unwrap_err().to_string();
    assert!(err.contains("断言数超限"), "{err}");
    let at_cap: Vec<AssertSpec> = (0..MAX_ASSERTS).map(|_| bc(1)).collect();
    assert!(check_asserts(&at_cap).is_ok());
}

#[test]
fn contains_and_starts_with_evaluate() {
    let body = doc_with_table();
    let r = report(&body, &[AssertSpec::BlockText { block: 1, equals: None, contains: Some("标题".into()), starts_with: None }]);
    assert!(r.passed);
    let r = report(&body, &[AssertSpec::BlockText { block: 2, equals: None, contains: None, starts_with: Some("正文余".into()) }]);
    assert!(!r.passed);
    assert!(r.failures[0].detail.contains("期望以"));
}

#[test]
fn failures_carry_kind_target_and_cause() {
    let body = doc_with_table();
    let r = report(
        &body,
        &[
            AssertSpec::TableShape { block: 0, rows: None, cols: None, style: None },
            AssertSpec::CellParagraphCount { block: 3, row: 1, cell: 1, equals: 5 },
            AssertSpec::TableShape { block: 3, rows: None, cols: None, style: Some("网格".into()) },
        ],
    );
    assert_eq!(r.failed, 3);
    assert_eq!(r.failures[0].kind, "table_shape");
    assert_eq!(r.failures[0].cause, FailCause::BlockOutOfRange);
    assert_eq!(r.failures[0].target, "块0");
    assert_eq!(r.failures[1].cause, FailCause::CountMismatch);
    assert_eq!(r.failures[1].target, "块3 r1c1");
    assert_eq!(r.failures[2].cause, FailCause::StyleMismatch);
    assert!(r.failures[2].detail.contains("无样式"));
    assert!(r.passed_kinds.is_empty());
}

#[test]
fn clipped_details_keep_sixty_characters() {
    let long = "字".repeat(70);
    let xml = wrap(&format!(r#"<w:p><w:r><w:t>{long}</w:t></w:r></w:p>"#));
    let body = build_document(&xml_dom::parse(xml.as_bytes()).unwrap()).body;
    let r = report(&body, &[AssertSpec::BlockText { block: 1, equals: Some("x".into()), contains: None, starts_with: None }]);
    let want = format!("期望等于「x」，实际「{}…」", "字".repeat(60));
    assert_eq!(r.failures[0].detail, want);
}
