use docx_engine::docx_pkg::{
    build_drawing_paragraph, build_toc_paragraph, extent_for_width, native_target_cx, next_docpr_id,
    plan_package_additions, probe_image, repack_package, upsert_update_fields, ImagePayload, MAX_IMAGE_BYTES,
};
use docx_engine::docx_write::image_extent;
use std::io::{Cursor, Read};
use docx_engine::xml_dom::{self, Element, Node};
use std::io::Write;

fn zip_of(parts: &[(&str, &[u8])]) -> Vec<u8> {
    let mut w = zip::ZipWriter::new(std::io::Cursor::new(Vec::new()));
    for (name, content) in parts {
        w.start_file(*name, zip::write::SimpleFileOptions::default()).unwrap();
        w.write_all(content).unwrap();
    }
    w.finish().unwrap().into_inner()
}

const RELS_R1_R5: &str = r#"<?xml version="1.0" encoding="UTF-8" standalone="yes"?><Relationships xmlns="http://schemas.openxmlformats.org/package/2006/relationships"><Relationship Id="rId1" Type="http://schemas.openxmlformats.org/officeDocument/2006/relationships/styles" Target="styles.xml"/><Relationship Id="rId5" Type="http://schemas.openxmlformats.org/officeDocument/2006/relationships/settings" Target="settings.xml"/></Relationships>"#;

fn fixture_doc(rels: Option<&str>, settings: Option<&str>, media: &[(&str, &[u8])]) -> Vec<u8> {
    let mut parts: Vec<(&str, &[u8])> = vec![
        ("[Content_Types].xml", br#"<Types xmlns="http://schemas.openxmlformats.org/package/2006/content-types"><Default Extension="rels" ContentType="application/vnd.openxmlformats-package.relationships+xml"/><Default Extension="xml" ContentType="application/xml"/></Types>"#),
        ("word/document.xml", br#"<w:document xmlns:w="w"><w:body><w:p/></w:body></w:document>"#),
    ];
    if let Some(r) = rels {
        parts.push(("word/_rels/document.xml.rels", r.as_bytes()));
    }
    if let Some(st) = settings {
        parts.push(("word/settings.xml", st.as_bytes()));
    }
    for (n, c) in media {
        parts.push((n, c));
    }
    zip_of(&parts)
}

fn find<'a>(el: &'a Element, name: &str) -> Option<&'a Element> {
    for c in &el.children {
        if let Node::Element(e) = c {
            if e.name == name.as_bytes() {
                return Some(e);
            }
            if let Some(hit) = find(e, name) {
                return Some(hit);
            }
        }
    }
    None
}

fn attr<'a>(e: &'a Element, k: &str) -> Option<&'a str> {
    e.attr_str(k).map(|v| std::str::from_utf8(v).unwrap())
}

fn val_msg(e: docx_engine::error::DocError) -> String {
    let s = e.to_string();
    s.strip_prefix("参数校验失败: ").unwrap_or(&s).to_string()
}

#[test]
fn settings_upsert_insertion_points() {
    let s_a = r#"<w:settings xmlns:w="w"><w:zoom w:percent="100"/><w:compat><w:compatSetting w:name="a"/></w:compat><w:rsids><w:rsid w:val="001"/></w:rsids></w:settings>"#;
    let out = String::from_utf8(upsert_update_fields(s_a.as_bytes()).unwrap().unwrap()).unwrap();
    let at = out.find(r#"<w:updateFields w:val="true"/>"#).unwrap();
    let compat = out.find("<w:compat>").unwrap();
    assert!(at < compat, "应插在 compat 之前");
    assert!(out.ends_with("</w:settings>"));
    let s_b = r#"<w:settings xmlns:w="w"><w:zoom w:percent="100"/></w:settings>"#;
    let out = String::from_utf8(upsert_update_fields(s_b.as_bytes()).unwrap().unwrap()).unwrap();
    assert!(out.contains(r#"<w:zoom w:percent="100"/><w:updateFields w:val="true"/></w:settings>"#));
    let s_c = r#"<w:settings xmlns:w="w"><w:updateFields w:val="true"/><w:compat/></w:settings>"#;
    assert!(upsert_update_fields(s_c.as_bytes()).unwrap().is_none());
    let s_d = r#"<w:settings xmlns:w="w"><w:rsids><w:rsid w:val="1"/></w:rsids></w:settings>"#;
    let out = String::from_utf8(upsert_update_fields(s_d.as_bytes()).unwrap().unwrap()).unwrap();
    assert!(out.contains(r#"<w:updateFields w:val="true"/><w:rsids>"#));
    let e = val_msg(upsert_update_fields(b"<w:settings xmlns:w=\"w\">").unwrap_err());
    assert!(e.starts_with("TOC 插入无效:"), "实际: {e}");
}

#[test]
fn drawing_paragraph_parses_with_embed_and_extent() {
    let xml = build_drawing_paragraph("rId9", 952500, 476250, 3, "图片 3");
    let dom = xml_dom::parse(&xml).unwrap();
    assert_eq!(dom.name, b"w:p".to_vec());
    let doc_pr = find(&dom, "wp:docPr").expect("wp:docPr");
    assert_eq!(attr(doc_pr, "id"), Some("3"));
    assert_eq!(attr(doc_pr, "name"), Some("图片 3"));
    let blip = find(&dom, "a:blip").expect("a:blip");
    assert_eq!(attr(blip, "r:embed"), Some("rId9"));
    let extent = find(&dom, "wp:extent").expect("wp:extent");
    assert_eq!(attr(extent, "cx"), Some("952500"));
    assert_eq!(attr(extent, "cy"), Some("476250"));
}

#[test]
fn toc_paragraph_parses_and_instr_roundtrips() {
    let xml = build_toc_paragraph(3, true);
    let dom = xml_dom::parse(&xml).unwrap();
    assert_eq!(dom.name, b"w:p".to_vec());
    let fld = find(&dom, "w:fldSimple").expect("fldSimple");
    assert_eq!(attr(fld, "w:instr"), Some(r#" TOC \o "1-3" \h \z \u "#));
    assert!(String::from_utf8(fld.raw_text()).unwrap().contains("目录将在打开文档时自动生成"));
    let no_h = build_toc_paragraph(2, false);
    let dom2 = xml_dom::parse(&no_h).unwrap();
    let fld2 = find(&dom2, "w:fldSimple").unwrap();
    assert_eq!(attr(fld2, "w:instr"), Some(r#" TOC \o "1-2" \z \u "#));
    let clamped = build_toc_paragraph(99, true);
    let dom3 = xml_dom::parse(&clamped).unwrap();
    let fld3 = find(&dom3, "w:fldSimple").unwrap();
    assert!(attr(fld3, "w:instr").unwrap().contains(r#"\o "1-9""#));
}

#[test]
fn docpr_id_scans_max() {
    let xml = r#"<w:body><w:drawing><wp:docPr id="7" name="a"/><pic:pic><pic:cNvPr id="12" name="b"/></pic:pic></w:drawing></w:body>"#;
    assert_eq!(next_docpr_id(xml.as_bytes()), 13);
    assert_eq!(next_docpr_id(b"<w:body><w:p/></w:body>"), 1);
}


#[test]
fn allocations_skip_taken_ids_and_names() {
    let doc = fixture_doc(Some(RELS_R1_R5), None, &[("word/media/image2.png", b"x")]);
    let img = ImagePayload { bytes: b"PNGDATA".to_vec(), width_px: 4, height_px: 2, ext: "png" };
    let (allocs, add) = plan_package_additions(&doc, &[img.clone(), img], false).unwrap();
    assert_eq!(allocs[0].rid, "rId6");
    assert_eq!(allocs[0].media_name, "word/media/image3.png");
    assert_eq!(allocs[1].rid, "rId7");
    assert_eq!(allocs[1].media_name, "word/media/image4.png");
    assert_eq!(add.appends[0].1, b"PNGDATA".to_vec());
    let rels = add.replacements.iter().find(|(p, _)| p == "word/_rels/document.xml.rels").unwrap();
    let rels = String::from_utf8(rels.1.clone()).unwrap();
    assert!(rels.contains(r#"<Relationship Id="rId6" Type="http://schemas.openxmlformats.org/officeDocument/2006/relationships/image" Target="media/image3.png"/></Relationships>"#) || rels.contains("Target=\"media/image3.png\""));
    let ct = add.replacements.iter().find(|(p, _)| p == "[Content_Types].xml").unwrap();
    assert!(String::from_utf8(ct.1.clone()).unwrap().contains(r#"<Default Extension="png" ContentType="image/png"/>"#));
}




#[test]
fn extent_math_in_integers() {
    let cw = 8306u32;
    let content_cx = 8306u64 * 635;
    assert_eq!(native_target_cx(100, cw), 952_500);
    assert_eq!(native_target_cx(2000, cw), content_cx);
    assert_eq!(extent_for_width(952_500, 100, 50), (952_500, 476_250));
    assert_eq!(extent_for_width(1, 1000, 1), (1, 1));
}

#[test]
fn oversized_image_rejected() {
    let big = vec![0u8; MAX_IMAGE_BYTES + 1];
    let e = val_msg(docx_engine::docx_pkg::probe_image(big).unwrap_err());
    assert!(e.starts_with("图片无效:") && e.contains("超上限"), "{e}");
    let e = val_msg(docx_engine::docx_pkg::probe_image(b"not an image".to_vec()).unwrap_err());
    assert!(e.starts_with("图片无效:"), "{e}");
}

fn tiny_png(w: u32, h: u32) -> Vec<u8> {
    let img = image::RgbImage::from_pixel(w, h, image::Rgb([200u8, 30, 60]));
    let mut buf = Cursor::new(Vec::new());
    image::DynamicImage::ImageRgb8(img).write_to(&mut buf, image::ImageFormat::Png).expect("png 编码");
    buf.into_inner()
}

fn tiny_jpeg(w: u32, h: u32) -> Vec<u8> {
    let img = image::RgbImage::from_pixel(w, h, image::Rgb([30u8, 200, 60]));
    let mut buf = Cursor::new(Vec::new());
    image::DynamicImage::ImageRgb8(img).write_to(&mut buf, image::ImageFormat::Jpeg).expect("jpeg 编码");
    buf.into_inner()
}

fn png_payload(w: u32, h: u32) -> ImagePayload {
    ImagePayload { bytes: tiny_png(w, h), width_px: w, height_px: h, ext: "png" }
}

fn read_part(bytes: &[u8], name: &str) -> Vec<u8> {
    let mut a = zip::ZipArchive::new(Cursor::new(bytes)).unwrap();
    let mut buf = Vec::new();
    a.by_name(name).unwrap().read_to_end(&mut buf).unwrap();
    buf
}

fn part_exists(bytes: &[u8], name: &str) -> bool {
    let a = zip::ZipArchive::new(Cursor::new(bytes)).unwrap();
    let hit = a.file_names().any(|n| n == name);
    hit
}

fn replacement<'a>(reps: &'a [(String, Vec<u8>)], name: &str) -> Option<&'a str> {
    reps.iter().find(|(p, _)| p == name).map(|(_, v)| std::str::from_utf8(v).unwrap())
}

#[test]
fn probe_accepts_png_jpeg_rejects_other() {
    let p = probe_image(tiny_png(10, 4)).unwrap();
    assert_eq!((p.width_px, p.height_px, p.ext), (10, 4, "png"));
    let j = probe_image(tiny_jpeg(6, 3)).unwrap();
    assert_eq!((j.width_px, j.height_px, j.ext), (6, 3, "jpeg"));
    let e = val_msg(probe_image(b"not an image".to_vec()).unwrap_err());
    assert!(e.starts_with("图片无效:"), "实际: {e}");
    let mut big = tiny_png(1, 1);
    big.resize(MAX_IMAGE_BYTES + 1, 0x55);
    let e = val_msg(probe_image(big).unwrap_err());
    assert!(e.starts_with("图片无效:"), "实际: {e}");
    assert!(e.contains("超上限"));
}

#[test]
fn allocs_gap_scan_and_increment() {
    let doc = fixture_doc(
        Some(RELS_R1_R5),
        None,
        &[("word/media/image1.png", b"old1"), ("word/media/image3.png", b"old3")],
    );
    let (allocs, additions) = plan_package_additions(&doc, &[png_payload(2, 2), png_payload(2, 2)], false).unwrap();
    assert_eq!(allocs[0].rid, "rId6");
    assert_eq!(allocs[0].media_name, "word/media/image4.png");
    assert_eq!(allocs[1].rid, "rId7");
    assert_eq!(allocs[1].media_name, "word/media/image5.png");
    let rels_new = replacement(&additions.replacements, "word/_rels/document.xml.rels").unwrap();
    assert!(rels_new.contains(r#"Id="rId1" Type="http://schemas.openxmlformats.org/officeDocument/2006/relationships/styles" Target="styles.xml""#));
    assert!(rels_new.contains(r#"<Relationship Id="rId6" Type="http://schemas.openxmlformats.org/officeDocument/2006/relationships/image" Target="media/image4.png"/>"#));
    assert!(rels_new.contains(r#"<Relationship Id="rId7" Type="http://schemas.openxmlformats.org/officeDocument/2006/relationships/image" Target="media/image5.png"/>"#));
    let close = rels_new.rfind("</Relationships>").unwrap();
    assert!(rels_new[..close].contains(r#"Id="rId7""#));
    assert_eq!(additions.appends.len(), 2);
    assert_eq!(additions.appends[0].0, "word/media/image4.png");
}

#[test]
fn empty_plan_when_no_image_no_toc() {
    let (allocs, additions) = plan_package_additions(b"not a zip", &[], false).unwrap();
    assert!(allocs.is_empty());
    assert!(additions.replacements.is_empty());
    assert!(additions.appends.is_empty());
}

#[test]
fn rels_missing_rejected_for_images() {
    let doc = fixture_doc(None, None, &[]);
    let e = val_msg(plan_package_additions(&doc, &[png_payload(2, 2)], false).unwrap_err());
    assert!(e.starts_with("图片插入无效:"), "实际: {e}");
    assert!(e.contains("document.xml.rels"));
}

#[test]
fn content_types_default_idempotent() {
    let doc = fixture_doc(Some(RELS_R1_R5), None, &[]);
    let (_, additions) = plan_package_additions(&doc, &[png_payload(2, 2)], false).unwrap();
    let ct = replacement(&additions.replacements, "[Content_Types].xml").expect("无 png Default 时应补 CT");
    assert!(ct.contains(r#"<Default Extension="png" ContentType="image/png"/>"#));
    assert!(ct.ends_with("</Types>"));
    let repacked = repack_package(&doc, &additions.replacements, &additions.appends).unwrap();
    let (_, additions2) = plan_package_additions(&repacked, &[png_payload(2, 2)], false).unwrap();
    assert!(
        !additions2.replacements.iter().any(|(p, _)| p == "[Content_Types].xml"),
        "CT 已有 png Default 不应重写"
    );
    let jpeg = ImagePayload { bytes: tiny_jpeg(2, 2), width_px: 2, height_px: 2, ext: "jpeg" };
    let (_, additions3) = plan_package_additions(&repacked, &[jpeg], false).unwrap();
    let ct3 = replacement(&additions3.replacements, "[Content_Types].xml").expect("jpeg Default 缺失应补");
    assert!(ct3.contains(r#"<Default Extension="jpeg" ContentType="image/jpeg"/>"#));
}

#[test]
fn settings_missing_created_with_ct_override() {
    let doc = fixture_doc(Some(RELS_R1_R5), None, &[]);
    let (_, additions) = plan_package_additions(&doc, &[], true).unwrap();
    let settings = replacement(&additions.replacements, "word/settings.xml").expect("settings 缺失应新建");
    assert!(settings.contains(r#"<w:updateFields w:val="true"/>"#));
    let ct = replacement(&additions.replacements, "[Content_Types].xml").expect("settings 新建应补 CT Override");
    assert!(ct.contains(r#"<Override PartName="/word/settings.xml""#));
}

#[test]
fn settings_present_left_untouched_when_updatefields_exists() {
    let s = r#"<w:settings xmlns:w="w"><w:updateFields w:val="true"/><w:compat/></w:settings>"#;
    let doc = fixture_doc(Some(RELS_R1_R5), Some(s), &[]);
    let (_, additions) = plan_package_additions(&doc, &[], true).unwrap();
    assert!(
        !additions.replacements.iter().any(|(p, _)| p == "word/settings.xml"),
        "已有 updateFields 不应重写"
    );
}

#[test]
fn repack_rejects_missing_replacement_and_append_collision() {
    let doc = fixture_doc(Some(RELS_R1_R5), None, &[]);
    let e = repack_package(&doc, &[("word/nope.xml".into(), b"<x/>".to_vec())], &[]).unwrap_err();
    assert!(e.to_string().contains("重打包部件缺失"), "实际: {e:?}");
    let e = repack_package(&doc, &[], &[("word/document.xml".into(), b"<x/>".to_vec())]).unwrap_err();
    assert!(e.to_string().contains("追加件已存在"), "实际: {e:?}");
}

#[test]
fn repack_preserves_untouched_bytes() {
    let media1 = tiny_png(3, 3);
    let doc = fixture_doc(
        Some(RELS_R1_R5),
        Some("<w:settings xmlns:w=\"w\"><w:compat/></w:settings>"),
        &[("word/media/image1.png", &media1), ("word/styles.xml", b"<w:styles/>")],
    );
    let out = repack_package(
        &doc,
        &[
            ("word/document.xml".into(), b"<w:document/>".to_vec()),
            ("word/settings.xml".into(), b"<w:settings/>".to_vec()),
        ],
        &[("word/media/image2.png".into(), b"NEWBINARY".to_vec())],
    )
    .unwrap();
    assert_eq!(read_part(&out, "word/styles.xml"), b"<w:styles/>");
    assert_eq!(read_part(&out, "word/media/image1.png"), media1);
    assert_eq!(read_part(&out, "word/document.xml"), b"<w:document/>");
    assert_eq!(read_part(&out, "word/settings.xml"), b"<w:settings/>");
    assert_eq!(read_part(&out, "word/media/image2.png"), b"NEWBINARY");
}

#[test]
fn extent_math() {
    // A4 text area: 11906 - 1800 - 1800 = 8306 twips, 5,274,310 EMU; 1 mm is 36,000 EMU.
    let cw = 8306u32;
    let content_cx = 8306u64 * 635;
    assert_eq!(image_extent(100, 50, None, cw), (952_500, 476_250));
    let (cx, cy) = image_extent(2000, 1000, None, cw);
    assert_eq!((cx, cy), (content_cx, content_cx / 2));
    assert_eq!(image_extent(100, 50, Some(100 * 36_000), cw), (3_600_000, 1_800_000));
    let (cx, _) = image_extent(100, 50, Some(300 * 36_000), cw);
    assert_eq!(cx, content_cx);
}

#[test]
fn two_round_allocations_increment() {
    let doc = fixture_doc(Some(RELS_R1_R5), None, &[]);
    let img1 = png_payload(4, 4);
    let bytes1 = img1.bytes.clone();
    let (allocs1, add1) = plan_package_additions(&doc, &[img1], false).unwrap();
    let out1 = repack_package(&doc, &add1.replacements, &add1.appends).unwrap();
    assert_eq!(allocs1[0].media_name, "word/media/image1.png");
    assert_eq!(read_part(&out1, "word/media/image1.png"), bytes1);
    assert!(part_exists(&out1, "word/media/image1.png"));
    let img2 = png_payload(4, 4);
    let bytes2 = img2.bytes.clone();
    let (allocs2, add2) = plan_package_additions(&out1, &[img2], false).unwrap();
    assert_eq!(allocs2[0].rid, "rId7");
    assert_eq!(allocs2[0].media_name, "word/media/image2.png");
    let out2 = repack_package(&out1, &add2.replacements, &add2.appends).unwrap();
    assert_eq!(read_part(&out2, "word/media/image1.png"), bytes1, "第一张图字节不动");
    assert_eq!(read_part(&out2, "word/media/image2.png"), bytes2);
}

#[test]
fn oversize_message_rounds_ties_to_even() {
    // 10747904 bytes = 10.25 MB exactly: one decimal, ties to even
    let e = val_msg(probe_image(vec![0u8; 10747904]).unwrap_err());
    assert!(e.contains("10.2 MB"), "实际: {e}");
    // 10800000 bytes ≈ 10.30 MB
    let e = val_msg(probe_image(vec![0u8; 10800000]).unwrap_err());
    assert!(e.contains("10.3 MB"), "实际: {e}");
}
