use vstd::prelude::*;
use vstd::string::StringSliceAdditionalSpecFns;
use vstd::utf8::decode_utf8;
use std::io::Cursor;
use crate::bytes_util::{first_occ, lemma_first_occ, lemma_first_occ_range, push_bytes, push_str, str_bytes, slice_vec, contains, occurs, has_at, find_from, rfind, last_occurrence, bytes_eq, eq_str, starts_with, push_u64, parse_u32, spec_parse_u32, dec};
use crate::error::{DocError, DocResult, ErrorKind, bytes_to_string};
use crate::zip_io::{zip_entry_of, zip_open, zip_len, zip_name_is, zip_name_at, zip_writer_new, copy_entry, zip_write_file, zip_finish, archive_names, archive_source, writer_entries, distinct_names, entry_names};
use crate::xml_dom;

verus! {

/// Largest image accepted (10 MiB).
pub const MAX_IMAGE_BYTES: usize = 10485760;

/// An image ready to be inserted; its extension names the media part and
/// its content type.
#[derive(Debug, Clone)]
pub struct ImagePayload {
    pub bytes: Vec<u8>,
    pub width_px: u32,
    pub height_px: u32,
    /// `png` or `jpeg`.
    pub ext: &'static str,
}

/// The format the image decoder guesses from the signature of some bytes.
#[derive(Debug)]
pub enum ImageGuess {
    /// The bytes cannot be read (the message says why).
    Unreadable(Vec<u8>),
    Png,
    Jpeg,
    /// A format other than PNG and JPEG, or none.
    Other,
}

/// [`ImageGuess`] with its message as a byte sequence.
pub enum ImageGuessV {
    Unreadable(Seq<u8>),
    Png,
    Jpeg,
    Other,
}

pub open spec fn guess_view(g: ImageGuess) -> ImageGuessV {
    match g {
        ImageGuess::Unreadable(m) => ImageGuessV::Unreadable(m@),
        ImageGuess::Png => ImageGuessV::Png,
        ImageGuess::Jpeg => ImageGuessV::Jpeg,
        ImageGuess::Other => ImageGuessV::Other,
    }
}

pub open spec fn dims_view(d: Result<(u32, u32), Vec<u8>>) -> Result<(u32, u32), Seq<u8>> {
    match d {
        Ok(x) => Ok(x),
        Err(m) => Err(m@),
    }
}

/// `ImageReader::new` over a cursor, `with_guessed_format`, then `format`.
/// Nothing is claimed of the outcome: the `image` crate consults a
/// process-wide registry of detection hooks before the built-in signatures,
/// so the answer for given bytes is not fixed by the bytes alone.
#[verifier::external_body]
fn image_guess(bytes: &[u8]) -> (r: ImageGuess) {
    match image::ImageReader::new(Cursor::new(bytes)).with_guessed_format() {
        Err(e) => ImageGuess::Unreadable(format!("{e}").into_bytes()),
        Ok(r) => match r.format() {
            Some(image::ImageFormat::Png) => ImageGuess::Png,
            Some(image::ImageFormat::Jpeg) => ImageGuess::Jpeg,
            _ => ImageGuess::Other,
        },
    }
}

/// `ImageReader::new` over a cursor, `with_guessed_format`, then
/// `into_dimensions`. Nothing is claimed of the outcome, for the reason
/// given at [`image_guess`]: hooks registered at run time take part.
#[verifier::external_body]
fn image_dims(bytes: &[u8]) -> (r: Result<(u32, u32), Vec<u8>>) {
    let reader = image::ImageReader::new(Cursor::new(bytes)).with_guessed_format().map_err(|e| format!("{e}").into_bytes())?;
    reader.into_dimensions().map_err(|e| format!("{e}").into_bytes())
}

/// Whether a guess and dimensions give a payload: PNG or JPEG, both sides non-zero.
pub open spec fn probe_accepts(g: ImageGuessV, d: Result<(u32, u32), Seq<u8>>) -> bool {
    &&& (g is Png || g is Jpeg)
    &&& d matches Ok(x) && x.0 > 0 && x.1 > 0
}

/// The payload given the guess and dimensions (when accepted).
pub open spec fn payload_ok(bytes: Seq<u8>, g: ImageGuessV, d: Result<(u32, u32), Seq<u8>>, p: ImagePayload) -> bool {
    &&& p.bytes@ == bytes
    &&& d matches Ok(x) && p.width_px == x.0 && p.height_px == x.1
    &&& p.ext == (if g is Png { "png" } else { "jpeg" })
}

fn image_error(m: Vec<u8>) -> (e: DocError)
    ensures
        e.kind == ErrorKind::Validation,
{
    let mut msg = str_bytes("图片无效: ");
    push_bytes(&mut msg, m.as_slice());
    DocError::validation(msg)
}

/// The payload of image bytes given the format guessed and the dimensions
/// read: PNG or JPEG with non-zero sides; anything else is refused.
pub fn payload_of(bytes: Vec<u8>, guess: ImageGuess, dims: Result<(u32, u32), Vec<u8>>) -> (r: DocResult<ImagePayload>)
    ensures
        probe_accepts(guess_view(guess), dims_view(dims)) ==> (r matches Ok(p) && payload_ok(bytes@, guess_view(guess), dims_view(dims), p)),
        !probe_accepts(guess_view(guess), dims_view(dims)) ==> (r matches Err(e) && e.kind == ErrorKind::Validation),
{
    let ext = match guess {
        ImageGuess::Unreadable(m) => {
            let mut msg = str_bytes("无法识别图片格式（");
            push_bytes(&mut msg, m.as_slice());
            push_str(&mut msg, "）。仅支持 PNG / JPEG。");
            return Err(image_error(msg));
        },
        ImageGuess::Other => {
            return Err(image_error(str_bytes("不支持的图片格式（仅支持 PNG / JPEG）。怎么办：把图片另存为 PNG 或 JPEG 后重试。")));
        },
        ImageGuess::Png => "png",
        ImageGuess::Jpeg => "jpeg",
    };
    let (w, h) = match dims {
        Ok(x) => x,
        Err(m) => {
            let mut msg = str_bytes("图片数据解码失败（");
            push_bytes(&mut msg, m.as_slice());
            push_str(&mut msg, "）——文件可能已损坏。怎么办：用看图软件重新导出该图片。");
            return Err(image_error(msg));
        },
    };
    if w == 0 || h == 0 {
        return Err(image_error(str_bytes("图片宽或高为 0，不是可插入的图片。")));
    }
    Ok(ImagePayload { bytes, width_px: w, height_px: h, ext })
}

/// Checks image bytes: at most [`MAX_IMAGE_BYTES`], PNG or JPEG (by their
/// signature), non-zero sides.
pub fn probe_image(bytes: Vec<u8>) -> (r: DocResult<ImagePayload>)
    ensures
        bytes@.len() > MAX_IMAGE_BYTES ==> (r matches Err(e) && e.kind == ErrorKind::Validation),
        r matches Ok(p) ==> p.bytes@ == bytes@ && (p.ext == "png" || p.ext == "jpeg") && p.width_px > 0
            && p.height_px > 0,
        r matches Err(e) ==> e.kind == ErrorKind::Validation,
{
    if bytes.len() > MAX_IMAGE_BYTES {
        let mut m = str_bytes("图片 ");
        let num: u128 = (bytes.len() as u128) * 10;
        let q: u128 = num / 1048576;
        let rem: u128 = num % 1048576;
        let up = 2 * rem > 1048576 || (2 * rem == 1048576 && q % 2 == 1);
        let tenths: u64 = if up { (q + 1) as u64 } else { q as u64 };
        push_u64(&mut m, tenths / 10);
        push_str(&mut m, ".");
        push_u64(&mut m, tenths % 10);
        push_str(&mut m, " MB 超上限 10 MB。怎么办：先压缩或降分辨率再插入（内嵌大图会显著撑大文档）。");
        return Err(image_error(m));
    }
    let guess = image_guess(bytes.as_slice());
    let dims = match guess {
        ImageGuess::Png | ImageGuess::Jpeg => image_dims(bytes.as_slice()),
        _ => Err(Vec::new()),
    };
    payload_of(bytes, guess, dims)
}

/// The content type of an image extension.
pub open spec fn spec_content_type(ext: Seq<u8>) -> Seq<u8> {
    if ext == "png".spec_bytes() {
        "image/png".spec_bytes()
    } else if ext == "jpeg".spec_bytes() {
        "image/jpeg".spec_bytes()
    } else {
        "application/octet-stream".spec_bytes()
    }
}

pub fn content_type_of(ext: &str) -> (r: &'static str)
    ensures
        r.spec_bytes() == spec_content_type(ext.spec_bytes()),
{
    if eq_str(ext.as_bytes(), "png") {
        "image/png"
    } else if eq_str(ext.as_bytes(), "jpeg") {
        "image/jpeg"
    } else {
        "application/octet-stream"
    }
}

/// `xml` with `insertion` put before the last `close_tag`; without one it is
/// an internal error.
pub fn append_before_close(xml: &[u8], close_tag: &str, insertion: &[u8]) -> (r: DocResult<Vec<u8>>)
    ensures
        match r {
            Ok(v) => exists|p: int| last_occurrence(xml@, close_tag.spec_bytes(), Some(p as usize)) && 0 <= p <= xml@.len()
                && v@ == xml@.subrange(0, p) + insertion@ + xml@.subrange(p, xml@.len() as int),
            Err(e) => e.kind == ErrorKind::Internal && last_occurrence(xml@, close_tag.spec_bytes(), None),
        },
{
    match rfind(xml, close_tag.as_bytes()) {
        Some(pos) => {
            let mut out = slice_vec(xml, 0, pos);
            push_bytes(&mut out, insertion);
            let tail = slice_vec(xml, pos, xml.len());
            push_bytes(&mut out, tail.as_slice());
            assert(out@ =~= xml@.subrange(0, pos as int) + insertion@ + xml@.subrange(pos as int, xml@.len() as int));
            Ok(out)
        },
        None => {
            let mut m = str_bytes("包部件手术失败: 找不到 ");
            push_str(&mut m, close_tag);
            push_str(&mut m, "（内部 bug，未写盘）");
            Err(DocError::internal(m))
        },
    }
}

// ---------------------------------------------------------------------------
// settings.xml
// ---------------------------------------------------------------------------

/// A settings part that only asks fields to be updated on open.
pub const MINIMAL_SETTINGS_XML: &'static str = "<?xml version=\"1.0\" encoding=\"UTF-8\" standalone=\"yes\"?><w:settings xmlns:w=\"http://schemas.openxmlformats.org/wordprocessingml/2006/main\"><w:updateFields w:val=\"true\"/></w:settings>";

/// The elements that come after `updateFields` in a settings part.
pub open spec fn spec_settings_anchors() -> Seq<&'static str> {
    seq![
        "<w:hdrShapeDefaults", "<w:footnotePr", "<w:endnotePr", "<w:compat", "<w:docVars",
        "<w:rsids", "<m:mathPr", "<w:attachedSchema", "<w:themeFontLang", "<w:clrSchemeMapping",
        "<w:doNotIncludeSubdocsInStats", "<w:doNotAutoCompressPictures", "<w:forceUpgrade",
        "<w:smartTagType", "<w:shapeDefaults", "<w:decimalSymbol", "<w:listSeparator",
        "<w14:docId", "<w15:docId",
    ]
}

pub fn settings_anchors() -> (r: Vec<&'static str>)
    ensures
        r@ == spec_settings_anchors(),
{
    vec![
        "<w:hdrShapeDefaults", "<w:footnotePr", "<w:endnotePr", "<w:compat", "<w:docVars",
        "<w:rsids", "<m:mathPr", "<w:attachedSchema", "<w:themeFontLang", "<w:clrSchemeMapping",
        "<w:doNotIncludeSubdocsInStats", "<w:doNotAutoCompressPictures", "<w:forceUpgrade",
        "<w:smartTagType", "<w:shapeDefaults", "<w:decimalSymbol", "<w:listSeparator",
        "<w14:docId", "<w15:docId",
    ]
}

/// Whether an occurrence of `tag` at `p` opens an element: the next byte is
/// `>`, a space or `/`.
pub open spec fn opens_at(s: Seq<u8>, p: int, tag: Seq<u8>) -> bool {
    has_at(s, p, tag) && p + tag.len() < s.len() && (s[p + tag.len()] == 62 || s[p + tag.len()] == 32
        || s[p + tag.len()] == 47)
}

/// The first occurrence of `tag` from `from` on that opens an element,
/// skipping past each occurrence that does not.
pub open spec fn find_open_from(s: Seq<u8>, tag: Seq<u8>, from: int) -> Option<int>
    decreases s.len() + 1 - from,
{
    if from < 0 || from > s.len() || tag.len() == 0 {
        None
    } else {
        match first_occ(s, tag, from) {
            None => None,
            Some(q) => {
                proof {
                    lemma_first_occ_range(s, tag, from);
                }
                if opens_at(s, q, tag) {
                    Some(q)
                } else {
                    find_open_from(s, tag, q + tag.len())
                }
            },
        }
    }
}

/// The position of the first opening tag `tag` (`<w:compat` does not match
/// `<w:compatSetting`).
pub fn find_element_open(xml: &[u8], tag: &str) -> (r: Option<usize>)
    ensures
        match find_open_from(xml@, tag.spec_bytes(), 0) {
            Some(p) => r matches Some(x) && x as int == p,
            None => r is None,
        },
{
    let t = tag.as_bytes();
    if t.len() == 0 {
        return None;
    }
    let mut from: usize = 0;
    loop
        invariant
            from <= xml@.len(),
            t@ == tag.spec_bytes(),
            t@.len() > 0,
            find_open_from(xml@, t@, from as int) == find_open_from(xml@, t@, 0),
        decreases xml@.len() - from,
    {
        let f = find_from(xml, t, from);
        proof {
            lemma_first_occ(xml@, t@, from as int, f);
            lemma_first_occ_range(xml@, t@, from as int);
        }
        match f {
            None => {
                return None;
            },
            Some(pos) => {
                assert(has_at(xml@, pos as int, t@));
                let n = xml.len();
                let tl = t.len();
                assert(pos + tl <= n);
                let after = pos + tl;
                if after < xml.len() && (xml[after] == 62 || xml[after] == 32 || xml[after] == 47) {
                    return Some(pos);
                }
                if after >= xml.len() {
                    proof {
                        if after as int == xml@.len() {
                            assert(!has_at(xml@, after as int, t@));
                            assert(first_occ(xml@, t@, after as int + 1) is None);
                            assert(first_occ(xml@, t@, after as int) is None);
                            assert(find_open_from(xml@, t@, after as int) is None);
                            assert(!opens_at(xml@, pos as int, t@));
                        }
                    }
                    return None;
                }
                from = after;
            },
        }
    }
}

/// What setting `updateFields` does to a settings part: nothing when it is
/// already there (`None`); else it is inserted before the first later
/// element, or before the last `</w:settings>`; without either the part is
/// refused.
/// The earlier of two optional positions.
pub open spec fn earlier(a: Option<int>, b: Option<int>) -> Option<int> {
    match (a, b) {
        (Some(q), Some(p)) => Some(if p < q { p } else { q }),
        (None, x) => x,
        (x, None) => x,
    }
}

/// The first opening tag among the anchors `anchors[0..i]` in `s`.
pub open spec fn first_anchor(s: Seq<u8>, anchors: Seq<&'static str>, i: int) -> Option<int>
    decreases i,
{
    if i <= 0 {
        None
    } else {
        earlier(first_anchor(s, anchors, i - 1), find_open_from(s, anchors[i - 1].spec_bytes(), 0))
    }
}

pub fn upsert_update_fields(settings: &[u8]) -> (r: DocResult<Option<Vec<u8>>>)
    ensures
        occurs(settings@, "<w:updateFields".spec_bytes()) ==> r matches Ok(None),
        (!occurs(settings@, "<w:updateFields".spec_bytes()) && first_anchor(settings@, spec_settings_anchors(), spec_settings_anchors().len() as int) is Some)
            ==> (r matches Ok(Some(v)) && v@ == insertion_of(
            settings@,
            first_anchor(settings@, spec_settings_anchors(), spec_settings_anchors().len() as int)->0,
            "<w:updateFields w:val=\"true\"/>".spec_bytes(),
        )),
        !occurs(settings@, "<w:updateFields".spec_bytes()) && first_anchor(settings@, spec_settings_anchors(), spec_settings_anchors().len() as int) is None
            ==> (r is Err <==> !occurs(settings@, "</w:settings>".spec_bytes())),
        !occurs(settings@, "<w:updateFields".spec_bytes()) && first_anchor(settings@, spec_settings_anchors(), spec_settings_anchors().len() as int) is None
            ==> (r matches Ok(Some(v)) ==> exists|p: usize| #[trigger] last_occurrence(settings@, "</w:settings>".spec_bytes(), Some(p))
                && v@ == insertion_of(settings@, p as int, "<w:updateFields w:val=\"true\"/>".spec_bytes())),
        !occurs(settings@, "<w:updateFields".spec_bytes()) ==> match r {
            Ok(Some(v)) => exists|p: int| 0 <= p <= settings@.len() && v@ == settings@.subrange(0, p)
                + "<w:updateFields w:val=\"true\"/>".spec_bytes() + settings@.subrange(p, settings@.len() as int),
            Ok(None) => false,
            Err(e) => e.kind == ErrorKind::Validation,
        },
{
    if contains(settings, "<w:updateFields".as_bytes()) {
        return Ok(None);
    }
    let anchors = settings_anchors();
    let mut at: Option<usize> = None;
    let mut i: usize = 0;
    while i < anchors.len()
        invariant
            at matches Some(p) ==> p <= settings@.len(),
            i <= anchors@.len(),
            anchors@ == spec_settings_anchors(),
            match first_anchor(settings@, anchors@, i as int) {
                Some(p) => at matches Some(x) && x as int == p,
                None => at is None,
            },
        decreases anchors@.len() - i,
    {
        proof {
            lemma_find_open_in_range(settings@, anchors@[i as int].spec_bytes(), 0);
        }
        match find_element_open(settings, anchors[i]) {
            Some(p) => {
                at = match at {
                    Some(q) => if p < q {
                        Some(p)
                    } else {
                        Some(q)
                    },
                    None => Some(p),
                };
            },
            None => {},
        }
        i = i + 1;
    }
    let anchored = at.is_some();
    if at.is_none() {
        at = rfind(settings, "</w:settings>".as_bytes());
        proof {
            if at is None {
                if occurs(settings@, "</w:settings>".spec_bytes()) {
                    let q = choose|q: int| has_at(settings@, q, "</w:settings>".spec_bytes());
                    assert(!has_at(settings@, q, "</w:settings>".spec_bytes()));
                }
            }
        }
    }
    let pos = match at {
        Some(p) => p,
        None => {
            return Err(DocError::validation(str_bytes(
                "TOC 插入无效: word/settings.xml 结构异常（找不到 w:settings 闭合标签）。怎么办：确认目标文件是 Word/WPS 正常保存的 .docx。",
            )));
        },
    };
    let mut out = slice_vec(settings, 0, pos);
    push_str(&mut out, "<w:updateFields w:val=\"true\"/>");
    let tail = slice_vec(settings, pos, settings.len());
    push_bytes(&mut out, tail.as_slice());
    assert(out@ =~= settings@.subrange(0, pos as int) + "<w:updateFields w:val=\"true\"/>".spec_bytes()
        + settings@.subrange(pos as int, settings@.len() as int));
    proof {
        if !anchored {
            assert(last_occurrence(settings@, "</w:settings>".spec_bytes(), Some(pos)));
            assert(has_at(settings@, pos as int, "</w:settings>".spec_bytes()));
            assert(occurs(settings@, "</w:settings>".spec_bytes()));
        }
    }
    Ok(Some(out))
}

proof fn lemma_find_open_in_range(s: Seq<u8>, tag: Seq<u8>, from: int)
    ensures
        find_open_from(s, tag, from) matches Some(p) ==> from <= p < s.len(),
    decreases s.len() + 1 - from,
{
    if !(from < 0 || from > s.len() || tag.len() == 0) {
        lemma_first_occ_range(s, tag, from);
        match first_occ(s, tag, from) {
            None => {},
            Some(q) => {
                if !opens_at(s, q, tag) {
                    lemma_find_open_in_range(s, tag, q + tag.len());
                }
            },
        }
    }
}


// ---------------------------------------------------------------------------
// Repacking with several replaced parts and new entries
// ---------------------------------------------------------------------------

/// The index of the first pair of `v` from `k` on named `n`.
pub open spec fn named_index(v: Seq<(String, Vec<u8>)>, n: Seq<char>, k: int) -> Option<int>
    decreases v.len() - k,
{
    if k < 0 || k >= v.len() {
        None
    } else if v[k].0@ == n {
        Some(k)
    } else {
        named_index(v, n, k + 1)
    }
}

proof fn lemma_named_index(v: Seq<(String, Vec<u8>)>, n: Seq<char>, k: int)
    requires
        0 <= k,
    ensures
        named_index(v, n, k) matches Some(j) ==> k <= j < v.len() && v[j].0@ == n,
        named_index(v, n, k) is None ==> forall|j: int| k <= j < v.len() ==> (#[trigger] v[j]).0@ != n,
    decreases v.len() - k,
{
    if 0 <= k < v.len() && v[k].0@ != n {
        lemma_named_index(v, n, k + 1);
    }
}

/// Names of a list of parts are pairwise distinct.
pub open spec fn part_names_distinct(v: Seq<(String, Vec<u8>)>) -> bool {
    forall|i: int, j: int| 0 <= i < j < v.len() ==> (#[trigger] v[i]).0@ != (#[trigger] v[j]).0@
}

/// What a package repacked with `reps` replaced and `apps` appended reads
/// back as, for entry `n`.
pub open spec fn repacked_entry(src: Seq<u8>, reps: Seq<(String, Vec<u8>)>, apps: Seq<(String, Vec<u8>)>, n: Seq<char>) -> Option<Option<Seq<u8>>> {
    match named_index(reps, n, 0) {
        Some(k) => Some(Some(reps[k].1@)),
        None => match named_index(apps, n, 0) {
            Some(k) => Some(Some(apps[k].1@)),
            None => zip_entry_of(src, n),
        },
    }
}

spec fn copied_entries(names: Seq<Seq<char>>, src: Seq<u8>, reps: Seq<(String, Vec<u8>)>) -> Seq<(Seq<char>, Option<Option<Seq<u8>>>)> {
    Seq::new(
        names.len(),
        |j: int|
            (
                names[j],
                match named_index(reps, names[j], 0) {
                    Some(k) => Some(Some(reps[k].1@)),
                    None => zip_entry_of(src, names[j]),
                },
            ),
    )
}

spec fn appended_entries(apps: Seq<(String, Vec<u8>)>) -> Seq<(Seq<char>, Option<Option<Seq<u8>>>)> {
    Seq::new(apps.len(), |j: int| (apps[j].0@, Some(Some(apps[j].1@))))
}

fn internal_named(prefix: &str, name: &String, suffix: &str) -> (e: DocError)
    ensures
        e.kind == ErrorKind::Internal,
{
    let mut m = str_bytes(prefix);
    push_str(&mut m, name.as_str());
    push_str(&mut m, suffix);
    DocError::internal(m)
}

/// Repacks a package: each part of `reps` (which must exist) gets its new
/// content, each entry of `apps` (which must not exist) is appended, every
/// other entry is copied without recompression.
pub fn repack_package(bytes: &[u8], reps: &[(String, Vec<u8>)], apps: &[(String, Vec<u8>)]) -> (r: DocResult<Vec<u8>>)
    ensures
        (exists|k: int| 0 <= k < reps@.len() && zip_entry_of(bytes@, (#[trigger] reps@[k]).0@) == Some(None::<Seq<u8>>))
            ==> r is Err,
        r matches Ok(out) ==> part_names_distinct(apps@) ==> forall|n: Seq<char>| #[trigger] zip_entry_of(out@, n)
            == repacked_entry(bytes@, reps@, apps@, n),
        r matches Err(e) ==> e.kind == ErrorKind::Internal,
{
    let copy = slice_vec(bytes, 0, bytes.len());
    let mut archive = match zip_open(copy) {
        Ok(a) => a,
        Err(msg) => {
            return Err(DocError::internal(msg));
        },
    };
    let ghost names = archive_names(archive);
    let ghost src = archive_source(archive);
    assert(src == bytes@);
    let n = zip_len(&archive);
    let mut k: usize = 0;
    while k < reps.len()
        invariant
            n == names.len(),
            archive_names(archive) == names,
            src == bytes@,
            forall|n2: Seq<char>| !names.contains(n2) ==> zip_entry_of(bytes@, n2) == Some(None::<Seq<u8>>),
            forall|n2: Seq<char>| names.contains(n2) ==> zip_entry_of(bytes@, n2) != Some(None::<Seq<u8>>),
            forall|q: int| 0 <= q < k ==> names.contains((#[trigger] reps@[q]).0@),
        decreases reps@.len() - k,
    {
        let mut found = false;
        let mut i: usize = 0;
        while i < n
            invariant
                n == names.len(),
                archive_names(archive) == names,
                i <= n,
                k < reps@.len(),
                found ==> names.contains(reps@[k as int].0@),
            decreases n - i,
        {
            if zip_name_is(&archive, i, reps[k].0.as_str()) {
                found = true;
            }
            i = i + 1;
        }
        if !found {
            return Err(internal_named("重打包部件缺失: ", &reps[k].0, " 不在包内（内部 bug，未写盘）"));
        }
        k = k + 1;
    }
    let mut k: usize = 0;
    while k < apps.len()
        invariant
            n == names.len(),
            archive_names(archive) == names,
            forall|q: int| 0 <= q < k ==> !names.contains((#[trigger] apps@[q]).0@),
        decreases apps@.len() - k,
    {
        let mut i: usize = 0;
        while i < n
            invariant
                n == names.len(),
                archive_names(archive) == names,
                i <= n,
                k < apps@.len(),
                forall|j: int| 0 <= j < i ==> names[j] != apps@[k as int].0@,
            decreases n - i,
        {
            if zip_name_is(&archive, i, apps[k].0.as_str()) {
                return Err(internal_named("重打包追加件已存在: ", &apps[k].0, "（内部 bug，未写盘）"));
            }
            i = i + 1;
        }
        k = k + 1;
    }
    let mut w = zip_writer_new();
    let mut i: usize = 0;
    while i < n
        invariant
            n == names.len(),
            i <= n,
            archive_names(archive) == names,
            archive_source(archive) == src,
            writer_entries(w) == copied_entries(names, src, reps@).subrange(0, i as int),
        decreases n - i,
    {
        let mut hit: Option<usize> = None;
        let mut k: usize = 0;
        while k < reps.len()
            invariant
                n == names.len(),
                i < n,
                archive_names(archive) == names,
                k <= reps@.len(),
                hit is None ==> named_index(reps@, names[i as int], 0) == named_index(reps@, names[i as int], k as int),
                hit matches Some(h) ==> named_index(reps@, names[i as int], 0) == Some(h as int),
            decreases reps@.len() - k,
        {
            if hit.is_none() && zip_name_is(&archive, i, reps[k].0.as_str()) {
                hit = Some(k);
            }
            k = k + 1;
        }
        proof {
            lemma_named_index(reps@, names[i as int], 0);
        }
        match hit {
            Some(h) => {
                let name = zip_name_at(&archive, i);
                match zip_write_file(&mut w, name.as_str(), reps[h].1.as_slice()) {
                    Ok(()) => {},
                    Err(msg) => {
                        return Err(DocError::internal(msg));
                    },
                }
            },
            None => {
                match copy_entry(&mut w, &mut archive, i) {
                    Ok(()) => {},
                    Err(msg) => {
                        return Err(DocError::internal(msg));
                    },
                }
            },
        }
        assert(writer_entries(w) =~= copied_entries(names, src, reps@).subrange(0, i + 1));
        i = i + 1;
    }
    let ghost copied = writer_entries(w);
    assert(copied =~= copied_entries(names, src, reps@));
    let mut k: usize = 0;
    while k < apps.len()
        invariant
            k <= apps@.len(),
            writer_entries(w) == copied + appended_entries(apps@).subrange(0, k as int),
        decreases apps@.len() - k,
    {
        match zip_write_file(&mut w, apps[k].0.as_str(), apps[k].1.as_slice()) {
            Ok(()) => {},
            Err(msg) => {
                return Err(DocError::internal(msg));
            },
        }
        assert(writer_entries(w) =~= copied + appended_entries(apps@).subrange(0, k + 1));
        k = k + 1;
    }
    let ghost entries = writer_entries(w);
    assert(entries =~= copied + appended_entries(apps@));
    let out = match zip_finish(w) {
        Ok(o) => o,
        Err(msg) => {
            return Err(DocError::internal(msg));
        },
    };
    proof {
        if part_names_distinct(apps@) {
            lemma_repack_entries(bytes@, out@, names, reps@, apps@, entries);
        }
    }
    Ok(out)
}

proof fn lemma_repack_entries(
    src: Seq<u8>,
    out: Seq<u8>,
    names: Seq<Seq<char>>,
    reps: Seq<(String, Vec<u8>)>,
    apps: Seq<(String, Vec<u8>)>,
    entries: Seq<(Seq<char>, Option<Option<Seq<u8>>>)>,
)
    requires
        distinct_names(names),
        forall|n: Seq<char>| !names.contains(n) ==> zip_entry_of(src, n) == Some(None::<Seq<u8>>),
        forall|q: int| 0 <= q < reps.len() ==> names.contains((#[trigger] reps[q]).0@),
        forall|q: int| 0 <= q < apps.len() ==> !names.contains((#[trigger] apps[q]).0@),
        part_names_distinct(apps),
        entries == copied_entries(names, src, reps) + appended_entries(apps),
        distinct_names(entry_names(entries)) ==> {
            &&& forall|k: int| 0 <= k < entries.len() ==> zip_entry_of(out, #[trigger] entries[k].0) == entries[k].1
            &&& forall|n: Seq<char>| !entry_names(entries).contains(n) ==> zip_entry_of(out, n) == Some(None::<Seq<u8>>)
        },
    ensures
        forall|n: Seq<char>| #[trigger] zip_entry_of(out, n) == repacked_entry(src, reps, apps, n),
{
    let m = names.len();
    let en = entry_names(entries);
    assert(entries.len() == m + apps.len());
    assert forall|k: int| 0 <= k < entries.len() implies #[trigger] en[k] == if k < m { names[k] } else { apps[k - m].0@ } by {
    }
    assert(distinct_names(en)) by {
        assert forall|i: int, j: int| 0 <= i < j < en.len() implies en[i] != en[j] by {
            if j < m {
            } else if i < m {
                assert(names.contains(names[i]));
                assert(!names.contains(apps[j - m].0@));
            } else {
                assert(apps[i - m].0@ != apps[j - m].0@);
            }
        }
    }
    assert forall|n: Seq<char>| #[trigger] zip_entry_of(out, n) == repacked_entry(src, reps, apps, n) by {
        lemma_named_index(reps, n, 0);
        lemma_named_index(apps, n, 0);
        if names.contains(n) {
            let j = choose|j: int| 0 <= j < names.len() && names[j] == n;
            assert(entries[j].0 == n);
            assert(zip_entry_of(out, entries[j].0) == entries[j].1);
            if let Some(a) = named_index(apps, n, 0) {
                assert(!names.contains(apps[a].0@));
            }
        } else if let Some(a) = named_index(apps, n, 0) {
            assert(entries[m + a].0 == n);
            assert(zip_entry_of(out, entries[m + a].0) == entries[m + a].1);
            if let Some(q) = named_index(reps, n, 0) {
                assert(names.contains(reps[q].0@));
            }
        } else {
            assert(!en.contains(n)) by {
                if en.contains(n) {
                    let k = choose|k: int| 0 <= k < en.len() && en[k] == n;
                    if k < m {
                        assert(names.contains(names[k]));
                    } else {
                        assert(apps[k - m].0@ == n);
                    }
                }
            }
            if let Some(q) = named_index(reps, n, 0) {
                assert(names.contains(reps[q].0@));
            }
        }
    }
}


// ---------------------------------------------------------------------------
// Planning the additions of a batch
// ---------------------------------------------------------------------------

/// Where one image goes: its relationship ID and its media part.
#[derive(Debug)]
pub struct ImageAlloc {
    pub rid: String,
    /// Full path in the package (`word/media/image4.png`).
    pub media_name: String,
}

/// What a batch adds to a package: text parts replaced (they must exist)
/// and binary parts appended. Parts that do not change are not listed.
#[derive(Debug)]
pub struct PkgAdditions {
    pub replacements: Vec<(String, Vec<u8>)>,
    pub appends: Vec<(String, Vec<u8>)>,
}

fn family_error(family: &str, msg: &str) -> (e: DocError)
    ensures
        e.kind == ErrorKind::Validation,
{
    let mut m = str_bytes(family);
    push_str(&mut m, ": ");
    push_str(&mut m, msg);
    DocError::validation(m)
}

/// The lower-cased `Extension` of every `Default` of a content types part.
pub fn existing_default_exts(ct: &[u8]) -> (r: DocResult<Vec<Vec<u8>>>)
    ensures
        r matches Err(e) ==> e.kind == ErrorKind::Internal,
{
    let dom = match xml_dom::parse(ct) {
        Ok(d) => d,
        Err(e) => {
            let mut m = str_bytes("内容类型部件解析失败: ");
            push_bytes(&mut m, e.message.as_slice());
            return Err(DocError::internal(m));
        },
    };
    let mut out: Vec<Vec<u8>> = Vec::new();
    let mut i: usize = 0;
    while i < dom.children.len()
        decreases dom.children@.len() - i,
    {
        if let xml_dom::Node::Element(e) = &dom.children[i] {
            if e.is("Default") {
                if let Some(ext) = e.attr_str("Extension") {
                    out.push(ascii_lower(ext.as_slice()));
                }
            }
        }
        i = i + 1;
    }
    Ok(out)
}

/// `s` with ASCII capitals made small.
pub open spec fn spec_ascii_lower(s: Seq<u8>) -> Seq<u8> {
    s.map_values(|b: u8| if 65 <= b <= 90 { (b + 32) as u8 } else { b })
}

pub fn ascii_lower(s: &[u8]) -> (r: Vec<u8>)
    ensures
        r@ == spec_ascii_lower(s@),
{
    let mut out: Vec<u8> = Vec::new();
    let mut i: usize = 0;
    while i < s.len()
        invariant
            i <= s@.len(),
            out@ == spec_ascii_lower(s@.subrange(0, i as int)),
        decreases s@.len() - i,
    {
        let b = s[i];
        out.push(if 65 <= b && b <= 90 { b + 32 } else { b });
        assert(out@ =~= spec_ascii_lower(s@.subrange(0, i + 1)));
        i = i + 1;
    }
    assert(s@.subrange(0, i as int) =~= s@);
    out
}

fn has_name(names: &Vec<String>, cand: &[u8]) -> (r: bool)
    ensures
        r == exists|i: int| 0 <= i < names@.len() && vstd::utf8::encode_utf8((#[trigger] names@[i])@) == cand@,
{
    let mut i: usize = 0;
    while i < names.len()
        invariant
            i <= names@.len(),
            forall|k: int| 0 <= k < i ==> vstd::utf8::encode_utf8((#[trigger] names@[k])@) != cand@,
        decreases names@.len() - i,
    {
        if bytes_eq(names[i].as_str().as_bytes(), cand) {
            return true;
        }
        i = i + 1;
    }
    false
}

fn has_bytes(v: &Vec<Vec<u8>>, cand: &[u8]) -> (r: bool)
    ensures
        r == exists|i: int| 0 <= i < v@.len() && (#[trigger] v@[i])@ == cand@,
{
    let mut i: usize = 0;
    while i < v.len()
        invariant
            i <= v@.len(),
            forall|k: int| 0 <= k < i ==> (#[trigger] v@[k])@ != cand@,
        decreases v@.len() - i,
    {
        if bytes_eq(v[i].as_slice(), cand) {
            return true;
        }
        i = i + 1;
    }
    false
}

/// The index of the first `.` of `s` from `k` on, or the length.
pub open spec fn dot_from(s: Seq<u8>, k: int) -> int
    decreases s.len() - k,
{
    if k < 0 || k >= s.len() {
        s.len() as int
    } else if s[k] == 46u8 {
        k
    } else {
        dot_from(s, k + 1)
    }
}

/// The number after `prefix` in `s` up to the first `.` (when `stop_at_dot`)
/// or the end; see [`number_after`].
pub open spec fn spec_number_after(s: Seq<u8>, prefix: Seq<u8>, stop_at_dot: bool) -> Option<u32> {
    if !has_at(s, 0, prefix) {
        None
    } else {
        let rest = s.subrange(prefix.len() as int, s.len() as int);
        let e = if stop_at_dot {
            dot_from(rest, 0)
        } else {
            rest.len() as int
        };
        spec_parse_u32(rest.subrange(0, e))
    }
}

/// The number after `prefix` in `s` up to the first `.` (or the end), if
/// `s` starts with `prefix` and that text parses as a `u32`.
fn number_after(s: &[u8], prefix: &str, stop_at_dot: bool) -> (r: Option<u32>)
    ensures
        r == spec_number_after(s@, prefix.spec_bytes(), stop_at_dot),
{
    let p = prefix.as_bytes();
    if !starts_with(s, p) {
        return None;
    }
    let rest = slice_vec(s, p.len(), s.len());
    let mut e = 0usize;
    if stop_at_dot {
        while e < rest.len() && rest[e] != 46
            invariant
                e <= rest@.len(),
                dot_from(rest@, e as int) == dot_from(rest@, 0),
            decreases rest@.len() - e,
        {
            e = e + 1;
        }
    } else {
        e = rest.len();
    }
    let digits = slice_vec(rest.as_slice(), 0, e);
    parse_u32(digits.as_slice())
}

/// `t` with `ins` put in at `p`.
pub open spec fn insertion_of(t: Seq<u8>, p: int, ins: Seq<u8>) -> Seq<u8> {
    t.subrange(0, p) + ins + t.subrange(p, t.len() as int)
}

/// A part text a batch writes only adds to the package: the text of an
/// existing part with something (not nothing) put in, or, for a settings
/// part the package lacks, the minimal settings part.
pub open spec fn grows_part(bytes: Seq<u8>, name: Seq<char>, content: Seq<u8>) -> bool {
    match zip_entry_of(bytes, name) {
        Some(Some(c)) => exists|t: Seq<u8>, p: int, ins: Seq<u8>|
            crate::docx::part_text_ok(c, t) && 0 <= p <= t.len() && ins.len() > 0 && content == #[trigger] insertion_of(t, p, ins),
        Some(None) => name == "word/settings.xml"@ && content == MINIMAL_SETTINGS_XML.spec_bytes(),
        None => false,
    }
}

proof fn lemma_part_name(s: &'static str, n: String)
    requires
        vstd::utf8::valid_utf8(s.spec_bytes()) ==> n@ == decode_utf8(s.spec_bytes()),
    ensures
        n@ == s@,
{
    vstd::utf8::encode_utf8_valid_utf8(s@);
    vstd::utf8::encode_utf8_decode_utf8(s@);
}

/// Plans what a batch adds to a package: each image gets a fresh
/// relationship ID (after the largest `rIdN`, skipping IDs in use) and a
/// fresh media part (after the largest `word/media/imageN`, skipping
/// names in use), registered in the relationships part; a table of
/// contents asks fields to be updated on open (settings part created or
/// completed); the content types part gets a `Default` per new image
/// extension and an `Override` for a new settings part. Existing entries
/// are never renumbered or rewritten when nothing changes.
pub fn plan_package_additions(bytes: &[u8], images: &[ImagePayload], has_toc: bool) -> (r: DocResult<(Vec<ImageAlloc>, PkgAdditions)>)
    ensures
        images@.len() == 0 && !has_toc ==> (r matches Ok(x) && x.0@.len() == 0 && x.1.replacements@.len() == 0
            && x.1.appends@.len() == 0),
        r matches Ok(x) ==> forall|k: int| 0 <= k < x.1.replacements@.len() ==> grows_part(
            bytes@,
            (#[trigger] x.1.replacements@[k]).0@,
            x.1.replacements@[k].1@,
        ),
        r matches Ok(x) ==> {
            &&& x.0@.len() == images@.len()
            &&& x.1.appends@.len() == images@.len()
            &&& forall|i: int| 0 <= i < images@.len() ==> (#[trigger] x.1.appends@[i]).1@ == images@[i].bytes@
                && x.1.appends@[i].0@ == x.0@[i].media_name@
            &&& forall|i: int| 0 <= i < images@.len() ==> zip_entry_of(bytes@, (#[trigger] x.0@[i]).media_name@) == Some(None::<Seq<u8>>)
        },
        r matches Err(e) ==> e.kind == ErrorKind::Validation || e.kind == ErrorKind::Internal,
{
    let mut allocs: Vec<ImageAlloc> = Vec::new();
    let mut additions = PkgAdditions { replacements: Vec::new(), appends: Vec::new() };
    if images.len() == 0 && !has_toc {
        return Ok((allocs, additions));
    }
    let copy = slice_vec(bytes, 0, bytes.len());
    assert(copy@ =~= bytes@);
    let archive = match zip_open(copy) {
        Ok(a) => a,
        Err(msg) => {
            return Err(DocError::internal(msg));
        },
    };
    let ghost anames = archive_names(archive);
    let count = zip_len(&archive);
    let mut names: Vec<String> = Vec::new();
    let mut i: usize = 0;
    while i < count
        invariant
            count == anames.len(),
            archive_names(archive) == anames,
            forall|n2: Seq<char>| !anames.contains(n2) ==> zip_entry_of(bytes@, n2) == Some(None::<Seq<u8>>),
            i <= count,
            names@.len() == i,
            forall|k: int| 0 <= k < i ==> (#[trigger] names@[k])@ == anames[k],
        decreases count - i,
    {
        names.push(zip_name_at(&archive, i));
        i = i + 1;
    }
    let family = if images.len() == 0 {
        "TOC 插入无效"
    } else {
        "图片插入无效"
    };
    if images.len() > 0 {
        let rels = match crate::docx::read_entry(bytes, "word/_rels/document.xml.rels")? {
            Some(x) => x,
            None => {
                return Err(family_error(family, "文档包缺少 word/_rels/document.xml.rels 关系部件，无法登记图片关系。怎么办：确认目标文件是 Word/WPS 正常保存的 .docx。"));
            },
        };
        let dom = match xml_dom::parse(rels.as_slice()) {
            Ok(d) => d,
            Err(e) => {
                let mut m = str_bytes(family);
                push_str(&mut m, ": 关系部件解析失败（");
                push_bytes(&mut m, e.render().as_slice());
                push_str(&mut m, "）。怎么办：确认目标文件未损坏。");
                return Err(DocError::validation(m));
            },
        };
        let mut max_rid: u64 = 0;
        let mut used_ids: Vec<Vec<u8>> = Vec::new();
        let mut k: usize = 0;
        while k < dom.children.len()
            invariant
                max_rid <= u32::MAX,
            decreases dom.children@.len() - k,
        {
            if let xml_dom::Node::Element(e) = &dom.children[k] {
                if e.is("Relationship") {
                    if let Some(id) = e.attr_str("Id") {
                        used_ids.push(slice_vec(id.as_slice(), 0, id.len()));
                        if let Some(n) = number_after(id.as_slice(), "rId", false) {
                            if (n as u64) > max_rid {
                                max_rid = n as u64;
                            }
                        }
                    }
                }
            }
            k = k + 1;
        }
        let mut max_k: u64 = 0;
        let mut k: usize = 0;
        while k < names.len()
            invariant
                max_k <= u32::MAX,
            decreases names@.len() - k,
        {
            if let Some(n) = number_after(names[k].as_str().as_bytes(), "word/media/image", true) {
                if (n as u64) > max_k {
                    max_k = n as u64;
                }
            }
            k = k + 1;
        }
        let mut next_rid: u64 = max_rid + 1;
        let mut next_k: u64 = max_k + 1;
        assert(forall|n2: Seq<char>| !anames.contains(n2) ==> zip_entry_of(bytes@, n2) == Some(None::<Seq<u8>>));
        let mut new_rels: Vec<u8> = Vec::new();
        let mut j: usize = 0;
        while j < images.len()
            invariant
                j <= images@.len(),
                allocs@.len() == j,
                additions.appends@.len() == j,
                additions.replacements@.len() == 0,
                j > 0 ==> new_rels@.len() > 0,
                count == anames.len(),
                names@.len() == count,
                forall|q: int| 0 <= q < count ==> (#[trigger] names@[q])@ == anames[q],
                forall|n2: Seq<char>| !anames.contains(n2) ==> zip_entry_of(bytes@, n2) == Some(None::<Seq<u8>>),
                forall|i: int| 0 <= i < j ==> (#[trigger] additions.appends@[i]).1@ == images@[i].bytes@
                    && additions.appends@[i].0@ == allocs@[i].media_name@,
                forall|i: int| 0 <= i < j ==> zip_entry_of(bytes@, (#[trigger] allocs@[i]).media_name@) == Some(None::<Seq<u8>>),
            decreases images@.len() - j,
        {
            let img = &images[j];
            let mut rid = str_bytes("rId");
            push_u64(&mut rid, next_rid);
            next_rid = next_rid.saturating_add(1);
            let mut tries: usize = 0;
            while has_bytes(&used_ids, rid.as_slice()) && tries < used_ids.len()
                invariant
                    tries <= used_ids@.len(),
                decreases used_ids@.len() - tries,
            {
                rid = str_bytes("rId");
                push_u64(&mut rid, next_rid);
                next_rid = next_rid.saturating_add(1);
                tries = tries + 1;
            }
            let mut target = str_bytes("media/image");
            push_u64(&mut target, next_k);
            push_str(&mut target, ".");
            push_str(&mut target, img.ext);
            let mut media = str_bytes("word/");
            push_bytes(&mut media, target.as_slice());
            next_k = next_k.saturating_add(1);
            let mut tries: usize = 0;
            while has_name(&names, media.as_slice()) && tries < names.len()
                invariant
                    tries <= names@.len(),
                decreases names@.len() - tries,
            {
                target = str_bytes("media/image");
                push_u64(&mut target, next_k);
                push_str(&mut target, ".");
                push_str(&mut target, img.ext);
                media = str_bytes("word/");
                push_bytes(&mut media, target.as_slice());
                next_k = next_k.saturating_add(1);
                tries = tries + 1;
            }
            let media_name = bytes_to_string(media.as_slice());
            let media_copy = media_name.clone();
            let mut taken = false;
            let mut q: usize = 0;
            while q < names.len()
                invariant
                    q <= names@.len(),
                    names@.len() == count,
                    count == anames.len(),
                    forall|p: int| 0 <= p < count ==> (#[trigger] names@[p])@ == anames[p],
                    !taken ==> forall|p: int| 0 <= p < q ==> anames[p] != media_name@,
                decreases names@.len() - q,
            {
                if bytes_eq(names[q].as_str().as_bytes(), media_name.as_str().as_bytes()) {
                    taken = true;
                }
                q = q + 1;
            }
            if taken || has_bytes(&used_ids, rid.as_slice()) {
                return Err(DocError::internal(str_bytes("包部件手术失败: 资源名分配失败（内部 bug，未写盘）")));
            }
            proof {
                assert(!anames.contains(media_name@));
            }
            push_str(&mut new_rels, "<Relationship Id=\"");
            push_bytes(&mut new_rels, rid.as_slice());
            push_str(&mut new_rels, "\" Type=\"http://schemas.openxmlformats.org/officeDocument/2006/relationships/image\" Target=\"");
            push_bytes(&mut new_rels, target.as_slice());
            push_str(&mut new_rels, "\"/>");
            proof {
                reveal_strlit("\"/>");
                vstd::utf8::is_ascii_chars_encode_utf8("\"/>"@);
            }
            additions.appends.push((media_copy, slice_vec(img.bytes.as_slice(), 0, img.bytes.len())));
            allocs.push(ImageAlloc { rid: bytes_to_string(rid.as_slice()), media_name });
            j = j + 1;
        }
        let extended = append_before_close(rels.as_slice(), "</Relationships>", new_rels.as_slice())?;
        let rname = bytes_to_string("word/_rels/document.xml.rels".as_bytes());
        proof {
            lemma_part_name("word/_rels/document.xml.rels", rname);
            let p = choose|p: int| last_occurrence(rels@, "</Relationships>".spec_bytes(), Some(p as usize)) && 0 <= p <= rels@.len()
                && extended@ == rels@.subrange(0, p) + new_rels@ + rels@.subrange(p, rels@.len() as int);
            assert(extended@ == insertion_of(rels@, p, new_rels@));
        }
        additions.replacements.push((rname, extended));
    }
    assert(forall|k: int| 0 <= k < additions.replacements@.len() ==> grows_part(
        bytes@,
        (#[trigger] additions.replacements@[k]).0@,
        additions.replacements@[k].1@,
    ));
    let settings = crate::docx::read_entry(bytes, "word/settings.xml")?;
    if has_toc {
        let new_settings = match &settings {
            Some(st) => upsert_update_fields(st.as_slice())?,
            None => Some(str_bytes(MINIMAL_SETTINGS_XML)),
        };
        if let Some(st) = new_settings {
            let sname = bytes_to_string("word/settings.xml".as_bytes());
            proof {
                lemma_part_name("word/settings.xml", sname);
                match &settings {
                    Some(old) => {
                        let p = choose|p: int| 0 <= p <= old@.len() && st@ == old@.subrange(0, p)
                            + "<w:updateFields w:val=\"true\"/>".spec_bytes() + old@.subrange(p, old@.len() as int);
                        assert(st@ == insertion_of(old@, p, "<w:updateFields w:val=\"true\"/>".spec_bytes()));
                        reveal_strlit("<w:updateFields w:val=\"true\"/>");
                        vstd::utf8::is_ascii_chars_encode_utf8("<w:updateFields w:val=\"true\"/>"@);
                    },
                    None => {},
                }
            }
            let ghost before = additions.replacements@;
            additions.replacements.push((sname, st));
            assert(forall|k: int| 0 <= k < before.len() ==> additions.replacements@[k] == before[k]);
        }
    }
    let ct = match crate::docx::read_entry(bytes, "[Content_Types].xml")? {
        Some(x) => x,
        None => {
            return Err(family_error(family, "文档包缺少 [Content_Types].xml。怎么办：确认目标文件是 Word/WPS 正常保存的 .docx。"));
        },
    };
    let mut insertions: Vec<u8> = Vec::new();
    if images.len() > 0 {
        let existing = existing_default_exts(ct.as_slice())?;
        let mut added: Vec<Vec<u8>> = Vec::new();
        let mut j: usize = 0;
        while j < images.len()
            decreases images@.len() - j,
        {
            let ext = images[j].ext.as_bytes();
            if !has_bytes(&added, ext) {
                added.push(slice_vec(ext, 0, ext.len()));
                let low = ascii_lower(ext);
                if !has_bytes(&existing, low.as_slice()) {
                    push_str(&mut insertions, "<Default Extension=\"");
                    push_str(&mut insertions, images[j].ext);
                    push_str(&mut insertions, "\" ContentType=\"");
                    push_str(&mut insertions, content_type_of(images[j].ext));
                    push_str(&mut insertions, "\"/>");
                }
            }
            j = j + 1;
        }
    }
    if has_toc && !contains(ct.as_slice(), "PartName=\"/word/settings.xml\"".as_bytes()) {
        push_str(&mut insertions, "<Override PartName=\"/word/settings.xml\" ContentType=\"application/vnd.openxmlformats-officedocument.wordprocessingml.settings+xml\"/>");
    }
    if insertions.len() > 0 {
        let out = append_before_close(ct.as_slice(), "</Types>", insertions.as_slice())?;
        let cname = bytes_to_string("[Content_Types].xml".as_bytes());
        proof {
            lemma_part_name("[Content_Types].xml", cname);
            let p = choose|p: int| last_occurrence(ct@, "</Types>".spec_bytes(), Some(p as usize)) && 0 <= p <= ct@.len()
                && out@ == ct@.subrange(0, p) + insertions@ + ct@.subrange(p, ct@.len() as int);
            assert(out@ == insertion_of(ct@, p, insertions@));
        }
        let ghost before = additions.replacements@;
        additions.replacements.push((cname, out));
        assert(forall|k: int| 0 <= k < before.len() ==> additions.replacements@[k] == before[k]);
    }
    Ok((allocs, additions))
}


// ---------------------------------------------------------------------------
// Drawing and table-of-contents paragraphs
// ---------------------------------------------------------------------------

/// An inline picture paragraph: its namespaces are declared on the elements
/// that use them, so it fits in any document part.
pub open spec fn spec_drawing(rid: Seq<u8>, cx: u64, cy: u64, id: u32, name: Seq<u8>) -> Seq<u8> {
    "<w:p><w:r><w:drawing><wp:inline distT=\"0\" distB=\"0\" distL=\"0\" distR=\"0\" xmlns:wp=\"http://schemas.openxmlformats.org/drawingml/2006/wordprocessingDrawing\"><wp:extent cx=\"".spec_bytes()
        + dec(cx as nat) + "\" cy=\"".spec_bytes() + dec(cy as nat)
        + "\"/><wp:effectExtent l=\"0\" t=\"0\" r=\"0\" b=\"0\"/><wp:docPr id=\"".spec_bytes() + dec(id as nat)
        + "\" name=\"".spec_bytes() + name
        + "\"/><wp:cNvGraphicFramePr><a:graphicFrameLocks xmlns:a=\"http://schemas.openxmlformats.org/drawingml/2006/main\" noChangeAspect=\"1\"/></wp:cNvGraphicFramePr><a:graphic xmlns:a=\"http://schemas.openxmlformats.org/drawingml/2006/main\"><a:graphicData uri=\"http://schemas.openxmlformats.org/drawingml/2006/picture\"><pic:pic xmlns:pic=\"http://schemas.openxmlformats.org/drawingml/2006/picture\"><pic:nvPicPr><pic:cNvPr id=\"".spec_bytes()
        + dec(id as nat) + "\" name=\"".spec_bytes() + name
        + "\"/><pic:cNvPicPr/></pic:nvPicPr><pic:blipFill><a:blip xmlns:r=\"http://schemas.openxmlformats.org/officeDocument/2006/relationships\" r:embed=\"".spec_bytes()
        + rid + "\"/><a:stretch><a:fillRect/></a:stretch></pic:blipFill><pic:spPr><a:xfrm><a:off x=\"0\" y=\"0\"/><a:ext cx=\"".spec_bytes()
        + dec(cx as nat) + "\" cy=\"".spec_bytes() + dec(cy as nat)
        + "\"/></a:xfrm><a:prstGeom prst=\"rect\"><a:avLst/></a:prstGeom></pic:spPr></pic:pic></a:graphicData></a:graphic></wp:inline></w:drawing></w:r></w:p>".spec_bytes()
}

/// Builds an inline picture paragraph; see [`spec_drawing`]. `name` is
/// written as given (callers pass a safe literal).
pub fn build_drawing_paragraph(rid: &str, cx: u64, cy: u64, docpr_id: u32, name: &str) -> (r: Vec<u8>)
    ensures
        r@ == spec_drawing(rid.spec_bytes(), cx, cy, docpr_id, name.spec_bytes()),
{
    let mut o = str_bytes("<w:p><w:r><w:drawing><wp:inline distT=\"0\" distB=\"0\" distL=\"0\" distR=\"0\" xmlns:wp=\"http://schemas.openxmlformats.org/drawingml/2006/wordprocessingDrawing\"><wp:extent cx=\"");
    push_u64(&mut o, cx);
    push_str(&mut o, "\" cy=\"");
    push_u64(&mut o, cy);
    push_str(&mut o, "\"/><wp:effectExtent l=\"0\" t=\"0\" r=\"0\" b=\"0\"/><wp:docPr id=\"");
    push_u64(&mut o, docpr_id as u64);
    push_str(&mut o, "\" name=\"");
    push_str(&mut o, name);
    push_str(&mut o, "\"/><wp:cNvGraphicFramePr><a:graphicFrameLocks xmlns:a=\"http://schemas.openxmlformats.org/drawingml/2006/main\" noChangeAspect=\"1\"/></wp:cNvGraphicFramePr><a:graphic xmlns:a=\"http://schemas.openxmlformats.org/drawingml/2006/main\"><a:graphicData uri=\"http://schemas.openxmlformats.org/drawingml/2006/picture\"><pic:pic xmlns:pic=\"http://schemas.openxmlformats.org/drawingml/2006/picture\"><pic:nvPicPr><pic:cNvPr id=\"");
    push_u64(&mut o, docpr_id as u64);
    push_str(&mut o, "\" name=\"");
    push_str(&mut o, name);
    push_str(&mut o, "\"/><pic:cNvPicPr/></pic:nvPicPr><pic:blipFill><a:blip xmlns:r=\"http://schemas.openxmlformats.org/officeDocument/2006/relationships\" r:embed=\"");
    push_str(&mut o, rid);
    push_str(&mut o, "\"/><a:stretch><a:fillRect/></a:stretch></pic:blipFill><pic:spPr><a:xfrm><a:off x=\"0\" y=\"0\"/><a:ext cx=\"");
    push_u64(&mut o, cx);
    push_str(&mut o, "\" cy=\"");
    push_u64(&mut o, cy);
    push_str(&mut o, "\"/></a:xfrm><a:prstGeom prst=\"rect\"><a:avLst/></a:prstGeom></pic:spPr></pic:pic></a:graphicData></a:graphic></wp:inline></w:drawing></w:r></w:p>");
    o
}

/// The cached text of a table of contents, replaced when Word updates the field.
pub const TOC_SELF_HEAL_TEXT: &'static str = "目录将在打开文档时自动生成（若未生成：全选后按 F9）";

/// A table of contents as one `fldSimple` paragraph: heading levels
/// `1-levels` (clamped to 1..=9), links when `hyperlink`.
pub open spec fn spec_toc(levels: u32, hyperlink: bool) -> Seq<u8> {
    let l: u32 = if levels < 1 { 1 } else if levels > 9 { 9 } else { levels };
    "<w:p><w:fldSimple w:instr=\" TOC \\o &quot;1-".spec_bytes() + dec(l as nat) + "&quot;".spec_bytes()
        + (if hyperlink { " \\h".spec_bytes() } else { seq![] }) + " \\z \\u \"><w:r><w:t>".spec_bytes()
        + TOC_SELF_HEAL_TEXT.spec_bytes() + "</w:t></w:r></w:fldSimple></w:p>".spec_bytes()
}

/// Builds a table-of-contents paragraph; see [`spec_toc`].
pub fn build_toc_paragraph(levels: u32, hyperlink: bool) -> (r: Vec<u8>)
    ensures
        r@ == spec_toc(levels, hyperlink),
{
    let l: u32 = if levels < 1 {
        1
    } else if levels > 9 {
        9
    } else {
        levels
    };
    let mut o = str_bytes("<w:p><w:fldSimple w:instr=\" TOC \\o &quot;1-");
    push_u64(&mut o, l as u64);
    push_str(&mut o, "&quot;");
    if hyperlink {
        push_str(&mut o, " \\h");
    }
    push_str(&mut o, " \\z \\u \"><w:r><w:t>");
    push_str(&mut o, TOC_SELF_HEAL_TEXT);
    push_str(&mut o, "</w:t></w:r></w:fldSimple></w:p>");
    assert(o@ =~= spec_toc(levels, hyperlink));
    o
}

/// The ASCII digits of `s` from `k` on, up to the first other byte.
pub open spec fn digits_from(s: Seq<u8>, k: int) -> int
    decreases s.len() - k,
{
    if k < 0 || k >= s.len() || !crate::bytes_util::is_digit(s[k]) {
        k
    } else {
        digits_from(s, k + 1)
    }
}

/// The number written right after position `k` (its digits parsed as a `u32`; 0 otherwise).
pub open spec fn number_at(s: Seq<u8>, k: int) -> nat {
    match spec_parse_u32(s.subrange(k, digits_from(s, k))) {
        Some(n) => n as nat,
        None => 0,
    }
}

/// The largest number written right after an occurrence of `pat` from `from` on.
pub open spec fn max_after(s: Seq<u8>, pat: Seq<u8>, from: int) -> nat
    decreases s.len() + 1 - from,
{
    if from < 0 || from > s.len() || pat.len() == 0 {
        0
    } else {
        match first_occ(s, pat, from) {
            None => 0,
            Some(p) => {
                proof {
                    lemma_first_occ_range(s, pat, from);
                }
                let v = number_at(s, p + pat.len());
                let rest = max_after(s, pat, p + pat.len());
                if v > rest { v } else { rest }
            },
        }
    }
}


fn max_number_after(s: &[u8], pat: &str) -> (r: u32)
    ensures
        r == max_after(s@, pat.spec_bytes(), 0),
{
    let t = pat.as_bytes();
    if t.len() == 0 {
        return 0;
    }
    let mut from: usize = 0;
    let mut best: u32 = 0;
    let ghost mut acc: nat = 0;
    loop
        invariant
            from <= s@.len(),
            t@ == pat.spec_bytes(),
            t@.len() > 0,
            (if best > max_after(s@, t@, from as int) { best as nat } else { max_after(s@, t@, from as int) })
                == max_after(s@, t@, 0),
        decreases s@.len() - from,
    {
        let f = find_from(s, t, from);
        proof {
            lemma_first_occ(s@, t@, from as int, f);
            lemma_first_occ_range(s@, t@, from as int);
        }
        match f {
            None => {
                return best;
            },
            Some(pos) => {
                let n = s.len();
                let tl = t.len();
                assert(pos + tl <= n);
                let start = pos + tl;
                let mut e = start;
                while e < s.len() && 48 <= s[e] && s[e] <= 57
                    invariant
                        start <= e <= s@.len(),
                        digits_from(s@, e as int) == digits_from(s@, start as int),
                    decreases s@.len() - e,
                {
                    e = e + 1;
                }
                let digits = slice_vec(s, start, e);
                let v: u32 = match parse_u32(digits.as_slice()) {
                    Some(x) => x,
                    None => 0,
                };
                assert(v == number_at(s@, start as int));
                if v > best {
                    best = v;
                }
                from = start;
            },
        }
    }
}

/// The next free drawing ID of a document part: one more than the largest
/// `wp:docPr id` or `pic:cNvPr id` (stops at the largest `u32`).
pub fn next_docpr_id(doc_xml: &[u8]) -> (r: u32)
    ensures
        ({
            let m = if max_after(doc_xml@, "wp:docPr id=\"".spec_bytes(), 0) > max_after(doc_xml@, "pic:cNvPr id=\"".spec_bytes(), 0) {
                max_after(doc_xml@, "wp:docPr id=\"".spec_bytes(), 0)
            } else {
                max_after(doc_xml@, "pic:cNvPr id=\"".spec_bytes(), 0)
            };
            r == if m < u32::MAX { m + 1 } else { u32::MAX as nat }
        }),
{
    let a = max_number_after(doc_xml, "wp:docPr id=\"");
    let b = max_number_after(doc_xml, "pic:cNvPr id=\"");
    let m = if a > b {
        a
    } else {
        b
    };
    if m < u32::MAX {
        m + 1
    } else {
        u32::MAX
    }
}

// ---------------------------------------------------------------------------
// Picture size (EMU)
// ---------------------------------------------------------------------------

/// EMU per pixel (96 dpi).
pub const PX_TO_EMU: u64 = 9525;
/// EMU per twip.
pub const TWIPS_TO_EMU: u64 = 635;

/// The width of a picture without a requested width: its native width,
/// at most the width of the text area, at least 1 EMU.
pub fn native_target_cx(width_px: u32, content_width_twips: u32) -> (r: u64)
    ensures
        ({
            let content = content_width_twips as int * 635;
            let native = width_px as int * 9525;
            let m = if native < content { native } else { content };
            r == if m < 1 { 1 } else { m }
        }),
{
    let content: u64 = content_width_twips as u64 * TWIPS_TO_EMU;
    let native: u64 = width_px as u64 * PX_TO_EMU;
    let m = if native < content {
        native
    } else {
        content
    };
    if m < 1 {
        1
    } else {
        m
    }
}

/// The size of a picture of the given pixels at width `target_cx`: the
/// height keeps the aspect ratio, at least 1 EMU (the largest `u64` at most).
pub fn extent_for_width(target_cx: u64, width_px: u32, height_px: u32) -> (r: (u64, u64))
    requires
        width_px > 0,
    ensures
        r.0 == target_cx,
        ({
            let cy = (target_cx as int * height_px as int) / (width_px as int);
            r.1 == if cy < 1 { 1 } else if cy > u64::MAX { u64::MAX as int } else { cy }
        }),
{
    let a: u128 = target_cx as u128;
    let b: u128 = height_px as u128;
    assert(a * b <= 0xFFFF_FFFF_FFFF_FFFFu128 * 0xFFFF_FFFFu128) by (nonlinear_arith)
        requires
            a <= 0xFFFF_FFFF_FFFF_FFFFu128,
            b <= 0xFFFF_FFFFu128,
    ;
    let cy: u128 = (a * b) / (width_px as u128);
    let cy64: u64 = if cy > u64::MAX as u128 {
        u64::MAX
    } else if cy < 1 {
        1
    } else {
        cy as u64
    };
    (target_cx, cy64)
}

} // verus!
