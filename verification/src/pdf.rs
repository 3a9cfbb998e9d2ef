//! The one-page PDF that carries a card image: the picture as an RGB image
//! XObject compressed with zlib, drawn over the whole page.

use vstd::prelude::*;

use crate::text::{
    decimal, lemma_decimal_len_u32, lemma_utf8_len_bound, push_bytes, push_decimal, push_str,
    push_zero_padded, string_of, zero_padded,
};
use vstd::utf8::encode_utf8;

verus! {

// ---------------------------------------------------------------------------
// Decoding and compressing (the `image` and `miniz_oxide` crates)
// ---------------------------------------------------------------------------

#[verifier::external_type_specification]
#[verifier::external_body]
pub struct ExImageError(image::ImageError);

/// What `image::load_from_memory` followed by `DynamicImage::to_rgb8` gives
/// for these bytes: width, height and the RGB samples row by row; `None`
/// when the bytes are not decoded as an image.
pub uninterp spec fn rgb_image_of(encoded: Seq<u8>) -> Option<(u32, u32, Seq<u8>)>;

/// What `miniz_oxide::deflate::compress_to_vec_zlib` returns for `data` at
/// compression level `level`.
pub uninterp spec fn zlib_compressed(data: Seq<u8>, level: u8) -> Seq<u8>;

/// Calls `image::load_from_memory`, then `DynamicImage::to_rgb8`,
/// `ImageBuffer::width`, `ImageBuffer::height` and `ImageBuffer::into_raw`.
/// Trusted: the result is taken to be `rgb_image_of(encoded)`.
#[verifier::external_body]
fn decode_rgb(encoded: &[u8]) -> (r: Result<(u32, u32, Vec<u8>), image::ImageError>)
    ensures
        match r {
            Ok((w, h, raw)) => rgb_image_of(encoded@) == Some((w, h, raw@)),
            Err(_) => rgb_image_of(encoded@) is None,
        },
{
    let img = image::load_from_memory(encoded)?;
    let rgb = img.to_rgb8();
    let (w, h) = (rgb.width(), rgb.height());
    Ok((w, h, rgb.into_raw()))
}

/// Calls `miniz_oxide::deflate::compress_to_vec_zlib`. Trusted: the result
/// is taken to be `zlib_compressed(data, level)`.
#[verifier::external_body]
fn zlib_compress(data: &[u8], level: u8) -> (r: Vec<u8>)
    ensures
        r@ == zlib_compressed(data@, level),
{
    miniz_oxide::deflate::compress_to_vec_zlib(data, level)
}

/// The message of an image error (its `Display`).
#[verifier::external_body]
fn image_error_text(e: &image::ImageError) -> String {
    e.to_string()
}

/// Why no PDF was made.
#[derive(Debug)]
pub enum PdfError {
    /// The bytes could not be decoded as an image.
    Decode(image::ImageError),
}

impl PdfError {
    /// The message shown to the user: a fixed sentence followed by the
    /// image error's own message.
    pub fn message(&self) -> (m: String)
        ensures
            crate::text::seq_starts_with(m@, "PDF 转换前图像解码失败: "@),
    {
        match self {
            PdfError::Decode(e) => {
                let mut v: Vec<char> = Vec::new();
                push_str(&mut v, "PDF 转换前图像解码失败: ");
                let ghost head = v@;
                push_str(&mut v, image_error_text(e).as_str());
                assert(v@.subrange(0, head.len() as int) =~= head);
                string_of(v.as_slice())
            },
        }
    }
}

// ---------------------------------------------------------------------------
// The document
// ---------------------------------------------------------------------------

/// `%PDF-1.4`, then a comment of four high bytes that marks the file as binary.
pub open spec fn pdf_header() -> Seq<u8> {
    encode_utf8("%PDF-1.4\n%"@) + seq![0xe2u8, 0xe3u8, 0xcfu8, 0xd3u8] + encode_utf8("\n"@)
}

/// Object 1: the document catalog.
pub open spec fn catalog_obj() -> Seq<char> {
    "1 0 obj\n<< /Type /Catalog /Pages 2 0 R >>\nendobj\n"@
}

/// Object 2: the page tree with its one page.
pub open spec fn pages_obj() -> Seq<char> {
    "2 0 obj\n<< /Type /Pages /Kids [3 0 R] /Count 1 >>\nendobj\n"@
}

/// Object 3: the page, as large as the image.
pub open spec fn page_obj(w: nat, h: nat) -> Seq<char> {
    "3 0 obj\n<< /Type /Page /Parent 2 0 R /MediaBox [0 0 "@ + decimal(w) + " "@ + decimal(h)
        + "] /Contents 4 0 R /Resources << /XObject << /Im0 5 0 R >> >> >>\nendobj\n"@
}

/// The page's drawing commands: the image scaled to the page.
pub open spec fn content_stream(w: nat, h: nat) -> Seq<char> {
    "q\n"@ + decimal(w) + " 0 0 "@ + decimal(h) + " 0 0 cm\n/Im0 Do\nQ\n"@
}

/// Object 4: the page's content stream.
pub open spec fn contents_obj(w: nat, h: nat) -> Seq<char> {
    "4 0 obj\n<< /Length "@ + decimal(encode_utf8(content_stream(w, h)).len()) + " >>\nstream\n"@
        + content_stream(w, h) + "endstream\nendobj\n"@
}

/// Object 5 up to its stream data: the image of `w` by `h` pixels with `n` bytes of data.
pub open spec fn image_obj_head(w: nat, h: nat, n: nat) -> Seq<char> {
    "5 0 obj\n<< /Type /XObject /Subtype /Image /Width "@ + decimal(w) + " /Height "@ + decimal(h)
        + " /ColorSpace /DeviceRGB /BitsPerComponent 8 /Filter /FlateDecode /Length "@ + decimal(n)
        + " >>\nstream\n"@
}

/// What follows the image data.
pub open spec fn image_obj_tail() -> Seq<char> {
    "\nendstream\nendobj\n"@
}

/// The five objects, as bytes, in order (the image object with its data).
pub open spec fn pdf_objects(w: nat, h: nat, data: Seq<u8>) -> Seq<Seq<u8>> {
    seq![
        encode_utf8(catalog_obj()),
        encode_utf8(pages_obj()),
        encode_utf8(page_obj(w, h)),
        encode_utf8(contents_obj(w, h)),
        encode_utf8(image_obj_head(w, h, data.len())) + data + encode_utf8(image_obj_tail()),
    ]
}

/// Where object `k` (counted from 0) begins: after the header and the objects before it.
pub open spec fn object_offset(objs: Seq<Seq<u8>>, k: int) -> nat
    decreases k,
{
    if k <= 0 {
        pdf_header().len()
    } else {
        object_offset(objs, k - 1) + objs[k - 1].len()
    }
}

/// The header and the objects.
pub open spec fn objects_bytes(objs: Seq<Seq<u8>>, k: int) -> Seq<u8>
    decreases k,
{
    if k <= 0 {
        pdf_header()
    } else {
        objects_bytes(objs, k - 1) + objs[k - 1]
    }
}

/// The cross-reference lines of the first `k` objects.
pub open spec fn xref_entries(objs: Seq<Seq<u8>>, k: int) -> Seq<u8>
    decreases k,
{
    if k <= 0 {
        seq![]
    } else {
        xref_entries(objs, k - 1) + encode_utf8(
            zero_padded(object_offset(objs, k - 1), 10) + " 00000 n \n"@,
        )
    }
}

/// The cross-reference table and the trailer, for a table at byte `at`.
pub open spec fn pdf_tail(objs: Seq<Seq<u8>>, at: nat) -> Seq<u8> {
    encode_utf8("xref\n0 "@ + decimal(6) + "\n"@) + encode_utf8("0000000000 65535 f \n"@)
        + xref_entries(objs, 5) + encode_utf8(
        "trailer\n<< /Size "@ + decimal(6) + " /Root 1 0 R >>\nstartxref\n"@ + decimal(at)
            + "\n%%EOF\n"@,
    )
}

/// The PDF document for a `w` by `h` image whose compressed samples are `data`.
pub open spec fn pdf_document(w: nat, h: nat, data: Seq<u8>) -> Seq<u8> {
    let objs = pdf_objects(w, h, data);
    objects_bytes(objs, 5) + pdf_tail(objs, objects_bytes(objs, 5).len())
}

/// Appends the UTF-8 bytes of a character sequence.
fn push_text(out: &mut Vec<u8>, v: &[char])
    ensures
        final(out)@ == old(out)@ + encode_utf8(v@),
{
    let s = string_of(v);
    push_bytes(out, s.as_str().as_bytes());
}

/// Appends the UTF-8 bytes of a string.
fn push_text_str(out: &mut Vec<u8>, s: &str)
    ensures
        final(out)@ == old(out)@ + encode_utf8(s@),
{
    push_bytes(out, s.as_bytes());
}

proof fn lemma_objects_bytes_len(objs: Seq<Seq<u8>>, k: int)
    requires
        0 <= k <= objs.len(),
    ensures
        objects_bytes(objs, k).len() == object_offset(objs, k),
    decreases k,
{
    if k > 0 {
        lemma_objects_bytes_len(objs, k - 1);
    }
}

/// Writes the PDF document for an image of `width` by `height` pixels whose
/// zlib-compressed RGB samples are `compressed`.
pub fn pdf_from_compressed(width: u32, height: u32, compressed: &[u8]) -> (pdf: Vec<u8>)
    ensures
        pdf@ == pdf_document(width as nat, height as nat, compressed@),
{
    let ghost objs = pdf_objects(width as nat, height as nat, compressed@);
    let mut pdf: Vec<u8> = Vec::new();
    push_text_str(&mut pdf, "%PDF-1.4\n%");
    pdf.push(0xe2u8);
    pdf.push(0xe3u8);
    pdf.push(0xcfu8);
    pdf.push(0xd3u8);
    push_text_str(&mut pdf, "\n");
    assert(pdf@ =~= pdf_header());
    let mut offsets: Vec<usize> = Vec::new();

    offsets.push(pdf.len());
    push_text_str(&mut pdf, "1 0 obj\n<< /Type /Catalog /Pages 2 0 R >>\nendobj\n");
    assert(objects_bytes(objs, 1) == objects_bytes(objs, 0) + objs[0]);
    assert(pdf@ =~= objects_bytes(objs, 1));

    offsets.push(pdf.len());
    push_text_str(&mut pdf, "2 0 obj\n<< /Type /Pages /Kids [3 0 R] /Count 1 >>\nendobj\n");
    assert(pdf@ =~= objects_bytes(objs, 2));

    offsets.push(pdf.len());
    let mut page: Vec<char> = Vec::new();
    push_str(&mut page, "3 0 obj\n<< /Type /Page /Parent 2 0 R /MediaBox [0 0 ");
    push_decimal(&mut page, width as u64);
    push_str(&mut page, " ");
    push_decimal(&mut page, height as u64);
    push_str(
        &mut page,
        "] /Contents 4 0 R /Resources << /XObject << /Im0 5 0 R >> >> >>\nendobj\n",
    );
    assert(page@ =~= page_obj(width as nat, height as nat));
    push_text(&mut pdf, page.as_slice());
    assert(pdf@ =~= objects_bytes(objs, 3));

    offsets.push(pdf.len());
    let mut content: Vec<char> = Vec::new();
    push_str(&mut content, "q\n");
    push_decimal(&mut content, width as u64);
    push_str(&mut content, " 0 0 ");
    push_decimal(&mut content, height as u64);
    push_str(&mut content, " 0 0 cm\n/Im0 Do\nQ\n");
    assert(content@ =~= content_stream(width as nat, height as nat));
    let content_s = string_of(content.as_slice());
    proof {
        reveal_strlit("q\n");
        reveal_strlit(" 0 0 ");
        reveal_strlit(" 0 0 cm\n/Im0 Do\nQ\n");
        lemma_decimal_len_u32(width);
        lemma_decimal_len_u32(height);
        lemma_utf8_len_bound(content@);
    }
    let content_len = content_s.as_str().len();
    let mut contents: Vec<char> = Vec::new();
    push_str(&mut contents, "4 0 obj\n<< /Length ");
    push_decimal(&mut contents, content_len as u64);
    push_str(&mut contents, " >>\nstream\n");
    push_str(&mut contents, content_s.as_str());
    push_str(&mut contents, "endstream\nendobj\n");
    assert(contents@ =~= contents_obj(width as nat, height as nat));
    push_text(&mut pdf, contents.as_slice());
    assert(pdf@ =~= objects_bytes(objs, 4));

    offsets.push(pdf.len());
    let mut head: Vec<char> = Vec::new();
    push_str(&mut head, "5 0 obj\n<< /Type /XObject /Subtype /Image /Width ");
    push_decimal(&mut head, width as u64);
    push_str(&mut head, " /Height ");
    push_decimal(&mut head, height as u64);
    push_str(
        &mut head,
        " /ColorSpace /DeviceRGB /BitsPerComponent 8 /Filter /FlateDecode /Length ",
    );
    push_decimal(&mut head, compressed.len() as u64);
    push_str(&mut head, " >>\nstream\n");
    assert(head@ =~= image_obj_head(width as nat, height as nat, compressed@.len()));
    push_text(&mut pdf, head.as_slice());
    push_bytes(&mut pdf, compressed);
    push_text_str(&mut pdf, "\nendstream\nendobj\n");
    assert(pdf@ =~= objects_bytes(objs, 5));
    proof {
        lemma_objects_bytes_len(objs, 0);
        lemma_objects_bytes_len(objs, 1);
        lemma_objects_bytes_len(objs, 2);
        lemma_objects_bytes_len(objs, 3);
        lemma_objects_bytes_len(objs, 4);
    }
    assert(offsets@.len() == 5);

    let xref_offset = pdf.len();
    let ghost body = pdf@;
    let mut x: Vec<char> = Vec::new();
    push_str(&mut x, "xref\n0 ");
    push_decimal(&mut x, 6);
    push_str(&mut x, "\n");
    push_text(&mut pdf, x.as_slice());
    push_text_str(&mut pdf, "0000000000 65535 f \n");
    let ghost before_entries = pdf@;
    let mut k: usize = 0;
    while k < 5
        invariant
            k <= 5,
            offsets@.len() == 5,
            forall|j: int| 0 <= j < 5 ==> #[trigger] offsets@[j] == object_offset(objs, j),
            pdf@ == before_entries + xref_entries(objs, k as int),
        decreases 5 - k,
    {
        let mut e: Vec<char> = Vec::new();
        push_zero_padded(&mut e, offsets[k] as u64, 10);
        push_str(&mut e, " 00000 n \n");
        push_text(&mut pdf, e.as_slice());
        k = k + 1;
        assert(pdf@ =~= before_entries + xref_entries(objs, k as int));
    }
    let mut t: Vec<char> = Vec::new();
    push_str(&mut t, "trailer\n<< /Size ");
    push_decimal(&mut t, 6);
    push_str(&mut t, " /Root 1 0 R >>\nstartxref\n");
    push_decimal(&mut t, xref_offset as u64);
    push_str(&mut t, "\n%%EOF\n");
    push_text(&mut pdf, t.as_slice());
    assert(pdf@ =~= pdf_document(width as nat, height as nat, compressed@));
    pdf
}

/// What `png_to_pdf` gives for these bytes: the PDF of the decoded image
/// with its samples compressed at level 6, or `None` when decoding fails.
pub open spec fn pdf_of_image(encoded: Seq<u8>) -> Option<Seq<u8>> {
    match rgb_image_of(encoded) {
        Some((w, h, raw)) => Some(pdf_document(w as nat, h as nat, zlib_compressed(raw, 6))),
        None => None,
    }
}

/// Converts an encoded image (a PNG in practice) to the one-page PDF used
/// as card artwork.
pub fn png_to_pdf(png_bytes: &[u8]) -> (r: Result<Vec<u8>, PdfError>)
    ensures
        match r {
            Ok(pdf) => pdf_of_image(png_bytes@) == Some(pdf@),
            Err(_) => pdf_of_image(png_bytes@) is None,
        },
{
    match decode_rgb(png_bytes) {
        Ok((w, h, raw)) => {
            let compressed = zlib_compress(raw.as_slice(), 6);
            Ok(pdf_from_compressed(w, h, compressed.as_slice()))
        },
        Err(e) => Err(PdfError::Decode(e)),
    }
}


// ---------------------------------------------------------------------------
// What every document satisfies
// ---------------------------------------------------------------------------

proof fn lemma_encode_concat(a: Seq<char>, b: Seq<char>)
    ensures
        encode_utf8(a + b) == encode_utf8(a) + encode_utf8(b),
    decreases a.len(),
{
    if a.len() > 0 {
        assert((a + b).drop_first() =~= a.drop_first() + b);
        lemma_encode_concat(a.drop_first(), b);
        assert((a + b)[0] == a[0]);
        assert(encode_utf8(a + b) =~= encode_utf8(a) + encode_utf8(b));
    } else {
        assert(a + b =~= b);
        assert(encode_utf8(a) =~= Seq::<u8>::empty());
        assert(encode_utf8(a) + encode_utf8(b) =~= encode_utf8(b));
    }
}

proof fn lemma_prefix_kept(objs: Seq<Seq<u8>>, k: int, n: int)
    requires
        0 <= k <= n <= objs.len(),
    ensures
        objects_bytes(objs, k).len() <= objects_bytes(objs, n).len(),
        objects_bytes(objs, n).subrange(0, objects_bytes(objs, k).len() as int) == objects_bytes(
            objs,
            k,
        ),
    decreases n,
{
    if n > k {
        lemma_prefix_kept(objs, k, n - 1);
        let before = objects_bytes(objs, n - 1);
        assert(objects_bytes(objs, n).subrange(0, before.len() as int) =~= before);
        assert(objects_bytes(objs, n).subrange(0, objects_bytes(objs, k).len() as int)
            =~= before.subrange(0, objects_bytes(objs, k).len() as int));
    } else {
        assert(objects_bytes(objs, n).subrange(0, objects_bytes(objs, n).len() as int)
            =~= objects_bytes(objs, n));
    }
}

/// Every document the converter writes is laid out as its cross-reference
/// table says: it begins with the `%PDF-1.4` header and ends with `%%EOF`,
/// the bytes of object `k` stand at the offset recorded for it, and the
/// `startxref` value is the position of the `xref` table.
pub proof fn lemma_pdf_layout(w: nat, h: nat, data: Seq<u8>)
    ensures
        ({
            let doc = pdf_document(w, h, data);
            let objs = pdf_objects(w, h, data);
            let at = objects_bytes(objs, 5).len();
            &&& doc.subrange(0, pdf_header().len() as int) == pdf_header()
            &&& seq_ends_bytes(doc, encode_utf8("\n%%EOF\n"@))
            &&& forall|k: int|
                0 <= k < 5 ==> doc.subrange(
                    #[trigger] object_offset(objs, k) as int,
                    (object_offset(objs, k) + objs[k].len()) as int,
                ) == objs[k]
            &&& doc.subrange(at as int, (at + encode_utf8("xref\n0 "@).len()) as int)
                == encode_utf8("xref\n0 "@)
        }),
{
    let doc = pdf_document(w, h, data);
    let objs = pdf_objects(w, h, data);
    let body = objects_bytes(objs, 5);
    let at = body.len();
    let tail = pdf_tail(objs, at);
    assert(doc == body + tail);
    lemma_prefix_kept(objs, 0, 5);
    assert(doc.subrange(0, pdf_header().len() as int) =~= body.subrange(
        0,
        pdf_header().len() as int,
    ));
    assert forall|k: int| 0 <= k < 5 implies doc.subrange(
        #[trigger] object_offset(objs, k) as int,
        (object_offset(objs, k) + objs[k].len()) as int,
    ) == objs[k] by {
        lemma_prefix_kept(objs, k + 1, 5);
        lemma_objects_bytes_len(objs, k);
        lemma_objects_bytes_len(objs, k + 1);
        let upto = objects_bytes(objs, k + 1);
        assert(upto == objects_bytes(objs, k) + objs[k]);
        assert(doc.subrange(object_offset(objs, k) as int, (object_offset(objs, k) + objs[k].len()) as int)
            =~= upto.subrange(object_offset(objs, k) as int, upto.len() as int));
        assert(upto.subrange(object_offset(objs, k) as int, upto.len() as int) =~= objs[k]);
    }
    let x1 = "xref\n0 "@;
    lemma_encode_concat(x1 + decimal(6), "\n"@);
    lemma_encode_concat(x1, decimal(6));
    assert(encode_utf8("xref\n0 "@ + decimal(6) + "\n"@) == encode_utf8(x1) + encode_utf8(
        decimal(6),
    ) + encode_utf8("\n"@));
    assert(doc.subrange(at as int, (at + encode_utf8(x1).len()) as int) =~= encode_utf8(x1));
    let last_text = "trailer\n<< /Size "@ + decimal(6) + " /Root 1 0 R >>\nstartxref\n"@ + decimal(
        at,
    );
    lemma_encode_concat(last_text, "\n%%EOF\n"@);
    assert(seq_ends_bytes(doc, encode_utf8("\n%%EOF\n"@))) by {
        let e = encode_utf8("\n%%EOF\n"@);
        assert(doc.subrange(doc.len() - e.len(), doc.len() as int) =~= e);
    }
}

/// `s` ends with the bytes `p`.
pub open spec fn seq_ends_bytes(s: Seq<u8>, p: Seq<u8>) -> bool {
    p.len() <= s.len() && s.subrange(s.len() - p.len(), s.len() as int) == p
}

} // verus!
