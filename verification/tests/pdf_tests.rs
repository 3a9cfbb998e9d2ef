use std::io::Cursor;

use aircard::pdf::{pdf_from_compressed, png_to_pdf, PdfError};
use image::{DynamicImage, ImageFormat};

fn contains(hay: &[u8], needle: &[u8]) -> bool {
    hay.windows(needle.len()).any(|w| w == needle)
}

fn find(hay: &[u8], needle: &[u8]) -> usize {
    hay.windows(needle.len()).position(|w| w == needle).expect("present")
}

#[test]
fn test_png_to_pdf_conversion() {
    let dummy = DynamicImage::new_rgb8(10, 10);
    let mut png = Vec::new();
    dummy.write_to(&mut Cursor::new(&mut png), ImageFormat::Png).unwrap();

    let pdf = png_to_pdf(&png).map_err(|e| e.message()).expect("png_to_pdf failed");
    assert!(pdf.starts_with(b"%PDF-1.4"));
    assert!(pdf.ends_with(b"%%EOF\n"));
    let pdf_str = String::from_utf8_lossy(&pdf);
    assert!(pdf_str.contains("/FlateDecode"));
    assert!(pdf_str.contains("/MediaBox [0 0 10 10]"));
    assert!(pdf_str.contains("xref"));
}

#[test]
fn pdf_carries_the_compressed_samples() {
    let img = DynamicImage::new_rgb8(3, 2);
    let mut png = Vec::new();
    img.write_to(&mut Cursor::new(&mut png), ImageFormat::Png).unwrap();
    let pdf = png_to_pdf(&png).map_err(|e| e.message()).expect("pdf");
    let raw = vec![0u8; 3 * 2 * 3];
    let compressed = miniz_oxide::deflate::compress_to_vec_zlib(&raw, 6);
    assert!(contains(&pdf, &compressed));
    let head = format!("/Width 3 /Height 2 /ColorSpace /DeviceRGB /BitsPerComponent 8 /Filter /FlateDecode /Length {} >>", compressed.len());
    assert!(contains(&pdf, head.as_bytes()));
    assert_eq!(pdf, pdf_from_compressed(3, 2, &compressed));
}

#[test]
fn xref_offsets_point_at_the_objects() {
    let pdf = pdf_from_compressed(7, 5, b"\x78\x9c\x01\x02");
    let xref = find(&pdf, b"xref\n0 6\n");
    let tail = String::from_utf8_lossy(&pdf[xref..]).to_string();
    let lines: Vec<&str> = tail.lines().collect();
    assert_eq!(lines[2], "0000000000 65535 f ");
    for k in 0..5 {
        let entry = lines[3 + k];
        assert!(entry.ends_with(" 00000 n "));
        let off: usize = entry[..10].parse().unwrap();
        let obj = format!("{} 0 obj\n", k + 1);
        assert!(pdf[off..].starts_with(obj.as_bytes()));
    }
    let start = tail.find("startxref\n").unwrap() + "startxref\n".len();
    let at: usize = tail[start..].lines().next().unwrap().parse().unwrap();
    assert_eq!(at, xref);
    let contents = "q\n7 0 0 5 0 0 cm\n/Im0 Do\nQ\n";
    let obj4 = format!("4 0 obj\n<< /Length {} >>\nstream\n{}endstream\nendobj\n", contents.len(), contents);
    assert!(contains(&pdf, obj4.as_bytes()));
}

#[test]
fn undecodable_bytes_give_no_pdf() {
    match png_to_pdf(b"not an image") {
        Err(e @ PdfError::Decode(_)) => assert!(e.message().starts_with("PDF 转换前图像解码失败")),
        Ok(_) => panic!("expected a decoding error"),
    }
}
