//! End-to-end checks of the document assembly: the single-line scenario,
//! object numbering, image filters, and streaming equivalence.
use ai_pdf_writer::document::{DocError, Document};
use ai_pdf_writer::image::ImageError;
use ai_pdf_writer::image::Image;
use ai_pdf_writer::page::Page;

fn find(haystack: &[u8], needle: &[u8]) -> Option<usize> {
    if needle.is_empty() || haystack.len() < needle.len() {
        return None;
    }
    (0..=haystack.len() - needle.len()).find(|&i| &haystack[i..i + needle.len()] == needle)
}

fn count(haystack: &[u8], needle: &[u8]) -> usize {
    if needle.is_empty() || haystack.len() < needle.len() {
        return 0;
    }
    (0..=haystack.len() - needle.len())
        .filter(|&i| &haystack[i..i + needle.len()] == needle)
        .count()
}

#[test]
fn single_line_default_font() {
    let mut doc = Document::new();
    let mut page = Page::new(595_000, 842_000);
    page.text("Hello".to_string(), 50_000, 800_000, 12_000);
    doc.add_page(&page);
    let bytes = doc.to_bytes().unwrap();
    assert_eq!(count(&bytes, b"BT /F1 12 Tf 50 800 Td (Hello) Tj ET "), 1);
    assert!(find(&bytes, b"%PDF-1.7").is_some());
    // Five objects: catalog, pages, the built-in font, content, page.
    assert!(find(&bytes, b"xref\n0 6\n").is_some());
}

#[test]
fn object_ids_are_contiguous_from_one() {
    let mut doc = Document::new();
    let mut page = Page::new(595_000, 842_000);
    page.text("a".to_string(), 10_000, 10_000, 10_000);
    doc.add_page(&page);
    doc.add_page(&page);
    let bytes = doc.to_bytes().unwrap();
    // Seven objects in all; each id appears as an object header.
    for id in 1..=7 {
        let head = format!("{} 0 obj", id);
        assert_eq!(count(&bytes, head.as_bytes()), 1, "object {} missing", id);
    }
    assert_eq!(count(&bytes, b"8 0 obj"), 0);
}

#[test]
fn pages_count_matches_kids() {
    let mut doc = Document::new();
    let page = Page::new(595_000, 842_000);
    doc.add_page(&page);
    doc.add_page(&page);
    doc.add_page(&page);
    let bytes = doc.to_bytes().unwrap();
    assert!(find(&bytes, b"/Count 3").is_some());
    assert_eq!(count(&bytes, b"/Parent 2 0 R"), 3);
    assert!(find(&bytes, b"/Kids [5 0 R 7 0 R 9 0 R]").is_some());
}

fn png_bytes() -> Vec<u8> {
    let img = image::RgbImage::from_fn(2, 2, |x, y| image::Rgb([x as u8 * 100, y as u8 * 100, 7]));
    let dynimg = image::DynamicImage::ImageRgb8(img);
    let mut out = std::io::Cursor::new(Vec::new());
    dynimg.write_to(&mut out, image::ImageFormat::Png).unwrap();
    out.into_inner()
}

fn jpeg_bytes() -> Vec<u8> {
    let img = image::RgbImage::from_fn(2, 2, |_, _| image::Rgb([200, 100, 50]));
    let dynimg = image::DynamicImage::ImageRgb8(img);
    let mut out = std::io::Cursor::new(Vec::new());
    dynimg.write_to(&mut out, image::ImageFormat::Jpeg).unwrap();
    out.into_inner()
}

#[test]
fn jpeg_passes_through_png_recompresses() {
    let jb = jpeg_bytes();
    let jpeg = Image::from_bytes(&jb).unwrap();
    assert_eq!(jpeg.filter.as_deref(), Some("DCTDecode"));
    assert_eq!(jpeg.data, jb);

    let pb = png_bytes();
    let png = Image::from_bytes(&pb).unwrap();
    assert_eq!(png.filter.as_deref(), Some("FlateDecode"));
    let raw = png.data.clone();

    let mut doc = Document::new();
    let ji = doc.add_image(jpeg);
    let pi = doc.add_image(png);
    let mut page = Page::new(595_000, 842_000);
    page.draw_image(ji, 10_000, 10_000, 100_000, 100_000);
    page.draw_image(pi, 10_000, 200_000, 100_000, 100_000);
    doc.add_page(&page);
    let bytes = doc.to_bytes().unwrap();

    // The JPEG stream passes through byte for byte.
    assert!(find(&bytes, b"/Filter /DCTDecode").is_some());
    assert!(find(&bytes, &jb).is_some());
    // The PNG is Flate-compressed; decompressing gives the raw samples.
    assert!(find(&bytes, b"/Filter /FlateDecode").is_some());
    let deflated = {
        let mut enc = flate2::write::ZlibEncoder::new(Vec::new(), flate2::Compression::default());
        std::io::Write::write_all(&mut enc, &raw).unwrap();
        enc.finish().unwrap()
    };
    let pos = find(&bytes, &deflated).expect("compressed samples embedded");
    let mut dec = flate2::read::ZlibDecoder::new(&bytes[pos..pos + deflated.len()]);
    let mut back = Vec::new();
    std::io::Read::read_to_end(&mut dec, &mut back).unwrap();
    assert_eq!(back, raw);
}

#[test]
fn unknown_image_bytes_are_rejected() {
    match Image::from_bytes(&vec![1, 2, 3, 4, 5, 6, 7, 8, 9]) {
        Err(e) => assert_eq!(e, ImageError::UnknownFormat),
        Ok(_) => panic!("garbage bytes must be rejected"),
    }
    // A JPEG signature over garbage is malformed.
    match Image::from_bytes(&vec![0xff, 0xd8, 0xff, 0, 0, 0]) {
        Err(e) => assert_eq!(e, ImageError::Malformed),
        Ok(_) => panic!("a truncated JPEG must be rejected"),
    }
}

#[test]
fn streaming_matches_buffered_text() {
    let mut pages = Vec::new();
    for i in 0..3 {
        let mut p = Page::new(595_000, 842_000);
        p.text(format!("Page {}", i + 1), 50_000, 800_000, 12_000);
        pages.push(p);
    }

    let mut buffered = Document::new();
    for p in &pages {
        buffered.add_page(p);
    }
    let b1 = buffered.to_bytes().unwrap();

    let mut streaming = Document::streaming();
    for p in &pages {
        streaming.add_page(p);
    }
    let b2 = streaming.finalize().unwrap();

    for (b, mode) in [(&b1, "buffered"), (&b2, "streaming")] {
        assert!(find(b, b"%PDF-1.7").is_some(), "{} header", mode);
        assert!(b.ends_with(b"%%EOF\n"), "{} trailer", mode);
        for i in 0..3 {
            let op = format!("BT /F1 12 Tf 50 800 Td (Page {}) Tj ET ", i + 1);
            assert_eq!(count(b, op.as_bytes()), 1, "{} page {}", mode, i + 1);
        }
        assert!(find(b, b"/Count 3").is_some(), "{} count", mode);
    }

    // The streaming file writes the pages tree last: object 2 appears
    // after the last page object in the byte stream.
    let pages_pos = find(&b2, b"2 0 obj").unwrap();
    let last_page_pos = find(&b2, b"9 0 obj").unwrap();
    assert!(pages_pos > last_page_pos);
}

#[test]
fn terminal_calls_respect_the_mode() {
    let mut buffered = Document::new();
    assert_eq!(buffered.finalize().unwrap_err(), DocError::WrongMode);
    let streaming = Document::streaming();
    assert_eq!(streaming.to_bytes().unwrap_err(), DocError::WrongMode);
}

#[test]
fn exotic_filter_is_relabelled_as_flate() {
    // A hand-built image whose filter is neither DCT nor Flate: the body is
    // deflated, so the emitted label must say FlateDecode.
    let img = Image {
        width: 1,
        height: 1,
        color_space: "DeviceRGB".to_owned(),
        bits_per_component: 8,
        data: vec![1, 2, 3],
        filter: Some("RunLengthDecode".to_owned()),
    };
    let mut doc = Document::new();
    doc.add_image(img);
    let mut page = Page::new(100, 100);
    page.draw_image(0, 10, 10, 50, 50);
    doc.add_page(&page);
    let bytes = doc.to_bytes().unwrap();
    assert!(find(&bytes, b"/Filter /FlateDecode").is_some());
    assert!(find(&bytes, b"/Filter /RunLengthDecode").is_none());
    let deflated = {
        let mut enc = flate2::write::ZlibEncoder::new(Vec::new(), flate2::Compression::default());
        std::io::Write::write_all(&mut enc, &[1, 2, 3]).unwrap();
        enc.finish().unwrap()
    };
    assert!(find(&bytes, &deflated).is_some());
}
