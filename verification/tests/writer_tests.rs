//! Byte-level checks of the object serializer, the writer framing, and the
//! escape round trip.
use ai_pdf_writer::writer::{PdfObject, PdfWriter, escape_string, unescape_string};

fn find(haystack: &[u8], needle: &[u8]) -> Option<usize> {
    if needle.is_empty() || haystack.len() < needle.len() {
        return None;
    }
    (0..=haystack.len() - needle.len()).find(|&i| &haystack[i..i + needle.len()] == needle)
}

fn count(haystack: &[u8], needle: &[u8]) -> usize {
    if needle.is_empty() || haystack.len() < needle.len() {
        return 0;
    }
    (0..=haystack.len() - needle.len())
        .filter(|&i| &haystack[i..i + needle.len()] == needle)
        .count()
}

fn serialize(o: &PdfObject) -> Vec<u8> {
    let mut out = Vec::new();
    o.serialize_into(&mut out);
    out
}

#[test]
fn serializes_scalars() {
    assert_eq!(serialize(&PdfObject::Null), b"null");
    assert_eq!(serialize(&PdfObject::Boolean(true)), b"true");
    assert_eq!(serialize(&PdfObject::Boolean(false)), b"false");
    assert_eq!(serialize(&PdfObject::Integer(-42)), b"-42");
    assert_eq!(serialize(&PdfObject::Integer(0)), b"0");
    // Reals are fixed-point milli-units: 12500 is 12.5, 595000 is 595.
    assert_eq!(serialize(&PdfObject::Real(12_500)), b"12.5");
    assert_eq!(serialize(&PdfObject::Real(595_000)), b"595");
    assert_eq!(serialize(&PdfObject::Real(-500)), b"-0.5");
    assert_eq!(serialize(&PdfObject::Name("Type".to_string())), b"/Type");
    assert_eq!(serialize(&PdfObject::Reference(7)), b"7 0 R");
}

#[test]
fn serializes_strings_with_escapes() {
    let o = PdfObject::Text("a(b)c\\d".to_string());
    assert_eq!(serialize(&o), b"(a\\(b\\)c\\\\d)");
}

#[test]
fn serializes_containers() {
    let arr = PdfObject::Array(vec![PdfObject::Integer(1), PdfObject::Integer(2)]);
    assert_eq!(serialize(&arr), b"[1 2]");
    let dict = PdfObject::Dictionary(vec![
        ("Type".to_string(), PdfObject::Name("Catalog".to_string())),
        ("Pages".to_string(), PdfObject::Reference(2)),
    ]);
    assert_eq!(serialize(&dict), b"<< /Type /Catalog /Pages 2 0 R >>");
}

#[test]
fn serializes_streams_with_length() {
    let o = PdfObject::Stream(
        vec![("Length1".to_string(), PdfObject::Integer(3))],
        vec![b'a', b'b', b'c'],
    );
    assert_eq!(
        serialize(&o),
        b"<< /Length1 3 /Length 3 >>\nstream\nabc\nendstream"
    );
}

#[test]
fn escape_round_trip() {
    for s in ["", "plain", "a(b)c", "\\\\", "()()", "mixed \\ ( ) text"] {
        let esc = escape_string(s);
        assert_eq!(unescape_string(&esc), s);
    }
}

#[test]
fn writer_header_and_trailer_framing() {
    let mut w = PdfWriter::new();
    w.write_object(1, &PdfObject::Null);
    w.write_xref_and_trailer(1);
    let bytes = w.buf;
    assert_eq!(&bytes[0..9], b"%PDF-1.7\n");
    assert_eq!(bytes[9], b'%');
    assert!(bytes[10] >= 0x80 && bytes[11] >= 0x80 && bytes[12] >= 0x80 && bytes[13] >= 0x80);
    assert!(bytes.ends_with(b"%%EOF\n"));
    let sx = find(&bytes, b"startxref").unwrap();
    assert_eq!(bytes[sx - 1], b'\n');
}

#[test]
fn writer_xref_offsets_point_at_objects() {
    let mut w = PdfWriter::new();
    w.write_object(1, &PdfObject::Null);
    w.write_object(2, &PdfObject::Integer(9));
    w.write_object(3, &PdfObject::Boolean(true));
    let entries: Vec<(u32, u64)> = w.xref.clone();
    w.write_xref_and_trailer(1);
    let bytes = w.buf;
    for (id, off) in entries {
        let head = format!("{} 0 obj\n", id);
        assert_eq!(
            &bytes[off as usize..off as usize + head.len()],
            head.as_bytes()
        );
    }
    // Entry 0 of the table is the free-list head.
    assert!(find(&bytes, b"xref\n0 4\n0000000000 65535 f \n").is_some());
}

#[test]
fn writer_sorts_xref_by_id() {
    let mut w = PdfWriter::new();
    w.write_object(2, &PdfObject::Null);
    w.write_object(1, &PdfObject::Null);
    w.write_object(3, &PdfObject::Null);
    w.write_xref_and_trailer(1);
    let ids: Vec<u32> = w.xref.iter().map(|e| e.0).collect();
    assert_eq!(ids, vec![1, 2, 3]);
}

#[test]
fn serializes_extreme_integers() {
    assert_eq!(
        serialize(&PdfObject::Integer(i64::MIN)),
        b"-9223372036854775808"
    );
    assert_eq!(
        serialize(&PdfObject::Integer(i64::MAX)),
        b"9223372036854775807"
    );
}
