//! Layout-engine checks with a real (hand-assembled) TrueType face: text
//! measurement, column splitting across pages with page numbers, table row
//! splitting, and custom-font embedding with subsetting.
use ai_pdf_writer::document::{paginate, Document};
use ai_pdf_writer::layout::SplitAction;
use ai_pdf_writer::text::{calculate_text_lines, split_text_at_lines};
use ai_pdf_writer::font::Font;
use ai_pdf_writer::layout::{LayoutNode, PageContext};
use ai_pdf_writer::page::Page;
use ai_pdf_writer::table::{Table, TableColumn, TextAlign};

fn be16(v: &mut Vec<u8>, x: u16) {
    v.extend_from_slice(&x.to_be_bytes());
}
fn be32(v: &mut Vec<u8>, x: u32) {
    v.extend_from_slice(&x.to_be_bytes());
}

/// A minimal TrueType face: units per em 1000, sixteen blank glyphs, a
/// format-4 cmap mapping `/`..`9` to glyphs 3..13 and `A`..`B` to 14..15,
/// and distinct advance widths so measurements are checkable.
fn test_font_bytes() -> Vec<u8> {
    let num_glyphs: u16 = 16;

    let mut head = Vec::new();
    be32(&mut head, 0x0001_0000); // version
    be32(&mut head, 0x0001_0000); // fontRevision
    be32(&mut head, 0); // checkSumAdjustment
    be32(&mut head, 0x5F0F_3CF5); // magicNumber
    be16(&mut head, 0); // flags
    be16(&mut head, 1000); // unitsPerEm
    be32(&mut head, 0);
    be32(&mut head, 0); // created
    be32(&mut head, 0);
    be32(&mut head, 0); // modified
    be16(&mut head, 0); // xMin
    be16(&mut head, 0); // yMin
    be16(&mut head, 500); // xMax
    be16(&mut head, 700); // yMax
    be16(&mut head, 0); // macStyle
    be16(&mut head, 8); // lowestRecPPEM
    be16(&mut head, 2); // fontDirectionHint
    be16(&mut head, 0); // indexToLocFormat: short
    be16(&mut head, 0); // glyphDataFormat

    let mut hhea = Vec::new();
    be32(&mut hhea, 0x0001_0000); // version
    be16(&mut hhea, 800); // ascender
    be16(&mut hhea, (-200i16) as u16); // descender
    be16(&mut hhea, 0); // lineGap
    be16(&mut hhea, 900); // advanceWidthMax
    be16(&mut hhea, 0); // minLeftSideBearing
    be16(&mut hhea, 0); // minRightSideBearing
    be16(&mut hhea, 500); // xMaxExtent
    be16(&mut hhea, 1); // caretSlopeRise
    be16(&mut hhea, 0); // caretSlopeRun
    be16(&mut hhea, 0); // caretOffset
    for _ in 0..4 {
        be16(&mut hhea, 0); // reserved
    }
    be16(&mut hhea, 0); // metricDataFormat
    be16(&mut hhea, num_glyphs); // numberOfHMetrics

    let mut maxp = Vec::new();
    be32(&mut maxp, 0x0001_0000); // version 1.0
    be16(&mut maxp, num_glyphs);
    for _ in 0..13 {
        be16(&mut maxp, 0);
    }

    // Advance widths: .notdef 500; glyphs 1..15 step by 10 from 510.
    let mut hmtx = Vec::new();
    for g in 0..num_glyphs {
        let adv: u16 = if g == 0 { 500 } else { 500 + 10 * g };
        be16(&mut hmtx, adv);
        be16(&mut hmtx, 0); // left side bearing
    }

    // All glyph outlines are empty: loca holds equal offsets.
    let mut loca = Vec::new();
    for _ in 0..num_glyphs + 1 {
        be16(&mut loca, 0);
    }
    let glyf = vec![0u8; 4];

    // cmap: one windows-unicode record with a format 4 subtable of three
    // segments: 47..57 -> 3.., 65..66 -> 14.., and the 0xffff terminator.
    let mut sub = Vec::new();
    let seg_count: u16 = 3;
    be16(&mut sub, 4); // format
    be16(&mut sub, 16 + 8 * seg_count); // length
    be16(&mut sub, 0); // language
    be16(&mut sub, seg_count * 2); // segCountX2
    be16(&mut sub, 4); // searchRange
    be16(&mut sub, 1); // entrySelector
    be16(&mut sub, 2); // rangeShift
    be16(&mut sub, 57); // endCodes
    be16(&mut sub, 66);
    be16(&mut sub, 0xffff);
    be16(&mut sub, 0); // reservedPad
    be16(&mut sub, 47); // startCodes
    be16(&mut sub, 65);
    be16(&mut sub, 0xffff);
    be16(&mut sub, (3i32 - 47) as u16); // idDelta: '/' -> 3
    be16(&mut sub, (14i32 - 65) as u16); // idDelta: 'A' -> 14
    be16(&mut sub, 1);
    be16(&mut sub, 0); // idRangeOffsets
    be16(&mut sub, 0);
    be16(&mut sub, 0);
    let mut cmap = Vec::new();
    be16(&mut cmap, 0); // version
    be16(&mut cmap, 1); // one encoding record
    be16(&mut cmap, 3); // platform: windows
    be16(&mut cmap, 1); // encoding: unicode bmp
    be32(&mut cmap, 12); // offset to the subtable
    cmap.extend_from_slice(&sub);

    // Assemble the sfnt directory, tags in ascending order.
    let tables: Vec<(&[u8; 4], &Vec<u8>)> = vec![
        (b"cmap", &cmap),
        (b"glyf", &glyf),
        (b"head", &head),
        (b"hhea", &hhea),
        (b"hmtx", &hmtx),
        (b"loca", &loca),
        (b"maxp", &maxp),
    ];
    let n = tables.len() as u16;
    let mut font = Vec::new();
    be32(&mut font, 0x0001_0000); // sfnt version
    be16(&mut font, n);
    be16(&mut font, 64); // searchRange
    be16(&mut font, 2); // entrySelector
    be16(&mut font, n * 16 - 64); // rangeShift
    let mut offset = 12 + 16 * tables.len();
    let mut records = Vec::new();
    let mut body = Vec::new();
    for (tag, data) in &tables {
        records.extend_from_slice(&tag[..]);
        be32(&mut records, 0); // checksum (not validated)
        be32(&mut records, offset as u32);
        be32(&mut records, data.len() as u32);
        body.extend_from_slice(data);
        let pad = (4 - data.len() % 4) % 4;
        body.extend_from_slice(&vec![0u8; pad]);
        offset += data.len() + pad;
    }
    font.extend_from_slice(&records);
    font.extend_from_slice(&body);
    font
}

fn test_font() -> Font {
    match Font::from_bytes(test_font_bytes(), "TestFace".to_string()) {
        Ok(f) => f,
        Err(_) => panic!("the assembled face must parse"),
    }
}

fn find(haystack: &[u8], needle: &[u8]) -> Option<usize> {
    if needle.is_empty() || haystack.len() < needle.len() {
        return None;
    }
    (0..=haystack.len() - needle.len()).find(|&i| &haystack[i..i + needle.len()] == needle)
}

#[test]
fn measures_with_hmtx_advances() {
    let mut font = test_font();
    assert_eq!(font.units_per_em(), 1000);
    assert_eq!(font.number_of_glyphs(), 16);
    // 'A' is glyph 14 (advance 640), 'B' glyph 15 (advance 650). At size
    // 10 the widths scale by 10/1000.
    assert_eq!(font.get_glyph_width(14), 640);
    assert_eq!(font.get_glyph_width(15), 650);
    let w = font.measure_text("AB", 10_000);
    assert_eq!(w, 6_400 + 6_500);
}

#[test]
fn shapes_through_the_cmap() {
    let mut font = test_font();
    let run = font.shape_text("AB", 10_000);
    let gids: Vec<u16> = run.iter().map(|g| g.glyph_id).collect();
    assert_eq!(gids, vec![14, 15]);
}

#[test]
fn custom_font_subsetting() {
    let mut doc = Document::new();
    let mut reg = test_font();
    let idx = doc.add_font(&reg);
    assert_eq!(idx, 0);
    for _ in 0..2 {
        let mut page = Page::new(595_000, 842_000);
        page.text_with_font("AB".to_string(), 50_000, 800_000, 12_000, idx, &mut reg);
        doc.add_page(&page);
    }
    let bytes = doc.to_bytes().unwrap();
    // Identity-H composite font with the face's name.
    assert!(find(&bytes, b"/Encoding /Identity-H").is_some());
    assert!(find(&bytes, b"/BaseFont /TestFace").is_some());
    // The widths array lists exactly the used glyph ids, ascending, each
    // with its hmtx advance scaled to 1000 units per em.
    assert!(find(&bytes, b"/W [14 [640] 15 [650]]").is_some());
    // The hex CIDs of the shaped run appear on both pages.
    let hex = b"<000e000f> Tj";
    let first = find(&bytes, hex).expect("first page run");
    assert!(find(&bytes[first + 1..], hex).is_some(), "second page run");
}

#[test]
fn column_splits_across_pages_with_page_numbers() {
    let mut reg = test_font();
    let mut doc = Document::new();
    let idx = doc.add_font(&reg);
    // Ten one-line texts at size 25 (leading 30) over a body of height 158
    // less a 12-unit footer: five fit per page.
    let children: Vec<LayoutNode> = (0..10)
        .map(|_| LayoutNode::text("A".to_string(), 25_000, None, None))
        .collect();
    let column = LayoutNode::column(children, 0);
    let footer = LayoutNode::page_number("{page}/{total}".to_string(), 10_000, "left".to_string());
    let appended = doc.render_flow(
        &column,
        595_000,
        170_000,
        &mut reg,
        idx,
        None,
        Some(&footer),
        0,
        0,
    );
    assert_eq!(appended, 2);
    let bytes = doc.to_bytes().unwrap();
    assert!(find(&bytes, b"/Count 2").is_some(), "two pages expected");
    // The footers resolve to 1/2 and 2/2: '/' is glyph 3, digits '1' and
    // '2' are glyphs 5 and 6.
    assert!(find(&bytes, b"<000500030006> Tj").is_some(), "footer 1/2");
    assert!(find(&bytes, b"<000600030006> Tj").is_some(), "footer 2/2");
}

#[test]
fn table_rows_split_at_row_boundaries() {
    let mut reg = test_font();
    let cols = vec![TableColumn {
        header: "H".to_string(),
        width: 200_000,
        align: TextAlign::Left,
        field: None,
    }];
    let mut table = Table::new(cols);
    for i in 0..50 {
        table.add_row(vec![format!("{}", i % 10)]);
    }
    // Header 30; each single-line row is 12 (leading) + 10 (padding) + 8 =
    // 30. A body of 500 leaves 470 for rows: fifteen per page.
    let node = LayoutNode::table(table);
    let segs = paginate(&node, 495_000, 500_000, &mut reg);
    assert_eq!(segs.len(), 4);
    let mut counts = Vec::new();
    for seg in &segs {
        match seg {
            LayoutNode::TableNode { table } => counts.push(table.rows.len()),
            _ => panic!("every segment repeats the table with its header"),
        }
    }
    assert_eq!(counts, vec![15, 15, 15, 5]);
}

#[test]
fn text_wraps_within_the_width() {
    let mut font = test_font();
    // At size 10: 'A' is 6.4, 'B' 6.5, the unmapped space is glyph 0 at
    // 5.0. Two "AB" runs and their joining space measure 30.8.
    let node = LayoutNode::text("AB AB AB AB AB".to_string(), 10_000, None, None);
    let mut page = Page::new(595_000, 842_000);
    page.render_layout(
        &node,
        0,
        800_000,
        40_000,
        &mut font,
        0,
        &PageContext::single(),
    );
    // Two runs fit per line (30.8 <= 40; a third exceeds): expect three
    // baselines, i.e. three text-showing operators.
    let ops = page
        .content
        .windows(b" Tj ET Q ".len())
        .filter(|w| *w == b" Tj ET Q ")
        .count();
    assert_eq!(ops, 3);
}

#[test]
fn splits_text_at_word_boundaries() {
    let mut font = test_font();
    // Each "AB" run measures 12.9 at size 10; at width 31.8 two words fit a
    // line. Five words wrap onto three lines.
    let text = "AB AB AB AB AB";
    assert_eq!(calculate_text_lines(text, 40_000, 10_000, &mut font), 3);
    // A budget of two lines keeps four words and leaves one.
    let (head, tail) = split_text_at_lines(text, 40_000, 10_000, &mut font, 2);
    assert_eq!(head, "AB AB AB AB");
    assert_eq!(tail.as_deref(), Some("AB"));
    // A budget that covers everything leaves no tail.
    let (head2, tail2) = split_text_at_lines(text, 40_000, 10_000, &mut font, 3);
    assert_eq!(head2, "AB AB AB AB AB");
    assert!(tail2.is_none());
    // A zero budget keeps everything in the tail.
    let (head3, tail3) = split_text_at_lines(text, 40_000, 10_000, &mut font, 0);
    assert_eq!(head3, "");
    assert_eq!(tail3.as_deref(), Some(text));
}

#[test]
fn containers_preserve_padding_across_splits() {
    let mut reg = test_font();
    let children: Vec<LayoutNode> = (0..4)
        .map(|_| LayoutNode::text("A".to_string(), 25_000, None, None))
        .collect();
    let inner = LayoutNode::column(children, 0);
    let node = LayoutNode::container(inner, 10_000, 2_000);
    // Four lines of 30 inside 24 of padding and border: splitting at 100
    // leaves head and tail wrapped in equal containers.
    match node.split(300_000, 100_000, &mut reg) {
        SplitAction::Split(head, tail) => {
            match (*head, *tail) {
                (
                    LayoutNode::Container { padding: hp, border_width: hb, .. },
                    LayoutNode::Container { padding: tp, border_width: tb, .. },
                ) => {
                    assert_eq!(hp, 10_000);
                    assert_eq!(tp, 10_000);
                    assert_eq!(hb, 2_000);
                    assert_eq!(tb, 2_000);
                }
                _ => panic!("both parts stay containers"),
            }
        }
        _ => panic!("the container must split"),
    }
}
