//! The document orchestrator: object-id assignment, font embedding with
//! subsetting, image embedding, page emission, and the buffered and
//! streaming modes with their terminal calls.
use vstd::prelude::*;
use crate::writer::{
    PdfWriter, PdfObject, obj_wf, ser_obj, obj_record, header_bytes, trailer_ok, sorted_by_id,
    clone_bytes, xref_block, records_of,
};
use crate::font::{Font, ttf_parses, upem_of, glyph_width_or0, glyph_count_of, GlyphUsage};
use crate::page::{Page, gids_for};
use crate::image::{Image, deflate, deflate_of};
use crate::fx::FX_MAX;
use vstd::string::StrSliceExecFns;

verus! {

/// What subsetting a face to the glyphs up to `max_gid` yields.
pub uninterp spec fn subset_of(data: Seq<u8>, max_gid: u16) -> Seq<u8>;

/// Whether the subsetter accepts the face for that glyph range: its
/// success, too, depends on the bytes and the bound alone.
pub uninterp spec fn subset_ok_of(data: Seq<u8>, max_gid: u16) -> bool;

/// Relies on `subsetter::subset` with a remapper fed the identity order
/// `0..=max_gid`, so glyph ids keep their values and the identity
/// CID-to-GID mapping stays valid. The result depends on the face bytes
/// and `max_gid` alone. The remapper counts ids in a `u16` and panics once
/// it has assigned 65536 of them, so the very last glyph id is excluded.
#[verifier::external_body]
fn subset_call(data: &Vec<u8>, max_gid: u16) -> (r: Result<Vec<u8>, ()>)
    requires
        max_gid < 0xffff,
    ensures
        r is Ok <==> subset_ok_of(data@, max_gid),
        r matches Ok(v) ==> v@ == subset_of(data@, max_gid),
{
    let mut mapper = subsetter::GlyphRemapper::new();
    for g in 0..=max_gid {
        mapper.remap(g);
    }
    match subsetter::subset(data, 0, &mapper) {
        Ok(v) => Ok(v),
        Err(_) => Err(()),
    }
}

/// Subset a font to the glyphs in `gids` (plus everything below their
/// maximum, keeping ids identical). Falls back to the full face bytes
/// exactly when there is nothing to subset to, the top glyph id fills the
/// sixteen-bit space, or the subsetter rejects the face.
pub fn subset_font(font: &Font, gids: &Vec<u16>) -> (r: Vec<u8>)
    ensures
        gids@.len() > 0 && gids@[gids@.len() - 1] < 0xffff && subset_ok_of(
            font.data@,
            gids@[gids@.len() - 1],
        ) ==> r@ == subset_of(font.data@, gids@[gids@.len() - 1]),
        gids@.len() == 0 || gids@[gids@.len() - 1] == 0xffff || !subset_ok_of(
            font.data@,
            gids@[gids@.len() - 1],
        ) ==> r@ == font.data@,
        r@ == font.data@ || (gids@.len() > 0 && r@ == subset_of(
            font.data@,
            gids@[gids@.len() - 1],
        )),
{
    if gids.len() == 0 {
        return clone_bytes(&font.data);
    }
    let max_gid = gids[gids.len() - 1];
    if max_gid == 0xffff {
        // The remapper cannot carry the full 16-bit glyph space; keep the
        // whole face, as on any other subsetting failure.
        return clone_bytes(&font.data);
    }
    match subset_call(&font.data, max_gid) {
        Ok(v) => v,
        Err(_) => clone_bytes(&font.data),
    }
}

/// A byte count as a non-negative `i64`, saturating.
pub open spec fn clamp_len_spec(n: nat) -> i64 {
    if n > 0x7fff_ffff_ffff_ffff {
        0x7fff_ffff_ffff_ffff as i64
    } else {
        n as i64
    }
}

/// A byte count as a non-negative `i64`.
pub fn clamp_len(n: usize) -> (r: i64)
    ensures
        0 <= r,
        r == clamp_len_spec(n as nat),
        n <= 0x7fff_ffff_ffff_ffff ==> r == n,
{
    if (n as u64) > 0x7fff_ffff_ffff_ffff {
        0x7fff_ffff_ffff_ffff
    } else {
        n as i64
    }
}

/// A name object from a literal.
fn name_obj(s: &str) -> (r: PdfObject)
    ensures
        r matches PdfObject::Name(n) && n@ == s@,
        obj_wf(r),
{
    PdfObject::Name(s.to_owned())
}

/// A dictionary key from a literal.
fn key(s: &str) -> (r: String)
    ensures
        r@ == s@,
{
    s.to_owned()
}

/// The catalog dictionary: `/Type /Catalog` and `/Pages` referencing the
/// pages tree.
pub open spec fn catalog_obj_ok(o: PdfObject, pages_id: u32) -> bool {
    &&& o is Dictionary
    &&& o->Dictionary_0@.len() == 2
    &&& o->Dictionary_0@[0].0@ == "Type"@
    &&& o->Dictionary_0@[0].1 is Name
    &&& o->Dictionary_0@[0].1->Name_0@ == "Catalog"@
    &&& o->Dictionary_0@[1].0@ == "Pages"@
    &&& o->Dictionary_0@[1].1 == PdfObject::Reference(pages_id)
}

/// The built-in font dictionary: a Type1 Helvetica.
pub open spec fn helv_obj_ok(o: PdfObject) -> bool {
    &&& o is Dictionary
    &&& o->Dictionary_0@.len() == 3
    &&& o->Dictionary_0@[0].0@ == "Type"@
    &&& o->Dictionary_0@[0].1 is Name
    &&& o->Dictionary_0@[0].1->Name_0@ == "Font"@
    &&& o->Dictionary_0@[1].0@ == "Subtype"@
    &&& o->Dictionary_0@[1].1 is Name
    &&& o->Dictionary_0@[1].1->Name_0@ == "Type1"@
    &&& o->Dictionary_0@[2].0@ == "BaseFont"@
    &&& o->Dictionary_0@[2].1 is Name
    &&& o->Dictionary_0@[2].1->Name_0@ == "Helvetica"@
}

/// The built-in Helvetica font dictionary.
fn helvetica_obj() -> (r: PdfObject)
    ensures
        obj_wf(r),
        helv_obj_ok(r),
{
    let mut d: Vec<(String, PdfObject)> = Vec::new();
    d.push((key("Type"), name_obj("Font")));
    d.push((key("Subtype"), name_obj("Type1")));
    d.push((key("BaseFont"), name_obj("Helvetica")));
    proof {
        assert forall|k: int| 0 <= k < d@.len() implies obj_wf(#[trigger] d@[k].1) by {
            assert(obj_wf(d@[0].1));
            assert(obj_wf(d@[1].1));
            assert(obj_wf(d@[2].1));
        }
    }
    PdfObject::Dictionary(d)
}

/// The catalog, pointing at the pages tree.
fn catalog_obj(pages_id: u32) -> (r: PdfObject)
    ensures
        obj_wf(r),
        catalog_obj_ok(r, pages_id),
{
    let mut d: Vec<(String, PdfObject)> = Vec::new();
    d.push((key("Type"), name_obj("Catalog")));
    d.push((key("Pages"), PdfObject::Reference(pages_id)));
    proof {
        assert forall|k: int| 0 <= k < d@.len() implies obj_wf(#[trigger] d@[k].1) by {
            assert(obj_wf(d@[0].1));
            assert(obj_wf(d@[1].1));
        }
    }
    PdfObject::Dictionary(d)
}

/// The Pages dictionary over these kid ids: `/Count` is exactly the number
/// of kids and `/Kids` references them in order.
pub open spec fn pages_obj_ok(o: PdfObject, kids: Seq<u32>) -> bool {
    &&& o is Dictionary
    &&& o->Dictionary_0@.len() == 3
    &&& o->Dictionary_0@[0].0@ == "Type"@
    &&& o->Dictionary_0@[0].1 is Name
    &&& o->Dictionary_0@[0].1->Name_0@ == "Pages"@
    &&& o->Dictionary_0@[1].0@ == "Kids"@
    &&& o->Dictionary_0@[1].1 is Array
    &&& o->Dictionary_0@[1].1->Array_0@.len() == kids.len()
    &&& forall|k: int|
        0 <= k < kids.len() ==> (#[trigger] o->Dictionary_0@[1].1->Array_0@[k]) == PdfObject::Reference(
            kids[k],
        )
    &&& o->Dictionary_0@[2].0@ == "Count"@
    &&& o->Dictionary_0@[2].1 == PdfObject::Integer(kids.len() as i64)
}

/// The pages tree object.
fn pages_obj(page_ids: &Vec<u32>) -> (r: PdfObject)
    requires
        page_ids@.len() < 0x7fff_ffff,
    ensures
        obj_wf(r),
        pages_obj_ok(r, page_ids@),
{
    let mut kids: Vec<PdfObject> = Vec::new();
    let mut i: usize = 0;
    while i < page_ids.len()
        invariant
            0 <= i <= page_ids@.len(),
            kids@.len() == i,
            forall|k: int| 0 <= k < i ==> (#[trigger] kids@[k]) == PdfObject::Reference(
                page_ids@[k],
            ),
            forall|k: int| 0 <= k < i ==> obj_wf(#[trigger] kids@[k]),
        decreases page_ids@.len() - i,
    {
        kids.push(PdfObject::Reference(page_ids[i]));
        i = i + 1;
    }
    let mut d: Vec<(String, PdfObject)> = Vec::new();
    d.push((key("Type"), name_obj("Pages")));
    d.push((key("Kids"), PdfObject::Array(kids)));
    d.push((key("Count"), PdfObject::Integer(page_ids.len() as i64)));
    proof {
        assert forall|k: int| 0 <= k < d@.len() implies obj_wf(#[trigger] d@[k].1) by {
            assert(obj_wf(d@[0].1));
            assert(obj_wf(d@[1].1));
            assert(obj_wf(d@[2].1));
        }
    }
    PdfObject::Dictionary(d)
}

/// A page object has `/Parent` pointing back at the pages tree.
pub open spec fn page_parent_ok(o: PdfObject, pages_id: u32) -> bool {
    &&& o is Dictionary
    &&& o->Dictionary_0@.len() >= 2
    &&& o->Dictionary_0@[1].0@ == "Parent"@
    &&& o->Dictionary_0@[1].1 == PdfObject::Reference(pages_id)
}

/// The used image indices that are registered, in recording order.
pub open spec fn selected_images(used: Seq<u32>, nids: int) -> Seq<u32>
    decreases used.len(),
{
    if used.len() == 0 {
        Seq::empty()
    } else if (used.last() as int) < nids {
        selected_images(used.drop_last(), nids).push(used.last())
    } else {
        selected_images(used.drop_last(), nids)
    }
}

/// The image XObject map of a page's resources: when the page places no
/// registered image there is no `/XObject` entry; otherwise one entry
/// `Im{k}` per used, registered index, in the page's recording order, each
/// referencing that image's object.
pub open spec fn xobject_map_ok(o: PdfObject, used: Seq<u32>, ids: Seq<u32>) -> bool {
    let sel = selected_images(used, ids.len() as int);
    &&& (sel.len() == 0 ==> o->Dictionary_0@.len() == 1)
    &&& (sel.len() > 0 ==> {
        &&& o->Dictionary_0@.len() == 2
        &&& o->Dictionary_0@[1].0@ == "XObject"@
        &&& o->Dictionary_0@[1].1 is Dictionary
        &&& o->Dictionary_0@[1].1->Dictionary_0@.len() == sel.len()
        &&& forall|j: int|
            0 <= j < sel.len() ==> (#[trigger] o->Dictionary_0@[1].1->Dictionary_0@[j]).0@
                == seq!['I', 'm'] + dec_chars(sel[j] as nat)
                && o->Dictionary_0@[1].1->Dictionary_0@[j].1 == PdfObject::Reference(
                ids[sel[j] as int],
            )
    })
}

/// The whole page dictionary: `/Type /Page`, `/Parent` back to the pages
/// tree, `/MediaBox [0 0 w h]`, `/Resources`, `/Contents` referencing the
/// page's own content stream.
pub open spec fn page_obj_ok(
    o: PdfObject,
    pages_id: u32,
    width: i64,
    height: i64,
    content_id: u32,
    font_id: u32,
    t0: Seq<u32>,
    used_images: Seq<u32>,
    image_ids: Seq<u32>,
) -> bool {
    &&& o is Dictionary
    &&& o->Dictionary_0@.len() == 5
    &&& o->Dictionary_0@[0].0@ == "Type"@
    &&& o->Dictionary_0@[0].1 is Name
    &&& o->Dictionary_0@[0].1->Name_0@ == "Page"@
    &&& page_parent_ok(o, pages_id)
    &&& o->Dictionary_0@[2].0@ == "MediaBox"@
    &&& o->Dictionary_0@[2].1 is Array
    &&& o->Dictionary_0@[2].1->Array_0@ =~= seq![
        PdfObject::Integer(0int as i64),
        PdfObject::Integer(0int as i64),
        PdfObject::Real(width),
        PdfObject::Real(height),
    ]
    &&& o->Dictionary_0@[3].0@ == "Resources"@
    &&& font_resources_ok(o->Dictionary_0@[3].1, font_id, t0)
    &&& xobject_map_ok(o->Dictionary_0@[3].1, used_images, image_ids)
    &&& o->Dictionary_0@[4].0@ == "Contents"@
    &&& o->Dictionary_0@[4].1 == PdfObject::Reference(content_id)
}

/// An image's stream XObject: `/Type /XObject /Subtype /Image` with the
/// image's dimensions, color space, bit depth and filter; JPEG data passes
/// through under the DCT filter, anything else is Flate-compressed.
pub open spec fn xobject_ok(o: PdfObject, img: Image) -> bool {
    &&& o is Stream
    &&& (img.filter matches Some(f) && f@ == "DCTDecode"@ ==> o->Stream_1@ == img.data@)
    &&& (!(img.filter matches Some(f) && f@ == "DCTDecode"@) ==> o->Stream_1@ == deflate_of(
        img.data@,
    ))
    &&& o->Stream_0@.len() == 7
    &&& o->Stream_0@[0].0@ == "Type"@
    &&& o->Stream_0@[0].1 is Name
    &&& o->Stream_0@[0].1->Name_0@ == "XObject"@
    &&& o->Stream_0@[1].0@ == "Subtype"@
    &&& o->Stream_0@[1].1 is Name
    &&& o->Stream_0@[1].1->Name_0@ == "Image"@
    &&& o->Stream_0@[2].0@ == "Width"@
    &&& o->Stream_0@[2].1 == PdfObject::Integer(img.width as i64)
    &&& o->Stream_0@[3].0@ == "Height"@
    &&& o->Stream_0@[3].1 == PdfObject::Integer(img.height as i64)
    &&& o->Stream_0@[4].0@ == "ColorSpace"@
    &&& o->Stream_0@[4].1 is Name
    &&& o->Stream_0@[4].1->Name_0@ == img.color_space@
    &&& o->Stream_0@[5].0@ == "BitsPerComponent"@
    &&& o->Stream_0@[5].1 == PdfObject::Integer(img.bits_per_component as i64)
    &&& o->Stream_0@[6].0@ == "Filter"@
    &&& o->Stream_0@[6].1 is Name
    &&& o->Stream_0@[6].1->Name_0@ == (if img.filter matches Some(f) && f@ == "DCTDecode"@ {
        "DCTDecode"@
    } else {
        "FlateDecode"@
    })
}

/// Embed an image as a stream XObject: JPEG data passes through under the
/// DCT filter, anything else is Flate-compressed.
pub fn embed_image(writer: &mut PdfWriter, image: &Image, object_id: u32)
    requires
        old(writer).wf(),
    ensures
        final(writer).wf(),
        final(writer).xref@ == old(writer).xref@.push(
            (object_id, old(writer).buf@.len() as u64),
        ),
        final(writer).objects@.len() == old(writer).objects@.len() + 1,
        final(writer).objects@.subrange(0, old(writer).objects@.len() as int) == old(
            writer,
        ).objects@,
        final(writer).objects@[old(writer).objects@.len() as int].0 == object_id,
        xobject_ok(final(writer).objects@[old(writer).objects@.len() as int].1, *image),
        old(writer).buf@.is_prefix_of(final(writer).buf@),
        old(writer).buf@ == header_bytes() + records_of(old(writer).objects@)
            ==> final(writer).buf@ == header_bytes() + records_of(final(writer).objects@),
    {
    let dct = key("DCTDecode");
    let passthrough = match &image.filter {
        Some(f) => f.eq(&dct),
        None => false,
    };
    let body: Vec<u8> = if passthrough {
        clone_bytes(&image.data)
    } else {
        deflate(&image.data)
    };
    let mut d: Vec<(String, PdfObject)> = Vec::new();
    d.push((key("Type"), name_obj("XObject")));
    d.push((key("Subtype"), name_obj("Image")));
    d.push((key("Width"), PdfObject::Integer(image.width as i64)));
    d.push((key("Height"), PdfObject::Integer(image.height as i64)));
    let csc = crate::chars::str_to_chars(image.color_space.as_str());
    d.push((key("ColorSpace"), PdfObject::Name(crate::chars::string_from_chars(&csc))));
    d.push((key("BitsPerComponent"), PdfObject::Integer(image.bits_per_component as i64)));
    // The label names what was done to the body: pass-through JPEG keeps
    // DCT, every other payload was deflated above.
    if passthrough {
        d.push((key("Filter"), name_obj("DCTDecode")));
    } else {
        d.push((key("Filter"), name_obj("FlateDecode")));
    }
    proof {
        assert forall|k: int| 0 <= k < d@.len() implies obj_wf(#[trigger] d@[k].1) by {
            assert(obj_wf(d@[0].1));
            assert(obj_wf(d@[1].1));
            assert(obj_wf(d@[2].1));
            assert(obj_wf(d@[3].1));
            assert(obj_wf(d@[4].1));
            assert(obj_wf(d@[5].1));
            assert(obj_wf(d@[6].1));
        }
    }
    let obj = PdfObject::Stream(d, body);
    writer.write_object(object_id, &obj);
    proof {
        assert(final(writer).buf@.subrange(0, old(writer).buf@.len() as int) =~= old(
            writer,
        ).buf@);
        assert(final(writer).objects@.subrange(0, old(writer).objects@.len() as int) =~= old(
            writer,
        ).objects@);
    }
}

} // verus!

use crate::font::scale1000;
use crate::layout::dec_chars;

verus! {

/// The widths array entries for a sparse glyph set: `gid [w]` pairs in
/// order, each width the glyph's hmtx advance scaled to 1000 units per em.
pub open spec fn w_array_matches(items: Seq<PdfObject>, data: Seq<u8>, gids: Seq<u16>) -> bool {
    &&& items.len() == 2 * gids.len()
    &&& forall|k: int|
        0 <= k < gids.len() ==> (#[trigger] items[2 * k]) == PdfObject::Integer(gids[k] as i64)
    &&& forall|k: int|
        0 <= k < gids.len() ==> {
            let a = #[trigger] items[2 * k + 1];
            &&& a is Array
            &&& a->Array_0@.len() == 1
            &&& a->Array_0@[0] == PdfObject::Integer(
                scale1000(glyph_width_or0(data, gids[k]), upem_of(data)) as i64,
            )
        }
}

/// The widths list covering every glyph of the face, in glyph-id order.
pub open spec fn w_all_matches(items: Seq<PdfObject>, data: Seq<u8>) -> bool {
    &&& items.len() == glyph_count_of(data)
    &&& forall|k: int|
        0 <= k < items.len() ==> (#[trigger] items[k]) == PdfObject::Integer(
            scale1000(glyph_width_or0(data, k as u16), upem_of(data)) as i64,
        )
}

/// The bytes embedded for a face, given the used glyph ids in ascending
/// order: the subset up to the top used id when the subsetter accepts the
/// face and that id leaves room in the sixteen-bit space, else the full
/// original bytes. Without a usage set the full face is embedded.
pub open spec fn font_body_of(data: Seq<u8>, gids: Option<Seq<u16>>) -> Seq<u8> {
    match gids {
        Option::Some(g) => {
            if g.len() > 0 && g.last() < 0xffff && subset_ok_of(data, g.last()) {
                subset_of(data, g.last())
            } else {
                data
            }
        },
        Option::None => data,
    }
}

/// The FontFile2 stream: its one dictionary entry `/Length1` holds the
/// embedded face's byte length, and the body is exactly the given bytes.
pub open spec fn font_file_ok(o: PdfObject, body: Seq<u8>) -> bool {
    &&& o is Stream
    &&& o->Stream_1@ == body
    &&& o->Stream_0@.len() == 1
    &&& o->Stream_0@[0].0@ == "Length1"@
    &&& o->Stream_0@[0].1 == PdfObject::Integer(clamp_len_spec(body.len()))
}

/// The FontDescriptor: symbolic flags (required under Identity-H), the
/// face's metrics scaled to the 1000-unit glyph space, a fixed `/StemV`,
/// and `/FontFile2` referencing the embedded stream.
pub open spec fn font_descriptor_ok(o: PdfObject, data: Seq<u8>, name: Seq<char>, file_id: u32) -> bool {
    &&& o is Dictionary
    &&& o->Dictionary_0@.len() == 10
    &&& o->Dictionary_0@[0].0@ == "Type"@
    &&& o->Dictionary_0@[0].1 is Name
    &&& o->Dictionary_0@[0].1->Name_0@ == "FontDescriptor"@
    &&& o->Dictionary_0@[1].0@ == "FontName"@
    &&& o->Dictionary_0@[1].1 is Name
    &&& o->Dictionary_0@[1].1->Name_0@ == name
    &&& o->Dictionary_0@[2].0@ == "Flags"@
    &&& o->Dictionary_0@[2].1 == PdfObject::Integer(4int as i64)
    &&& o->Dictionary_0@[3].0@ == "FontBBox"@
    &&& o->Dictionary_0@[3].1 is Array
    &&& o->Dictionary_0@[3].1->Array_0@ =~= seq![
        PdfObject::Integer(crate::font::bbox1000_of(data).0),
        PdfObject::Integer(crate::font::bbox1000_of(data).1),
        PdfObject::Integer(crate::font::bbox1000_of(data).2),
        PdfObject::Integer(crate::font::bbox1000_of(data).3),
    ]
    &&& o->Dictionary_0@[4].0@ == "ItalicAngle"@
    &&& o->Dictionary_0@[4].1 == PdfObject::Real(
        (crate::font::italic_angle_deg_of(data) * 1000) as i64,
    )
    &&& o->Dictionary_0@[5].0@ == "Ascent"@
    &&& o->Dictionary_0@[5].1 == PdfObject::Integer(
        scale1000(crate::font::ascender_of(data) as int, upem_of(data)) as i64,
    )
    &&& o->Dictionary_0@[6].0@ == "Descent"@
    &&& o->Dictionary_0@[6].1 == PdfObject::Integer(
        scale1000(crate::font::descender_of(data) as int, upem_of(data)) as i64,
    )
    &&& o->Dictionary_0@[7].0@ == "CapHeight"@
    &&& o->Dictionary_0@[7].1 == PdfObject::Integer(crate::font::cap_height1000_of(data) as i64)
    &&& o->Dictionary_0@[8].0@ == "StemV"@
    &&& o->Dictionary_0@[8].1 == PdfObject::Integer(80int as i64)
    &&& o->Dictionary_0@[9].0@ == "FontFile2"@
    &&& o->Dictionary_0@[9].1 == PdfObject::Reference(file_id)
}

/// The CIDFontType2 dictionary apart from its widths: Identity CID-to-GID
/// mapping, default width 1000, the Adobe-Identity-0 system info, and the
/// descriptor reference.
pub open spec fn cid_font_ok(o: PdfObject, name: Seq<char>, desc_id: u32) -> bool {
    &&& o is Dictionary
    &&& o->Dictionary_0@.len() == 8
    &&& o->Dictionary_0@[0].0@ == "Type"@
    &&& o->Dictionary_0@[0].1 is Name
    &&& o->Dictionary_0@[0].1->Name_0@ == "Font"@
    &&& o->Dictionary_0@[1].0@ == "Subtype"@
    &&& o->Dictionary_0@[1].1 is Name
    &&& o->Dictionary_0@[1].1->Name_0@ == "CIDFontType2"@
    &&& o->Dictionary_0@[2].0@ == "BaseFont"@
    &&& o->Dictionary_0@[2].1 is Name
    &&& o->Dictionary_0@[2].1->Name_0@ == name
    &&& o->Dictionary_0@[3].0@ == "CIDSystemInfo"@
    &&& o->Dictionary_0@[4].0@ == "FontDescriptor"@
    &&& o->Dictionary_0@[4].1 == PdfObject::Reference(desc_id)
    &&& o->Dictionary_0@[5].0@ == "CIDToGIDMap"@
    &&& o->Dictionary_0@[5].1 is Name
    &&& o->Dictionary_0@[5].1->Name_0@ == "Identity"@
    &&& o->Dictionary_0@[6].0@ == "DW"@
    &&& o->Dictionary_0@[6].1 == PdfObject::Integer(1000int as i64)
    &&& o->Dictionary_0@[7].0@ == "W"@
    &&& o->Dictionary_0@[7].1 is Array
}

/// The Type0 composite font: Identity-H encoding over one descendant.
pub open spec fn type0_ok(o: PdfObject, name: Seq<char>, cid_id: u32) -> bool {
    &&& o is Dictionary
    &&& o->Dictionary_0@.len() == 5
    &&& o->Dictionary_0@[0].0@ == "Type"@
    &&& o->Dictionary_0@[0].1 is Name
    &&& o->Dictionary_0@[0].1->Name_0@ == "Font"@
    &&& o->Dictionary_0@[1].0@ == "Subtype"@
    &&& o->Dictionary_0@[1].1 is Name
    &&& o->Dictionary_0@[1].1->Name_0@ == "Type0"@
    &&& o->Dictionary_0@[2].0@ == "BaseFont"@
    &&& o->Dictionary_0@[2].1 is Name
    &&& o->Dictionary_0@[2].1->Name_0@ == name
    &&& o->Dictionary_0@[3].0@ == "Encoding"@
    &&& o->Dictionary_0@[3].1 is Name
    &&& o->Dictionary_0@[3].1->Name_0@ == "Identity-H"@
    &&& o->Dictionary_0@[4].0@ == "DescendantFonts"@
    &&& o->Dictionary_0@[4].1 is Array
    &&& o->Dictionary_0@[4].1->Array_0@ =~= seq![PdfObject::Reference(cid_id)]
}

/// The CID font dictionary carries a `/W` entry at its known place.
pub open spec fn cid_w_entry(o: PdfObject) -> PdfObject
    recommends
        o is Dictionary,
{
    o->Dictionary_0@[7].1
}

/// Embed one custom font as its four-object bundle: the FontFile2 stream,
/// the FontDescriptor, the CIDFontType2 with the widths array, and the
/// Type0 composite font under Identity-H. Returns the Type0 object's id.
///
/// With a known glyph-usage set the face is subsetted and the widths cover
/// exactly those glyph ids, in ascending order; without one the full face
/// is embedded and the widths run over every glyph.
#[verifier::loop_isolation(false)]
#[verifier::rlimit(100)]
pub fn embed_custom_font(
    writer: &mut PdfWriter,
    font: &Font,
    base_id: u32,
    used_gids: Option<&GlyphUsage>,
) -> (r: u32)
    requires
        old(writer).wf(),
        font.wf(),
        base_id <= 0xffff_0000,
        used_gids matches Some(u) ==> u.wf(),
    ensures
        final(writer).wf(),
        r == base_id + 3,
        final(writer).objects@.len() == old(writer).objects@.len() + 4,
        old(writer).buf@.is_prefix_of(final(writer).buf@),
        final(writer).objects@.subrange(0, old(writer).objects@.len() as int) == old(
            writer,
        ).objects@,
        final(writer).xref@.len() == old(writer).xref@.len() + 4,
        final(writer).xref@.subrange(0, old(writer).xref@.len() as int) == old(writer).xref@,
        old(writer).buf@ == header_bytes() + records_of(old(writer).objects@)
            ==> final(writer).buf@ == header_bytes() + records_of(final(writer).objects@),
        forall|k: int|
            0 <= k < 4 ==> (#[trigger] final(writer).xref@[old(writer).xref@.len() as int + k]).0
                == base_id + k,
        forall|k: int|
            0 <= k < 4 ==> (#[trigger] final(writer).objects@[old(writer).objects@.len() as int
                + k]).0 == base_id + k,
        used_gids is None ==> font_file_ok(
            final(writer).objects@[old(writer).objects@.len() as int].1,
            font.data@,
        ),
        font_descriptor_ok(
            final(writer).objects@[old(writer).objects@.len() as int + 1].1,
            font.data@,
            font.name@,
            base_id,
        ),
        cid_font_ok(
            final(writer).objects@[old(writer).objects@.len() as int + 2].1,
            font.name@,
            (base_id + 1) as u32,
        ),
        type0_ok(
            final(writer).objects@[old(writer).objects@.len() as int + 3].1,
            font.name@,
            (base_id + 2) as u32,
        ),
        ({
            let cid = final(writer).objects@[old(writer).objects@.len() as int + 2].1;
            &&& cid is Dictionary
            &&& cid->Dictionary_0@.len() == 8
            &&& cid->Dictionary_0@[7].0@ == "W"@
            &&& cid->Dictionary_0@[7].1 is Array
            &&& (used_gids matches Some(u) ==> exists|gids: Seq<u16>|
                {
                    &&& #[trigger] gids.to_set() == u@
                    &&& (forall|a: int, b: int| 0 <= a < b < gids.len() ==> gids[a] < gids[b])
                    &&& w_array_matches(
                        cid->Dictionary_0@[7].1->Array_0@,
                        font.data@,
                        gids,
                    )
                    &&& font_file_ok(
                        final(writer).objects@[old(writer).objects@.len() as int].1,
                        font_body_of(font.data@, Option::Some(gids)),
                    )
                })
            &&& (used_gids is None ==> cid->Dictionary_0@[7].1->Array_0@.len() == 2
                && cid->Dictionary_0@[7].1->Array_0@[0] == PdfObject::Integer(0)
                && cid->Dictionary_0@[7].1->Array_0@[1] is Array && w_all_matches(
                cid->Dictionary_0@[7].1->Array_0@[1]->Array_0@,
                font.data@,
            ))
        }),
{
    let ghost data = font.data@;
    let font_file_id = base_id;
    let font_descriptor_id = base_id + 1;
    let cid_font_id = base_id + 2;
    let type0_font_id = base_id + 3;
    // 1. The TrueType stream, subsetted when usage is known. The sorted
    // glyph ids also drive the widths array below.
    let sorted: Option<Vec<u16>> = match used_gids {
        Some(u) => Some(u.sorted_gids()),
        None => None,
    };
    let font_data: Vec<u8> = match &sorted {
        Some(gids) => subset_font(font, gids),
        None => clone_bytes(&font.data),
    };
    let flen = clamp_len(font_data.len());
    let mut ffd: Vec<(String, PdfObject)> = Vec::new();
    ffd.push((key("Length1"), PdfObject::Integer(flen)));
    proof {
        assert(obj_wf(ffd@[0].1));
    }
    let font_file = PdfObject::Stream(ffd, font_data);
    writer.write_object(font_file_id, &font_file);
    // 2. The FontDescriptor.
    let bbox = font.bbox();
    let mut bba: Vec<PdfObject> = Vec::new();
    bba.push(PdfObject::Integer(bbox.0));
    bba.push(PdfObject::Integer(bbox.1));
    bba.push(PdfObject::Integer(bbox.2));
    bba.push(PdfObject::Integer(bbox.3));
    proof {
        assert forall|k: int| 0 <= k < bba@.len() implies obj_wf(#[trigger] bba@[k]) by {
            assert(obj_wf(bba@[0]));
            assert(obj_wf(bba@[1]));
            assert(obj_wf(bba@[2]));
            assert(obj_wf(bba@[3]));
        }
    }
    let fname = crate::chars::str_to_chars(font.get_name().as_str());
    let mut fd: Vec<(String, PdfObject)> = Vec::new();
    fd.push((key("Type"), name_obj("FontDescriptor")));
    fd.push((key("FontName"), PdfObject::Name(crate::chars::string_from_chars(&fname))));
    // Identity-H needs the symbolic flag.
    fd.push((key("Flags"), PdfObject::Integer(4)));
    fd.push((key("FontBBox"), PdfObject::Array(bba)));
    let angle = font.italic_angle();
    fd.push((key("ItalicAngle"), PdfObject::Real(angle * 1000)));
    fd.push((key("Ascent"), PdfObject::Integer(font.ascent())));
    fd.push((key("Descent"), PdfObject::Integer(font.descent())));
    fd.push((key("CapHeight"), PdfObject::Integer(font.cap_height())));
    fd.push((key("StemV"), PdfObject::Integer(80)));
    fd.push((key("FontFile2"), PdfObject::Reference(font_file_id)));
    proof {
        assert forall|k: int| 0 <= k < fd@.len() implies obj_wf(#[trigger] fd@[k].1) by {
            assert(obj_wf(fd@[0].1));
            assert(obj_wf(fd@[1].1));
            assert(obj_wf(fd@[2].1));
            assert(obj_wf(fd@[3].1));
            assert(obj_wf(fd@[4].1));
            assert(obj_wf(fd@[5].1));
            assert(obj_wf(fd@[6].1));
            assert(obj_wf(fd@[7].1));
            assert(obj_wf(fd@[8].1));
            assert(obj_wf(fd@[9].1));
        }
    }
    let font_descriptor = PdfObject::Dictionary(fd);
    writer.write_object(font_descriptor_id, &font_descriptor);
    // The widths array.
    let w_array: PdfObject = match &sorted {
        Some(gids) => {
            let mut w: Vec<PdfObject> = Vec::new();
            let mut i: usize = 0;
            while i < gids.len()
                invariant
                    0 <= i <= gids@.len(),
                    w@.len() == 2 * i,
                    w_array_matches(w@, data, gids@.subrange(0, i as int)),
                    forall|k: int| 0 <= k < w@.len() ==> obj_wf(#[trigger] w@[k]),
                decreases gids@.len() - i,
            {
                let pdf_width = font.glyph_width_1000(gids[i]);
                w.push(PdfObject::Integer(gids[i] as i64));
                let mut inner: Vec<PdfObject> = Vec::new();
                inner.push(PdfObject::Integer(pdf_width));
                proof {
                    assert(obj_wf(inner@[0]));
                }
                w.push(PdfObject::Array(inner));
                proof {
                    assert(w_array_matches(w@, data, gids@.subrange(0, i as int + 1))) by {
                        assert(gids@.subrange(0, i as int + 1).drop_last() =~= gids@.subrange(
                            0,
                            i as int,
                        ));
                        assert forall|k: int|
                            0 <= k < i + 1 implies (#[trigger] w@[2 * k]) == PdfObject::Integer(
                            gids@.subrange(0, i as int + 1)[k] as i64,
                        ) by {}
                    }
                    assert(obj_wf(w@[w@.len() - 1]));
                    assert(obj_wf(w@[w@.len() - 2]));
                }
                i = i + 1;
            }
            proof {
                assert(gids@.subrange(0, gids@.len() as int) =~= gids@);
            }
            PdfObject::Array(w)
        },
        None => {
            let num_glyphs = font.number_of_glyphs();
            let mut widths: Vec<PdfObject> = Vec::new();
            let mut gid: u16 = 0;
            let mut i: usize = 0;
            while i < num_glyphs as usize
                invariant
                    0 <= i <= num_glyphs as int,
                    num_glyphs == glyph_count_of(data),
                    widths@.len() == i,
                    forall|k: int|
                        0 <= k < i ==> (#[trigger] widths@[k]) == PdfObject::Integer(
                            scale1000(glyph_width_or0(data, k as u16), upem_of(data)) as i64,
                        ),
                    forall|k: int| 0 <= k < widths@.len() ==> obj_wf(#[trigger] widths@[k]),
                decreases num_glyphs as int - i,
            {
                let pdf_width = font.glyph_width_1000(i as u16);
                widths.push(PdfObject::Integer(pdf_width));
                i = i + 1;
            }
            let mut w: Vec<PdfObject> = Vec::new();
            w.push(PdfObject::Integer(0));
            w.push(PdfObject::Array(widths));
            proof {
                assert(obj_wf(w@[0]));
                assert(obj_wf(w@[1]));
            }
            PdfObject::Array(w)
        },
    };
    // 3. The CIDFontType2 dictionary.
    let mut csi: Vec<(String, PdfObject)> = Vec::new();
    csi.push((key("Registry"), PdfObject::Text(key("Adobe"))));
    csi.push((key("Ordering"), PdfObject::Text(key("Identity"))));
    csi.push((key("Supplement"), PdfObject::Integer(0)));
    proof {
        assert(obj_wf(csi@[0].1));
        assert(obj_wf(csi@[1].1));
        assert(obj_wf(csi@[2].1));
    }
    let fname2 = crate::chars::str_to_chars(font.get_name().as_str());
    let mut cd: Vec<(String, PdfObject)> = Vec::new();
    cd.push((key("Type"), name_obj("Font")));
    cd.push((key("Subtype"), name_obj("CIDFontType2")));
    cd.push((key("BaseFont"), PdfObject::Name(crate::chars::string_from_chars(&fname2))));
    cd.push((key("CIDSystemInfo"), PdfObject::Dictionary(csi)));
    cd.push((key("FontDescriptor"), PdfObject::Reference(font_descriptor_id)));
    cd.push((key("CIDToGIDMap"), name_obj("Identity")));
    cd.push((key("DW"), PdfObject::Integer(1000)));
    cd.push((key("W"), w_array));
    proof {
        assert forall|k: int| 0 <= k < cd@.len() implies obj_wf(#[trigger] cd@[k].1) by {
            assert(obj_wf(cd@[0].1));
            assert(obj_wf(cd@[1].1));
            assert(obj_wf(cd@[2].1));
            assert(obj_wf(cd@[3].1));
            assert(obj_wf(cd@[4].1));
            assert(obj_wf(cd@[5].1));
            assert(obj_wf(cd@[6].1));
            assert(obj_wf(cd@[7].1));
        }
    }
    let cid_font = PdfObject::Dictionary(cd);
    writer.write_object(cid_font_id, &cid_font);
    // 4. The Type0 composite font.
    let fname3 = crate::chars::str_to_chars(font.get_name().as_str());
    let mut desc: Vec<PdfObject> = Vec::new();
    desc.push(PdfObject::Reference(cid_font_id));
    proof {
        assert(obj_wf(desc@[0]));
    }
    let mut t0: Vec<(String, PdfObject)> = Vec::new();
    t0.push((key("Type"), name_obj("Font")));
    t0.push((key("Subtype"), name_obj("Type0")));
    t0.push((key("BaseFont"), PdfObject::Name(crate::chars::string_from_chars(&fname3))));
    t0.push((key("Encoding"), name_obj("Identity-H")));
    t0.push((key("DescendantFonts"), PdfObject::Array(desc)));
    proof {
        assert forall|k: int| 0 <= k < t0@.len() implies obj_wf(#[trigger] t0@[k].1) by {
            assert(obj_wf(t0@[0].1));
            assert(obj_wf(t0@[1].1));
            assert(obj_wf(t0@[2].1));
            assert(obj_wf(t0@[3].1));
            assert(obj_wf(t0@[4].1));
        }
    }
    let type0_font = PdfObject::Dictionary(t0);
    writer.write_object(type0_font_id, &type0_font);
    proof {
        assert(final(writer).objects@.subrange(0, old(writer).objects@.len() as int) =~= old(
            writer,
        ).objects@);
        assert(final(writer).xref@.subrange(0, old(writer).xref@.len() as int) =~= old(
            writer,
        ).xref@);
        assert(final(writer).buf@.subrange(0, old(writer).buf@.len() as int) =~= old(
            writer,
        ).buf@);
    }
    type0_font_id
}

} // verus!

verus! {

/// The union of glyph ids recorded for one font across these pages.
pub open spec fn doc_glyph_union(pages: Seq<Page>, idx: u32) -> Set<u16>
    decreases pages.len(),
{
    if pages.len() == 0 {
        Set::empty()
    } else {
        doc_glyph_union(pages.drop_last(), idx).union(
            gids_for(pages.last().used_glyphs@, idx),
        )
    }
}

/// Collect the union of glyph ids used for one font across pages.
#[verifier::loop_isolation(false)]
fn collect_usage(pages: &Vec<Page>, idx: u32) -> (u: GlyphUsage)
    ensures
        u.wf(),
        u@ == doc_glyph_union(pages@, idx),
{
    broadcast use vstd::set::group_set_axioms;

    let mut u = GlyphUsage::new();
    let mut p: usize = 0;
    proof {
        assert(u@ =~= doc_glyph_union(pages@.subrange(0, 0), idx));
    }
    while p < pages.len()
        invariant
            0 <= p <= pages@.len(),
            u.wf(),
            u@ == doc_glyph_union(pages@.subrange(0, p as int), idx),
        decreases pages@.len() - p,
    {
        let events = &pages[p].used_glyphs;
        let mut j: usize = 0;
        let ghost upre = u@;
        while j < events.len()
            invariant
                0 <= j <= events@.len(),
                events == &pages@[p as int].used_glyphs,
                u.wf(),
                u@ == upre.union(gids_for(events@.subrange(0, j as int), idx)),
            decreases events@.len() - j,
        {
            let ghost gpre = gids_for(events@.subrange(0, j as int), idx);
            let ev = events[j];
            if ev.0 == idx {
                u.mark_used(ev.1);
            }
            proof {
                let pre = events@.subrange(0, j as int);
                let cur = events@.subrange(0, j as int + 1);
                assert forall|g: u16| #[trigger] gids_for(cur, idx).contains(g) <==> (gpre.contains(
                    g,
                ) || (ev.0 == idx && ev.1 == g)) by {
                    if gpre.contains(g) {
                        let k = choose|k: int| 0 <= k < pre.len() && pre[k] == (idx, g);
                        assert(cur[k] == (idx, g));
                    }
                    if gids_for(cur, idx).contains(g) {
                        let k = choose|k: int| 0 <= k < cur.len() && cur[k] == (idx, g);
                        if k < pre.len() {
                            assert(pre[k] == (idx, g));
                        }
                    }
                    if ev.0 == idx && ev.1 == g {
                        assert(cur[j as int] == (idx, g));
                    }
                }
                if ev.0 == idx {
                    assert(gids_for(cur, idx) =~= gpre.insert(ev.1));
                } else {
                    assert(gids_for(cur, idx) =~= gpre);
                }
                assert(u@ =~= upre.union(gids_for(cur, idx)));
            }
            j = j + 1;
        }
        proof {
            let prepages = pages@.subrange(0, p as int);
            let curpages = pages@.subrange(0, p as int + 1);
            assert(curpages.drop_last() =~= prepages);
            assert(curpages.last() == pages@[p as int]);
            assert(events@.subrange(0, events@.len() as int) =~= events@);
            assert(u@ =~= doc_glyph_union(curpages, idx));
        }
        p = p + 1;
    }
    proof {
        assert(pages@.subrange(0, pages@.len() as int) =~= pages@);
    }
    u
}

/// A terminal call on the wrong mode.
#[derive(PartialEq, Eq, Structural, Clone, Copy, Debug)]
pub enum DocError {
    /// The streaming terminal was called on a buffered document, or the
    /// buffered terminal on a streaming one.
    WrongMode,
}

/// How a document accumulates its pages.
pub enum DocumentMode {
    /// Everything is kept in memory until the terminal call.
    Buffered(Vec<Page>),
    /// Objects are written as they arrive; the pages tree and the xref
    /// wait for `finalize`.
    Streaming {
        writer: PdfWriter,
        page_ids: Vec<u32>,
        next_object_id: u32,
        catalog_id: u32,
        pages_id: u32,
        font_id: u32,
        custom_font_ids: Vec<u32>,
        image_ids: Vec<u32>,
    },
}

/// A PDF document being assembled.
pub struct Document {
    pub mode: DocumentMode,
    pub fonts: Vec<Font>,
    pub fonts_embedded: bool,
    pub images: Vec<Image>,
}

impl Document {
    /// Registered fonts are well formed, and a streaming writer is sound
    /// with its ids in range.
    pub open spec fn wf(&self) -> bool {
        &&& forall|k: int| 0 <= k < self.fonts@.len() ==> (#[trigger] self.fonts@[k]).wf()
        &&& self.fonts@.len() <= 0xffff
        &&& self.images@.len() <= 0xfff_ffff
        &&& (self.mode matches DocumentMode::Streaming {
            writer,
            next_object_id,
            page_ids,
            custom_font_ids,
            ..
        } ==> writer.wf() && next_object_id <= 0x7fff_0000 && page_ids@.len() < 0x7fff_ffff
            && custom_font_ids@.len() <= 0xffff && (self.fonts_embedded
            || custom_font_ids@.len() == 0))
        &&& (self.mode matches DocumentMode::Streaming { image_ids, .. } ==> image_ids@.len()
            <= 0xfff_ffff)
        &&& (self.mode matches DocumentMode::Buffered(pages) ==> pages@.len() < 0xfff_ffff
            && (forall|k: int| 0 <= k < pages@.len() ==> (#[trigger] pages@[k]).wf()))
    }

    /// An empty buffered document.
    pub fn new() -> (r: Document)
        ensures
            r.wf(),
            r.mode matches DocumentMode::Buffered(pages) && pages@.len() == 0,
            r.fonts@.len() == 0,
            r.images@.len() == 0,
            !r.fonts_embedded,
    {
        Document {
            mode: DocumentMode::Buffered(Vec::new()),
            fonts: Vec::new(),
            fonts_embedded: false,
            images: Vec::new(),
        }
    }

    /// A streaming document: the catalog (with a forward reference to the
    /// pages tree at id 2) and the built-in Helvetica at ids 1 and 3 go out
    /// at once; the next free id is 4.
    pub fn streaming() -> (r: Document)
        ensures
            r.wf(),
            r.fonts@.len() == 0,
            r.images@.len() == 0,
            !r.fonts_embedded,
            r.mode matches DocumentMode::Streaming {
                writer,
                page_ids,
                next_object_id,
                catalog_id,
                pages_id,
                font_id,
                custom_font_ids,
                image_ids,
            } && {
                &&& catalog_id == 1
                &&& pages_id == 2
                &&& font_id == 3
                &&& next_object_id == 4
                &&& page_ids@.len() == 0
                &&& custom_font_ids@.len() == 0
                &&& image_ids@.len() == 0
                &&& writer.objects@.len() == 2
                &&& writer.objects@[0].0 == 1
                &&& catalog_obj_ok(writer.objects@[0].1, 2)
                &&& writer.objects@[1].0 == 3
                &&& helv_obj_ok(writer.objects@[1].1)
            },
    {
        let mut writer = PdfWriter::new();
        proof {
            assert(header_bytes() + records_of(writer.objects@) =~= header_bytes());
        }
        let catalog_id: u32 = 1;
        let pages_id: u32 = 2;
        let font_id: u32 = 3;
        let next_object_id: u32 = 4;
        let catalog = catalog_obj(pages_id);
        writer.write_object(catalog_id, &catalog);
        let font = helvetica_obj();
        writer.write_object(font_id, &font);
        Document {
            mode: DocumentMode::Streaming {
                writer,
                page_ids: Vec::new(),
                next_object_id,
                catalog_id,
                pages_id,
                font_id,
                custom_font_ids: Vec::new(),
                image_ids: Vec::new(),
            },
            fonts: Vec::new(),
            fonts_embedded: false,
            images: Vec::new(),
        }
    }

    /// Register a font; its index names it in page calls.
    pub fn add_font(&mut self, font: &Font) -> (r: u32)
        requires
            old(self).wf(),
            font.wf(),
            old(self).fonts@.len() < 0xffff,
        ensures
            final(self).wf(),
            r == old(self).fonts@.len(),
            final(self).fonts@.len() == old(self).fonts@.len() + 1,
            final(self).fonts@.subrange(0, old(self).fonts@.len() as int) == old(self).fonts@,
            final(self).fonts@.last().data@ == font.data@,
            final(self).fonts@.last().name@ == font.name@,
            final(self).mode == old(self).mode,
            final(self).images == old(self).images,
    {
        let data2 = clone_bytes(&font.data);
        proof {
            assert(crate::font::ttf_parses(data2@));
        }
        let copy = Font::from_bytes(data2, font.get_name().clone());
        proof {
            assert(copy is Ok);
        }
        let f = match copy {
            Ok(f) => f,
            Err(_) => {
                proof {
                    assert(false);
                }
                loop
                    invariant
                        false,
                    decreases 0int,
                {
                }
            },
        };
        let r = self.fonts.len() as u32;
        let ghost pre = self.fonts@;
        self.fonts.push(f);
        proof {
            assert(self.fonts@.subrange(0, pre.len() as int) =~= pre);
        }
        r
    }
}

} // verus!

verus! {

/// The resource name `F{n}` or `Im{n}`.
fn res_key(prefix: char, prefix2: Option<char>, n: u64) -> (r: String)
    ensures
        (match prefix2 {
            Some(c2) => r@ == seq![prefix, c2] + crate::numfmt::dec_of(n as nat).map_values(
                |b: u8| b as char,
            ),
            None => r@ == seq![prefix] + crate::numfmt::dec_of(n as nat).map_values(
                |b: u8| b as char,
            ),
        }),
{
    let mut digits: Vec<u8> = Vec::new();
    crate::numfmt::push_u64(&mut digits, n);
    let mut cs: Vec<char> = Vec::new();
    cs.push(prefix);
    match prefix2 {
        Some(c2) => {
            cs.push(c2);
        },
        None => {},
    }
    let mut i: usize = 0;
    while i < digits.len()
        invariant
            0 <= i <= digits@.len(),
            digits@ == crate::numfmt::dec_of(n as nat),
            cs@ == (match prefix2 {
                Some(c2) => seq![prefix, c2],
                None => seq![prefix],
            }) + digits@.subrange(0, i as int).map_values(|b: u8| b as char),
        decreases digits@.len() - i,
    {
        let b = digits[i];
        proof {
            lemma_dec_digits_bound(n as nat);
        }
        cs.push(b as char);
        proof {
            assert(cs@ =~= (match prefix2 {
                Some(c2) => seq![prefix, c2],
                None => seq![prefix],
            }) + digits@.subrange(0, i as int + 1).map_values(|b2: u8| b2 as char));
        }
        i = i + 1;
    }
    proof {
        assert(digits@.subrange(0, digits@.len() as int) =~= digits@);
    }
    crate::chars::string_from_chars(&cs)
}

/// Decimal digit bytes are ASCII.
proof fn lemma_dec_digits_bound(n: nat)
    ensures
        forall|k: int|
            0 <= k < crate::numfmt::dec_of(n).len() ==> 48 <= #[trigger] crate::numfmt::dec_of(
                n,
            )[k] <= 57,
    decreases n,
{
    if n >= 10 {
        lemma_dec_digits_bound(n / 10);
        let d = crate::numfmt::dec_of(n);
        let pre = crate::numfmt::dec_of(n / 10);
        assert forall|k: int| 0 <= k < d.len() implies 48 <= #[trigger] d[k] <= 57 by {
            if k < pre.len() {
                assert(d[k] == pre[k]);
            }
        }
    }
}

/// The resources dictionary of a page: `/Font` maps F1 to the built-in
/// font and F{i+2} to the i-th registered font; `/XObject` maps Im{k} for
/// each image the page places whose index is registered.
fn build_resources(
    font_id: u32,
    type0_ids: &Vec<u32>,
    used_images: &Vec<u32>,
    image_ids: &Vec<u32>,
) -> (r: PdfObject)
    requires
        type0_ids@.len() <= 0xffff,
    ensures
        obj_wf(r),
        font_resources_ok(r, font_id, type0_ids@),
        xobject_map_ok(r, used_images@, image_ids@),
{
    let mut font_resources: Vec<(String, PdfObject)> = Vec::new();
    font_resources.push((res_key('F', None, 1), PdfObject::Reference(font_id)));
    proof {
        lemma_dec_chars_bytes(1);
        assert(font_resources@[0].0@ == seq!['F'] + dec_chars(1));
    }
    let mut i: usize = 0;
    while i < type0_ids.len()
        invariant
            0 <= i <= type0_ids@.len(),
            type0_ids@.len() <= 0xffff,
            font_resources@.len() == i + 1,
            forall|k: int| 0 <= k < font_resources@.len() ==> obj_wf(
                #[trigger] font_resources@[k].1,
            ),
            forall|j: int|
                0 <= j <= i ==> (#[trigger] font_resources@[j]).0@ == seq!['F'] + dec_chars(
                    (j + 1) as nat,
                ),
            font_resources@[0].1 == PdfObject::Reference(font_id),
            forall|j: int|
                1 <= j <= i ==> (#[trigger] font_resources@[j]).1 == PdfObject::Reference(
                    type0_ids@[j - 1],
                ),
        decreases type0_ids@.len() - i,
    {
        let ghost fpre = font_resources@;
        font_resources.push(
            (res_key('F', None, (i as u64) + 2), PdfObject::Reference(type0_ids[i])),
        );
        proof {
            lemma_dec_chars_bytes((i + 2) as nat);
            assert forall|k: int| 0 <= k < font_resources@.len() implies obj_wf(
                #[trigger] font_resources@[k].1,
            ) by {
                if k < fpre.len() {
                    assert(font_resources@[k] == fpre[k]);
                }
            }
            assert forall|j: int|
                0 <= j <= i + 1 implies (#[trigger] font_resources@[j]).0@ == seq!['F'] + dec_chars(
                (j + 1) as nat,
            ) by {
                if j < fpre.len() {
                    assert(font_resources@[j] == fpre[j]);
                }
            }
            assert forall|j: int|
                1 <= j <= i + 1 implies (#[trigger] font_resources@[j]).1 == PdfObject::Reference(
                type0_ids@[j - 1],
            ) by {
                if j < fpre.len() {
                    assert(font_resources@[j] == fpre[j]);
                }
            }
        }
        i = i + 1;
    }
    let mut xobjects: Vec<(String, PdfObject)> = Vec::new();
    let ghost nids = image_ids@.len() as int;
    let mut j: usize = 0;
    proof {
        assert(selected_images(used_images@.subrange(0, 0), nids) =~= Seq::<u32>::empty());
    }
    while j < used_images.len()
        invariant
            0 <= j <= used_images@.len(),
            nids == image_ids@.len(),
            forall|k: int| 0 <= k < xobjects@.len() ==> obj_wf(#[trigger] xobjects@[k].1),
            xobjects@.len() == selected_images(used_images@.subrange(0, j as int), nids).len(),
            forall|k: int|
                0 <= k < xobjects@.len() ==> (#[trigger] xobjects@[k]).0@ == seq!['I', 'm']
                    + dec_chars(
                    selected_images(used_images@.subrange(0, j as int), nids)[k] as nat,
                ) && xobjects@[k].1 == PdfObject::Reference(
                    image_ids@[selected_images(used_images@.subrange(0, j as int), nids)[k] as int],
                ),
        decreases used_images@.len() - j,
    {
        let idx = used_images[j];
        let ghost pre_sel = selected_images(used_images@.subrange(0, j as int), nids);
        proof {
            let prefix = used_images@.subrange(0, j as int);
            let cur = used_images@.subrange(0, j as int + 1);
            assert(cur.drop_last() =~= prefix);
            assert(cur.last() == used_images@[j as int]);
        }
        if (idx as usize) < image_ids.len() {
            let ghost xpre = xobjects@;
            xobjects.push(
                (res_key('I', Some('m'), idx as u64), PdfObject::Reference(
                    image_ids[idx as usize],
                )),
            );
            proof {
                assert(selected_images(used_images@.subrange(0, j as int + 1), nids)
                    =~= pre_sel.push(used_images@[j as int]));
                assert forall|k: int| 0 <= k < xobjects@.len() implies obj_wf(
                    #[trigger] xobjects@[k].1,
                ) by {
                    if k < xpre.len() {
                        assert(xobjects@[k] == xpre[k]);
                    }
                }
                assert forall|k: int|
                    0 <= k < xobjects@.len() implies (#[trigger] xobjects@[k]).0@ == seq![
                    'I',
                    'm',
                ] + dec_chars(
                    selected_images(used_images@.subrange(0, j as int + 1), nids)[k] as nat,
                ) && xobjects@[k].1 == PdfObject::Reference(
                    image_ids@[selected_images(used_images@.subrange(0, j as int + 1), nids)[
                        k
                    ] as int],
                ) by {
                    if k < xpre.len() {
                        assert(xobjects@[k] == xpre[k]);
                        assert(selected_images(used_images@.subrange(0, j as int + 1), nids)[k]
                            == pre_sel[k]);
                    } else {
                        lemma_dec_chars_bytes(idx as nat);
                        assert(selected_images(used_images@.subrange(0, j as int + 1), nids)[k]
                            == used_images@[j as int]);
                    }
                }
            }
        } else {
            proof {
                assert(selected_images(used_images@.subrange(0, j as int + 1), nids)
                    =~= pre_sel);
            }
        }
        j = j + 1;
    }
    let mut d: Vec<(String, PdfObject)> = Vec::new();
    let has_x = xobjects.len() > 0;
    proof {
        assert(used_images@.subrange(0, used_images@.len() as int) =~= used_images@);
    }
    d.push((key("Font"), PdfObject::Dictionary(font_resources)));
    if has_x {
        d.push((key("XObject"), PdfObject::Dictionary(xobjects)));
    }
    proof {
        assert forall|k: int| 0 <= k < d@.len() implies obj_wf(#[trigger] d@[k].1) by {
            assert(obj_wf(d@[0].1));
            if k == 1 {
                assert(obj_wf(d@[1].1));
            }
        }
    }
    PdfObject::Dictionary(d)
}

/// A page's object: type, parent, media box, resources, contents.
fn build_page_obj(page: &Page, pages_id: u32, resources: PdfObject, content_id: u32) -> (r:
    PdfObject)
    requires
        page.wf(),
        obj_wf(resources),
    ensures
        obj_wf(r),
        page_parent_ok(r, pages_id),
        r->Dictionary_0@.len() == 5,
        r->Dictionary_0@[0].0@ == "Type"@,
        r->Dictionary_0@[0].1 is Name,
        r->Dictionary_0@[0].1->Name_0@ == "Page"@,
        r->Dictionary_0@[2].0@ == "MediaBox"@,
        r->Dictionary_0@[2].1 is Array,
        r->Dictionary_0@[2].1->Array_0@ =~= seq![
            PdfObject::Integer(0int as i64),
            PdfObject::Integer(0int as i64),
            PdfObject::Real(page.width),
            PdfObject::Real(page.height),
        ],
        r->Dictionary_0@[3].0@ == "Resources"@,
        r->Dictionary_0@[3].1 == resources,
        r->Dictionary_0@[4].0@ == "Contents"@,
        r->Dictionary_0@[4].1 == PdfObject::Reference(content_id),
{
    let mut mb: Vec<PdfObject> = Vec::new();
    mb.push(PdfObject::Integer(0));
    mb.push(PdfObject::Integer(0));
    mb.push(PdfObject::Real(page.width));
    mb.push(PdfObject::Real(page.height));
    proof {
        assert forall|k: int| 0 <= k < mb@.len() implies obj_wf(#[trigger] mb@[k]) by {
            assert(obj_wf(mb@[0]));
            assert(obj_wf(mb@[1]));
            assert(obj_wf(mb@[2]));
            assert(obj_wf(mb@[3]));
        }
    }
    let mut d: Vec<(String, PdfObject)> = Vec::new();
    d.push((key("Type"), name_obj("Page")));
    d.push((key("Parent"), PdfObject::Reference(pages_id)));
    d.push((key("MediaBox"), PdfObject::Array(mb)));
    d.push((key("Resources"), resources));
    d.push((key("Contents"), PdfObject::Reference(content_id)));
    proof {
        assert forall|k: int| 0 <= k < d@.len() implies obj_wf(#[trigger] d@[k].1) by {
            assert(obj_wf(d@[0].1));
            assert(obj_wf(d@[1].1));
            assert(obj_wf(d@[2].1));
            assert(obj_wf(d@[3].1));
            assert(obj_wf(d@[4].1));
        }
    }
    PdfObject::Dictionary(d)
}

} // verus!

verus! {

/// The closing step of a streaming document, stated of a writer: the pages
/// tree over exactly the collected kids is the last object written, and the
/// xref table and trailer follow it.
pub open spec fn streaming_closed(
    w: PdfWriter,
    w0: PdfWriter,
    pages_id: u32,
    page_ids: Seq<u32>,
    catalog_id: u32,
) -> bool {
    &&& w.wf()
    &&& trailer_ok(w.buf@)
    &&& sorted_by_id(w.xref@)
    &&& w.objects@.len() == w0.objects@.len() + 1
    &&& w.objects@.subrange(0, w0.objects@.len() as int) == w0.objects@
    &&& w.objects@.last().0 == pages_id
    &&& pages_obj_ok(w.objects@.last().1, page_ids)
    &&& w.buf@ == w0.buf@ + obj_record(pages_id, w.objects@.last().1) + xref_block(
        w.xref@,
        (w0.buf@.len() + obj_record(pages_id, w.objects@.last().1).len()) as nat,
        catalog_id,
    )
    &&& w.xref@.to_multiset() == w0.xref@.push((pages_id, w0.buf@.len() as u64)).to_multiset()
}

/// The bytes a streaming document closes with: some writer in the
/// [`streaming_closed`] relation to the document's writer holds exactly
/// these bytes.
pub open spec fn streaming_close_ok(
    bytes: Seq<u8>,
    w0: PdfWriter,
    pages_id: u32,
    page_ids: Seq<u32>,
    catalog_id: u32,
) -> bool {
    exists|w: PdfWriter| #[trigger] streaming_closed(w, w0, pages_id, page_ids, catalog_id)
        && bytes == w.buf@
}

impl Document {
    /// Register an image. A buffered document keeps it for the terminal
    /// call; a streaming document writes its XObject at once at the next
    /// free id. The returned index names it in page calls.
    pub fn add_image(&mut self, image: Image) -> (r: u32)
        requires
            old(self).wf(),
            old(self).images@.len() < 0xfff_ffff,
            old(self).mode matches DocumentMode::Streaming { next_object_id, image_ids, .. }
                ==> next_object_id < 0x7fff_0000 && image_ids@.len() < 0xfff_ffff,
        ensures
            final(self).wf(),
            final(self).fonts == old(self).fonts,
            final(self).fonts_embedded == old(self).fonts_embedded,
            old(self).mode is Buffered ==> {
                &&& final(self).images@ == old(self).images@.push(image)
                &&& r == old(self).images@.len()
                &&& final(self).mode == old(self).mode
            },
            old(self).mode matches DocumentMode::Streaming {
                writer: w0,
                page_ids: p0,
                next_object_id: n0,
                catalog_id: c0,
                pages_id: g0,
                font_id: f0,
                custom_font_ids: cf0,
                image_ids: im0,
            } ==> final(self).mode matches DocumentMode::Streaming {
                writer: w1,
                page_ids: p1,
                next_object_id: n1,
                catalog_id: c1,
                pages_id: g1,
                font_id: f1,
                custom_font_ids: cf1,
                image_ids: im1,
            } && {
                &&& n1 == n0 + 1
                &&& im1@ == im0@.push(n0)
                &&& r == im0@.len()
                &&& p1 == p0
                &&& cf1 == cf0
                &&& c1 == c0
                &&& g1 == g0
                &&& f1 == f0
                &&& w1.objects@.len() == w0.objects@.len() + 1
                &&& w1.objects@.subrange(0, w0.objects@.len() as int) == w0.objects@
                &&& w1.objects@.last().0 == n0
                &&& xobject_ok(w1.objects@.last().1, image)
                &&& final(self).images == old(self).images
            },
    {
        match &mut self.mode {
            DocumentMode::Buffered(_) => {
                let r = self.images.len() as u32;
                self.images.push(image);
                r
            },
            DocumentMode::Streaming { writer, next_object_id, image_ids, .. } => {
                let image_id = *next_object_id;
                embed_image(writer, &image, image_id);
                *next_object_id = *next_object_id + 1;
                let r = image_ids.len() as u32;
                image_ids.push(image_id);
                r
            },
        }
    }

    /// Append a page. A buffered document stores a copy. A streaming
    /// document first embeds any registered fonts (full, since usage is not
    /// yet known), then writes the page's content stream and its page
    /// object at the next two free ids and records the page id as a kid.
    pub fn add_page(&mut self, page: &Page)
        requires
            old(self).wf(),
            page.wf(),
            old(self).mode matches DocumentMode::Buffered(pages) ==> pages@.len() + 1
                < 0xfff_ffff,
            old(self).mode matches DocumentMode::Streaming { next_object_id, page_ids, .. }
                ==> next_object_id < 0x7fff_0000 - 4 * old(self).fonts@.len() - 2 && page_ids@.len()
                + 1 < 0x7fff_ffff,
        ensures
            final(self).wf(),
            final(self).fonts@.len() == old(self).fonts@.len(),
            old(self).mode matches DocumentMode::Buffered(pages) ==> {
                &&& final(self).mode matches DocumentMode::Buffered(ps2)
                &&& ps2@.len() == pages@.len() + 1
                &&& ps2@.subrange(0, pages@.len() as int) == pages@
                &&& ps2@.last().content@ == page.content@
                &&& ps2@.last().used_glyphs@ == page.used_glyphs@
                &&& ps2@.last().used_images@ == page.used_images@
                &&& ps2@.last().width == page.width
                &&& ps2@.last().height == page.height
            },
            old(self).mode matches DocumentMode::Streaming {
                writer: w0,
                page_ids: p0,
                next_object_id: n0,
                catalog_id: c0,
                pages_id: g0,
                font_id: f0,
                custom_font_ids: cf0,
                image_ids: im0,
            } ==> final(self).mode matches DocumentMode::Streaming {
                writer: w1,
                page_ids: p1,
                next_object_id: n1,
                catalog_id: c1,
                pages_id: g1,
                font_id: f1,
                custom_font_ids: cf1,
                image_ids: im1,
            } && {
                let emb: int = if !old(self).fonts_embedded && old(self).fonts@.len() > 0 {
                    4 * old(self).fonts@.len() as int
                } else {
                    0
                };
                &&& n1 == n0 + emb + 2
                &&& p1@ == p0@.push((n0 + emb + 1) as u32)
                &&& im1 == im0
                &&& c1 == c0
                &&& g1 == g0
                &&& f1 == f0
                &&& (emb == 0 ==> cf1 == cf0)
                &&& (emb != 0 ==> cf1@.len() == old(self).fonts@.len())
                &&& w1.objects@.len() == w0.objects@.len() + emb + 2
                &&& w1.objects@.subrange(0, w0.objects@.len() as int) == w0.objects@
                &&& w1.objects@[w0.objects@.len() as int + emb].0 == (n0 + emb) as u32
                &&& w1.objects@[w0.objects@.len() as int + emb].1 is Stream
                &&& w1.objects@[w0.objects@.len() as int + emb].1->Stream_1@ == page.content@
                &&& w1.objects@[w0.objects@.len() as int + emb].1->Stream_0@.len() == 0
                &&& w1.objects@.last().0 == (n0 + emb + 1) as u32
                &&& page_obj_ok(
                    w1.objects@.last().1,
                    g0,
                    page.width,
                    page.height,
                    (n0 + emb) as u32,
                    f0,
                    cf1@,
                    page.used_images@,
                    im0@,
                )
            },
    {
        match &mut self.mode {
            DocumentMode::Buffered(pages) => {
                let ghost pre = pages@;
                pages.push(page.duplicate());
                proof {
                    assert(pages@.subrange(0, pre.len() as int) =~= pre);
                }
            },
            DocumentMode::Streaming {
                writer,
                page_ids,
                next_object_id,
                pages_id,
                font_id,
                custom_font_ids,
                image_ids,
                ..
            } => {
                // Embed fonts lazily before the first page, unsubsetted.
                if !self.fonts_embedded && self.fonts.len() > 0 {
                    let ghost w_start = writer.objects@;
                    let ghost n_start = *next_object_id as int;
                    let mut i: usize = 0;
                    while i < self.fonts.len()
                        invariant
                            0 <= i <= self.fonts@.len(),
                            self.fonts@.len() <= 0xffff,
                            writer.wf(),
                            forall|k: int|
                                0 <= k < self.fonts@.len() ==> (#[trigger] self.fonts@[k]).wf(),
                            *next_object_id <= 0x7fff_0000 - 4 * (self.fonts@.len() - i) - 2,
                            custom_font_ids@.len() == i,
                            *next_object_id == n_start + 4 * i,
                            writer.objects@.len() == w_start.len() + 4 * i,
                            writer.objects@.subrange(0, w_start.len() as int) == w_start,
                        decreases self.fonts@.len() - i,
                    {
                        let base_id = *next_object_id;
                        let ghost wpre = writer.objects@;
                        let type0_id = embed_custom_font(writer, &self.fonts[i], base_id, None);
                        custom_font_ids.push(type0_id);
                        *next_object_id = *next_object_id + 4;
                        proof {
                            assert(writer.objects@.subrange(0, w_start.len() as int)
                                =~= w_start);
                        }
                        i = i + 1;
                    }
                    self.fonts_embedded = true;
                }
                let content_id = *next_object_id;
                *next_object_id = *next_object_id + 1;
                let mut cd: Vec<(String, PdfObject)> = Vec::new();
                let content_stream = PdfObject::Stream(cd, clone_bytes(&page.content));
                writer.write_object(content_id, &content_stream);
                let resources = build_resources(
                    *font_id,
                    custom_font_ids,
                    &page.used_images,
                    image_ids,
                );
                let page_id = *next_object_id;
                *next_object_id = *next_object_id + 1;
                let page_obj = build_page_obj(page, *pages_id, resources, content_id);
                writer.write_object(page_id, &page_obj);
                page_ids.push(page_id);
                proof {
                    let w0 = old(self).mode->Streaming_writer;
                    assert(writer.objects@.subrange(0, w0.objects@.len() as int)
                        =~= w0.objects@);
                }
            },
        }
    }

    /// Close a streaming document: write the pages tree over the collected
    /// kids, then the xref table and trailer, and hand back the file bytes.
    /// Fails exactly on a buffered document, which is left unchanged.
    pub fn finalize(&mut self) -> (r: Result<Vec<u8>, DocError>)
        requires
            old(self).wf(),
        ensures
            final(self).wf(),
            r is Ok <==> old(self).mode is Streaming,
            old(self).mode is Buffered ==> *final(self) == *old(self),
            r matches Ok(bytes) ==> {
                &&& bytes@.len() >= 15
                &&& bytes@.subrange(0, 15) == header_bytes()
                &&& trailer_ok(bytes@)
                &&& old(self).mode matches DocumentMode::Streaming {
                    writer: w0,
                    page_ids: p0,
                    pages_id: g0,
                    catalog_id: c0,
                    ..
                } && streaming_close_ok(bytes@, w0, g0, p0@, c0)
            },
    {
        match &mut self.mode {
            DocumentMode::Buffered(_) => Err(DocError::WrongMode),
            DocumentMode::Streaming { writer, page_ids, pages_id, catalog_id, .. } => {
                let ghost w0 = *writer;
                let pages = pages_obj(page_ids);
                writer.write_object(*pages_id, &pages);
                writer.write_xref_and_trailer(*catalog_id);
                let bytes = clone_bytes(&writer.buf);
                proof {
                    assert(writer.buf@.subrange(0, 15) =~= header_bytes());
                    assert(writer.objects@.last() == (*pages_id, pages));
                    assert(writer.objects@.subrange(0, w0.objects@.len() as int)
                        =~= w0.objects@);
                    assert(streaming_closed(*writer, w0, *pages_id, page_ids@, *catalog_id)
                        && bytes@ == writer.buf@);
                    assert(streaming_close_ok(bytes@, w0, *pages_id, page_ids@, *catalog_id));
                }
                Ok(bytes)
            },
        }
    }
}


} // verus!

verus! {

/// The first object id after the catalog, pages tree, built-in font,
/// font bundles and images.
pub open spec fn first_free_id(nf: int, ni: int) -> int {
    4 + 4 * nf + ni
}

/// The object id of page `i` in a buffered document.
pub open spec fn buffered_page_id(nf: int, ni: int, i: int) -> int {
    first_free_id(nf, ni) + 2 * i + 1
}

/// The page object ids of a buffered document, in order.
pub open spec fn buffered_page_ids(nf: int, ni: int, np: int) -> Seq<u32> {
    Seq::new(np as nat, |i: int| buffered_page_id(nf, ni, i) as u32)
}

/// The image object ids of a buffered document, in order.
pub open spec fn buffered_image_ids(nf: int, ni: int) -> Seq<u32> {
    Seq::new(ni as nat, |j: int| (4 + 4 * nf + j) as u32)
}

/// The Type0 object ids of a buffered document's fonts, in order.
pub open spec fn buffered_type0_ids(nf: int) -> Seq<u32> {
    Seq::new(nf as nat, |i: int| (4 + 4 * i + 3) as u32)
}

/// The four objects of one embedded font bundle as they stand in a
/// buffered document's object log: FontFile2 whose body is the face
/// subsetted to the glyphs its pages used, FontDescriptor, CIDFontType2
/// whose widths cover exactly those glyph ids in ascending order, and the
/// Type0 composite font, referencing one another by their fixed ids.
pub open spec fn font_bundle_ok(
    objs: Seq<(u32, PdfObject)>,
    pages: Seq<Page>,
    fonts: Seq<Font>,
    i: int,
) -> bool {
    &&& font_descriptor_ok(
        objs[3 + 4 * i + 1].1,
        fonts[i].data@,
        fonts[i].name@,
        (4 + 4 * i) as u32,
    )
    &&& cid_font_ok(objs[3 + 4 * i + 2].1, fonts[i].name@, (4 + 4 * i + 1) as u32)
    &&& type0_ok(objs[3 + 4 * i + 3].1, fonts[i].name@, (4 + 4 * i + 2) as u32)
    &&& exists|gids: Seq<u16>|
        {
            &&& #[trigger] gids.to_set() == doc_glyph_union(pages, i as u32)
            &&& (forall|a: int, b: int| 0 <= a < b < gids.len() ==> gids[a] < gids[b])
            &&& w_array_matches(
                cid_w_entry(objs[3 + 4 * i + 2].1)->Array_0@,
                fonts[i].data@,
                gids,
            )
            &&& font_file_ok(objs[3 + 4 * i].1, font_body_of(fonts[i].data@, Option::Some(gids)))
        }
}

/// Everything the buffered assembly guarantees of its writer: the header
/// leads and `%%EOF` closes; every cross-reference entry points at its
/// object and the table is sorted by id; the object log holds exactly
/// `3 + 4F + I + 2P` objects with ids `1..` in order — catalog, pages
/// tree, built-in font, four objects per font, one per image, then a
/// content stream and a page object per page; the pages tree counts
/// exactly its kids; every page object is a full page dictionary whose
/// resources name every font and whose content stream holds the page's
/// bytes; and each CID font declares widths for exactly the glyph ids its
/// pages recorded, in ascending order.
pub open spec fn buffered_writer_ok(
    w: PdfWriter,
    pages: Seq<Page>,
    fonts: Seq<Font>,
    images: Seq<Image>,
) -> bool {
    &&& w.wf()
    &&& trailer_ok(w.buf@)
    &&& sorted_by_id(w.xref@)
    &&& w.buf@ == header_bytes() + records_of(w.objects@) + xref_block(
        w.xref@,
        (header_bytes() + records_of(w.objects@)).len(),
        1,
    )
    &&& w.objects@.len() == 3 + 4 * fonts.len() + images.len() + 2 * pages.len()
    &&& forall|k: int| 0 <= k < w.objects@.len() ==> (#[trigger] w.objects@[k]).0 == k + 1
    &&& w.objects@[1].0 == 2
    &&& catalog_obj_ok(w.objects@[0].1, 2)
    &&& helv_obj_ok(w.objects@[2].1)
    &&& pages_obj_ok(
        w.objects@[1].1,
        buffered_page_ids(fonts.len() as int, images.len() as int, pages.len() as int),
    )
    &&& forall|j: int|
        0 <= j < images.len() ==> xobject_ok(
            (#[trigger] w.objects@[3 + 4 * fonts.len() + j]).1,
            images[j],
        )
    &&& forall|i: int|
        0 <= i < pages.len() ==> {
            &&& (#[trigger] w.objects@[3 + 4 * fonts.len() + images.len() + 2 * i + 1]).0
                == buffered_page_id(fonts.len() as int, images.len() as int, i)
            &&& page_obj_ok(
                w.objects@[3 + 4 * fonts.len() + images.len() + 2 * i + 1].1,
                2,
                pages[i].width,
                pages[i].height,
                (first_free_id(fonts.len() as int, images.len() as int) + 2 * i) as u32,
                3,
                buffered_type0_ids(fonts.len() as int),
                pages[i].used_images@,
                buffered_image_ids(fonts.len() as int, images.len() as int),
            )
            &&& (#[trigger] w.objects@[3 + 4 * fonts.len() + images.len() + 2 * i]).1 is Stream
            &&& w.objects@[3 + 4 * fonts.len() + images.len() + 2 * i].1->Stream_1@
                == pages[i].content@
        }
    &&& forall|i: int| 0 <= i < fonts.len() ==> #[trigger] font_bundle_ok(
        w.objects@,
        pages,
        fonts,
        i,
    )
}

/// The bytes of a buffered document are the buffer of a sound writer built
/// over exactly these pages, fonts and images.
pub open spec fn buffered_output_ok(
    bytes: Seq<u8>,
    pages: Seq<Page>,
    fonts: Seq<Font>,
    images: Seq<Image>,
) -> bool {
    exists|w: PdfWriter| #[trigger] buffered_writer_ok(w, pages, fonts, images) && bytes == w.buf@
}

impl Document {
    /// Assemble a buffered document: catalog, pages tree, built-in font,
    /// each custom font subsetted to the glyphs its pages used, each image,
    /// then every page's content stream and page object, and the closing
    /// xref table and trailer. The result satisfies [`buffered_writer_ok`].
    #[verifier::loop_isolation(false)]
    #[verifier::rlimit(100)]
    pub fn build_buffered(pages: &Vec<Page>, fonts: &Vec<Font>, images: &Vec<Image>) -> (w:
        PdfWriter)
        requires
            forall|k: int| 0 <= k < fonts@.len() ==> (#[trigger] fonts@[k]).wf(),
            forall|k: int| 0 <= k < pages@.len() ==> (#[trigger] pages@[k]).wf(),
            fonts@.len() <= 0xffff,
            images@.len() <= 0xfff_ffff,
            pages@.len() < 0xfff_ffff,
        ensures
            buffered_writer_ok(w, pages@, fonts@, images@),
    {
        let mut writer = PdfWriter::new();
        proof {
            assert(header_bytes() + records_of(writer.objects@) =~= header_bytes());
        }
        let catalog_id: u32 = 1;
        let pages_id: u32 = 2;
        let font_id: u32 = 3;
        let nf = fonts.len();
        let ni = images.len();
        let np = pages.len();
        // Ids are assigned up front: four per font, one per image, then a
        // content stream and a page object per page.
        let base: u32 = 4 + 4 * (nf as u32) + (ni as u32);
        let mut page_object_ids: Vec<u32> = Vec::new();
        let mut i: usize = 0;
        while i < np
            invariant
                0 <= i <= np,
                np == pages@.len(),
                nf == fonts@.len(),
                ni == images@.len(),
                base == first_free_id(nf as int, ni as int),
                page_object_ids@.len() == i,
                forall|k: int| 0 <= k < i ==> (#[trigger] page_object_ids@[k]) == buffered_page_id(
                    nf as int,
                    ni as int,
                    k,
                ),
            decreases np - i,
        {
            page_object_ids.push(base + 2 * (i as u32) + 1);
            i = i + 1;
        }
        proof {
            assert(page_object_ids@ =~= buffered_page_ids(nf as int, ni as int, np as int));
        }
        // Catalog, pages tree, built-in font.
        let catalog = catalog_obj(pages_id);
        writer.write_object(catalog_id, &catalog);
        let pages_tree = pages_obj(&page_object_ids);
        writer.write_object(pages_id, &pages_tree);
        let helv = helvetica_obj();
        writer.write_object(font_id, &helv);
        proof {
            assert(writer.objects@[0].0 == 1);
            assert(writer.objects@[1].0 == 2);
            assert(writer.objects@[2].0 == 3);
            assert(writer.objects@[1].1 == pages_tree);
        }
        // Custom fonts, each subsetted to the union of its pages' usage.
        let mut fi: usize = 0;
        while fi < nf
            invariant
                0 <= fi <= nf,
                nf == fonts@.len(),
                ni == images@.len(),
                np == pages@.len(),
                writer.wf(),
                writer.buf@ == header_bytes() + records_of(writer.objects@),
                writer.objects@.len() == 3 + 4 * fi,
                forall|k: int|
                    0 <= k < writer.objects@.len() ==> (#[trigger] writer.objects@[k]).0 == k + 1,
                writer.objects@[1].0 == 2,
                catalog_obj_ok(writer.objects@[0].1, 2),
                helv_obj_ok(writer.objects@[2].1),
                pages_obj_ok(
                    writer.objects@[1].1,
                    buffered_page_ids(nf as int, ni as int, np as int),
                ),
                forall|i2: int|
                    0 <= i2 < fi ==> #[trigger] font_bundle_ok(writer.objects@, pages@, fonts@, i2),
            decreases nf - fi,
        {
            let usage = collect_usage(pages, fi as u32);
            let ghost opre = writer.objects@;
            let base_id: u32 = 4 + 4 * (fi as u32);
            let type0_id = embed_custom_font(&mut writer, &fonts[fi], base_id, Some(&usage));
            proof {
                assert forall|i2: int|
                    0 <= i2 < fi + 1 implies #[trigger] font_bundle_ok(
                    writer.objects@,
                    pages@,
                    fonts@,
                    i2,
                ) by {
                    if i2 < fi {
                        assert(writer.objects@[3 + 4 * i2] == opre[3 + 4 * i2]);
                        assert(writer.objects@[3 + 4 * i2 + 1] == opre[3 + 4 * i2 + 1]);
                        assert(writer.objects@[3 + 4 * i2 + 2] == opre[3 + 4 * i2 + 2]);
                        assert(writer.objects@[3 + 4 * i2 + 3] == opre[3 + 4 * i2 + 3]);
                        assert(font_bundle_ok(opre, pages@, fonts@, i2));
                    } else {
                        assert(writer.objects@[3 + 4 * i2] == writer.objects@[opre.len() as int]);
                        assert(writer.objects@[3 + 4 * i2 + 1] == writer.objects@[opre.len() as int
                            + 1]);
                        assert(writer.objects@[3 + 4 * i2 + 2] == writer.objects@[opre.len() as int
                            + 2]);
                        assert(writer.objects@[3 + 4 * i2 + 3] == writer.objects@[opre.len() as int
                            + 3]);
                    }
                }
                assert(writer.objects@[0] == opre[0]);
                assert(writer.objects@[1] == opre[1]);
                assert(writer.objects@[2] == opre[2]);
                assert forall|k: int|
                    0 <= k < writer.objects@.len() implies (#[trigger] writer.objects@[k]).0 == k
                    + 1 by {
                    if k < opre.len() {
                        assert(writer.objects@[k] == opre[k]);
                    } else {
                        let j = k - opre.len() as int;
                        assert(writer.objects@[opre.len() as int + j].0 == base_id + j);
                    }
                }
            }
            fi = fi + 1;
        }
        // Images.
        let ghost font_objs = writer.objects@;
        let mut image_object_ids: Vec<u32> = Vec::new();
        let mut ii: usize = 0;
        while ii < ni
            invariant
                0 <= ii <= ni,
                nf == fonts@.len(),
                ni == images@.len(),
                np == pages@.len(),
                writer.wf(),
                writer.buf@ == header_bytes() + records_of(writer.objects@),
                writer.objects@.len() == 3 + 4 * nf + ii,
                forall|k: int|
                    0 <= k < writer.objects@.len() ==> (#[trigger] writer.objects@[k]).0 == k + 1,
                writer.objects@.subrange(0, font_objs.len() as int) == font_objs,
                font_objs.len() == 3 + 4 * nf,
                forall|k: int|
                    0 <= k < ii ==> xobject_ok(
                        (#[trigger] writer.objects@[3 + 4 * nf + k]).1,
                        images@[k],
                    ),
                image_object_ids@.len() == ii,
                forall|k: int|
                    0 <= k < ii ==> (#[trigger] image_object_ids@[k]) == (4 + 4 * nf + k) as u32,
            decreases ni - ii,
        {
            let ghost opre = writer.objects@;
            let object_id: u32 = 4 + 4 * (nf as u32) + (ii as u32);
            embed_image(&mut writer, &images[ii], object_id);
            image_object_ids.push(object_id);
            proof {
                assert(writer.objects@.subrange(0, font_objs.len() as int) =~= font_objs);
                assert forall|k: int|
                    0 <= k < writer.objects@.len() implies (#[trigger] writer.objects@[k]).0 == k
                    + 1 by {
                    if k < opre.len() {
                        assert(writer.objects@[k] == opre[k]);
                    }
                }
                assert forall|k: int|
                    0 <= k < ii + 1 implies xobject_ok(
                    (#[trigger] writer.objects@[3 + 4 * nf + k]).1,
                    images@[k],
                ) by {
                    if k < ii {
                        assert(writer.objects@[3 + 4 * nf + k] == opre[3 + 4 * nf + k]);
                    } else {
                        assert(writer.objects@[3 + 4 * nf + k] == writer.objects@[opre.len() as int]);
                    }
                }
            }
            ii = ii + 1;
        }
        // Each page: its content stream, then its page object.
        let ghost pre_pages_objs = writer.objects@;
        let mut pi: usize = 0;
        while pi < np
            invariant
                0 <= pi <= np,
                nf == fonts@.len(),
                ni == images@.len(),
                np == pages@.len(),
                base == first_free_id(nf as int, ni as int),
                writer.wf(),
                writer.buf@ == header_bytes() + records_of(writer.objects@),
                writer.objects@.len() == 3 + 4 * nf + ni + 2 * pi,
                pre_pages_objs.len() == 3 + 4 * nf + ni,
                writer.objects@.subrange(0, pre_pages_objs.len() as int) == pre_pages_objs,
                image_object_ids@.len() == ni,
                forall|k: int|
                    0 <= k < ni ==> (#[trigger] image_object_ids@[k]) == (4 + 4 * nf + k) as u32,
                forall|k: int|
                    0 <= k < writer.objects@.len() ==> (#[trigger] writer.objects@[k]).0 == k + 1,
                forall|i2: int|
                    0 <= i2 < pi ==> {
                        &&& (#[trigger] writer.objects@[3 + 4 * nf + ni + 2 * i2 + 1]).0
                            == buffered_page_id(nf as int, ni as int, i2)
                        &&& page_obj_ok(
                            writer.objects@[3 + 4 * nf + ni + 2 * i2 + 1].1,
                            2,
                            pages@[i2].width,
                            pages@[i2].height,
                            (first_free_id(nf as int, ni as int) + 2 * i2) as u32,
                            font_id,
                            buffered_type0_ids(nf as int),
                            pages@[i2].used_images@,
                            buffered_image_ids(nf as int, ni as int),
                        )
                        &&& (#[trigger] writer.objects@[3 + 4 * nf + ni + 2 * i2]).1 is Stream
                        &&& writer.objects@[3 + 4 * nf + ni + 2 * i2].1->Stream_1@
                            == pages@[i2].content@
                    },
            decreases np - pi,
        {
            let ghost opre = writer.objects@;
            let content_id: u32 = base + 2 * (pi as u32);
            let page_id: u32 = base + 2 * (pi as u32) + 1;
            let cd: Vec<(String, PdfObject)> = Vec::new();
            let content_stream = PdfObject::Stream(cd, clone_bytes(&pages[pi].content));
            writer.write_object(content_id, &content_stream);
            let resources = build_resources(
                font_id,
                &font_type0_ids(nf),
                &pages[pi].used_images,
                &image_object_ids,
            );
            proof {
                assert(image_object_ids@ =~= buffered_image_ids(nf as int, ni as int));
            }
            let page_obj = build_page_obj(&pages[pi], pages_id, resources, content_id);
            proof {
                assert(page_obj_ok(
                    page_obj,
                    pages_id,
                    pages@[pi as int].width,
                    pages@[pi as int].height,
                    content_id,
                    font_id,
                    buffered_type0_ids(nf as int),
                    pages@[pi as int].used_images@,
                    buffered_image_ids(nf as int, ni as int),
                ));
            }
            writer.write_object(page_id, &page_obj);
            proof {
                assert(writer.objects@.subrange(0, pre_pages_objs.len() as int)
                    =~= pre_pages_objs);
                assert forall|i2: int|
                    0 <= i2 < pi + 1 implies {
                    &&& (#[trigger] writer.objects@[3 + 4 * nf + ni + 2 * i2 + 1]).0
                        == buffered_page_id(nf as int, ni as int, i2)
                    &&& page_obj_ok(
                        writer.objects@[3 + 4 * nf + ni + 2 * i2 + 1].1,
                        2,
                        pages@[i2].width,
                        pages@[i2].height,
                        (first_free_id(nf as int, ni as int) + 2 * i2) as u32,
                        font_id,
                        buffered_type0_ids(nf as int),
                        pages@[i2].used_images@,
                        buffered_image_ids(nf as int, ni as int),
                    )
                    &&& (#[trigger] writer.objects@[3 + 4 * nf + ni + 2 * i2]).1 is Stream
                    &&& writer.objects@[3 + 4 * nf + ni + 2 * i2].1->Stream_1@
                        == pages@[i2].content@
                } by {
                    if i2 < pi {
                        assert(writer.objects@[3 + 4 * nf + ni + 2 * i2 + 1] == opre[3 + 4 * nf + ni
                            + 2 * i2 + 1]);
                        assert(writer.objects@[3 + 4 * nf + ni + 2 * i2] == opre[3 + 4 * nf + ni + 2
                            * i2]);
                    }
                }
                assert forall|k: int|
                    0 <= k < writer.objects@.len() implies (#[trigger] writer.objects@[k]).0 == k
                    + 1 by {
                    if k < opre.len() {
                        assert(writer.objects@[k] == opre[k]);
                    }
                }
            }
            pi = pi + 1;
        }
        let ghost final_objs = writer.objects@;
        writer.write_xref_and_trailer(catalog_id);
        proof {
            assert(pre_pages_objs.subrange(0, font_objs.len() as int) == font_objs);
            assert forall|i: int| 0 <= i < nf implies #[trigger] font_bundle_ok(
                writer.objects@,
                pages@,
                fonts@,
                i,
            ) by {
                assert forall|k: int| 3 + 4 * i <= k <= 3 + 4 * i + 3 implies writer.objects@[k]
                    == font_objs[k] by {
                    assert(pre_pages_objs.subrange(0, font_objs.len() as int)[k]
                        == pre_pages_objs[k]);
                    assert(final_objs.subrange(0, pre_pages_objs.len() as int)[k]
                        == final_objs[k]);
                }
                assert(writer.objects@[3 + 4 * i] == font_objs[3 + 4 * i]);
                assert(writer.objects@[3 + 4 * i + 1] == font_objs[3 + 4 * i + 1]);
                assert(writer.objects@[3 + 4 * i + 2] == font_objs[3 + 4 * i + 2]);
                assert(writer.objects@[3 + 4 * i + 3] == font_objs[3 + 4 * i + 3]);
                assert(font_bundle_ok(font_objs, pages@, fonts@, i));
            }
            assert forall|j: int| 0 <= j < ni implies xobject_ok(
                (#[trigger] writer.objects@[3 + 4 * nf + j]).1,
                images@[j],
            ) by {
                assert(final_objs.subrange(0, pre_pages_objs.len() as int)[3 + 4 * nf + j]
                    == final_objs[3 + 4 * nf + j]);
                assert(writer.objects@[3 + 4 * nf + j] == pre_pages_objs[3 + 4 * nf + j]);
            }
            assert forall|k: int| 0 <= k <= 2 implies writer.objects@[k] == font_objs[k] by {
                assert(pre_pages_objs.subrange(0, font_objs.len() as int)[k]
                    == pre_pages_objs[k]);
                assert(final_objs.subrange(0, pre_pages_objs.len() as int)[k] == final_objs[k]);
            }
            assert(writer.objects@[0] == font_objs[0]);
            assert(writer.objects@[1] == font_objs[1]);
            assert(writer.objects@[2] == font_objs[2]);
            assert forall|i: int| 0 <= i < np implies {
                &&& (#[trigger] writer.objects@[3 + 4 * nf + ni + 2 * i + 1]).0
                    == buffered_page_id(nf as int, ni as int, i)
                &&& page_obj_ok(
                    writer.objects@[3 + 4 * nf + ni + 2 * i + 1].1,
                    2,
                    pages@[i].width,
                    pages@[i].height,
                    (first_free_id(nf as int, ni as int) + 2 * i) as u32,
                    font_id,
                    buffered_type0_ids(nf as int),
                    pages@[i].used_images@,
                    buffered_image_ids(nf as int, ni as int),
                )
                &&& (#[trigger] writer.objects@[3 + 4 * nf + ni + 2 * i]).1 is Stream
                &&& writer.objects@[3 + 4 * nf + ni + 2 * i].1->Stream_1@ == pages@[i].content@
            } by {
                assert(writer.objects@[3 + 4 * nf + ni + 2 * i + 1] == final_objs[3 + 4 * nf + ni
                    + 2 * i + 1]);
                assert(writer.objects@[3 + 4 * nf + ni + 2 * i] == final_objs[3 + 4 * nf + ni + 2
                    * i]);
            }
            assert forall|k: int|
                0 <= k < writer.objects@.len() implies (#[trigger] writer.objects@[k]).0 == k
                + 1 by {
                assert(writer.objects@[k] == final_objs[k]);
            }
        }
        writer
    }

    /// The bytes of a buffered document: the buffer of a sound writer
    /// assembled over exactly this document's pages, fonts and images
    /// ([`buffered_output_ok`]). Fails exactly on a streaming document,
    /// which is left unchanged either way.
    pub fn to_bytes(&self) -> (r: Result<Vec<u8>, DocError>)
        requires
            self.wf(),
        ensures
            r is Ok <==> self.mode is Buffered,
            r matches Ok(bytes) ==> {
                &&& bytes@.len() >= 15
                &&& bytes@.subrange(0, 15) == header_bytes()
                &&& trailer_ok(bytes@)
                &&& buffered_output_ok(
                    bytes@,
                    self.mode->Buffered_0@,
                    self.fonts@,
                    self.images@,
                )
            },
    {
        match &self.mode {
            DocumentMode::Streaming { .. } => Err(DocError::WrongMode),
            DocumentMode::Buffered(pages) => {
                let w = Document::build_buffered(pages, &self.fonts, &self.images);
                let bytes = clone_bytes(&w.buf);
                proof {
                    assert(w.buf@.subrange(0, 15) =~= header_bytes());
                    assert(buffered_writer_ok(w, pages@, self.fonts@, self.images@) && bytes@
                        == w.buf@);
                    assert(buffered_output_ok(bytes@, pages@, self.fonts@, self.images@));
                }
                Ok(bytes)
            },
        }
    }
}

/// Build one flowed page: header in the reserved top band, footer at the
/// bottom margin, the body segment at its measured size, all under the
/// given page context. The content is exactly [`flow_page_ops`].
#[verifier::rlimit(100)]
fn flow_one_page(
    seg: &LayoutNode,
    width: i64,
    height: i64,
    font: &mut Font,
    font_index: u32,
    header: Option<&LayoutNode>,
    footer: Option<&LayoutNode>,
    margin_top: i64,
    margin_bottom: i64,
    current: usize,
    total: usize,
) -> (page: Page)
    requires
        seg.wf(),
        old(font).wf(),
        0 <= width <= FX_MAX,
        0 <= height <= FX_MAX,
        0 <= margin_top <= FX_MAX,
        0 <= margin_bottom <= FX_MAX,
        header matches Some(h) ==> h.wf(),
        footer matches Some(f) ==> f.wf(),
    ensures
        final(font).wf(),
        final(font).data@ == old(font).data@,
        final(font).name@ == old(font).name@,
        page.wf(),
        page.width == width,
        page.height == height,
        page.content@ == flow_page_ops(
            old(font).data@,
            opt_view(header),
            opt_view(footer),
            crate::layout::node_view(*seg),
            width as int,
            height as int,
            margin_top as int,
            margin_bottom as int,
            font_index,
            PageContext { current, total },
        ),
{
    let ghost data = font.data@;
    let c = Constraints::loose(width, FX_MAX);
    let header_height: i64 = match header {
        Some(h) => h.measure(c, font).height,
        None => 0,
    };
    let footer_height: i64 = match footer {
        Some(f) => f.measure(c, font).height,
        None => 0,
    };
    let body_start_y = fx_sub(height, fx_add(margin_top, header_height));
    let side_margin: i64 = 50_000;
    let content_width = crate::fx::fx_sub_floor(width, 100_000);
    let mut page = Page::new(width, height);
    let context = PageContext { current, total };
    match header {
        Some(h) => {
            let header_area = Rect {
                x: side_margin,
                y: fx_sub(height, margin_top),
                width: content_width,
                height: header_height,
            };
            h.render(&mut page, header_area, font, font_index, &context);
        },
        None => {},
    }
    match footer {
        Some(f) => {
            let footer_area = Rect {
                x: side_margin,
                y: margin_bottom,
                width: content_width,
                height: footer_height,
            };
            f.render(&mut page, footer_area, font, font_index, &context);
        },
        None => {},
    }
    page.render_layout(seg, side_margin, body_start_y, content_width, font, font_index, &context);
    proof {
        assert(page.content@ =~= flow_page_ops(
            data,
            opt_view(header),
            opt_view(footer),
            crate::layout::node_view(*seg),
            width as int,
            height as int,
            margin_top as int,
            margin_bottom as int,
            font_index,
            context,
        ));
    }
    page
}

/// The Type0 object ids of the registered fonts, in order.
fn font_type0_ids(nf: usize) -> (r: Vec<u32>)
    requires
        nf <= 0xffff,
    ensures
        r@ == buffered_type0_ids(nf as int),
{
    let mut r: Vec<u32> = Vec::new();
    let mut i: usize = 0;
    while i < nf
        invariant
            0 <= i <= nf,
            nf <= 0xffff,
            r@.len() == i,
            forall|k: int| 0 <= k < i ==> (#[trigger] r@[k]) == (4 + 4 * k + 3) as u32,
        decreases nf - i,
    {
        r.push(4 + 4 * (i as u32) + 3);
        i = i + 1;
    }
    proof {
        assert(r@ =~= buffered_type0_ids(nf as int));
    }
    r
}

} // verus!

use crate::layout::{
    LayoutNode, SplitAction, PageContext, Rect, Constraints, node_view, weight_v, text_max_lines,
    table_row_overflow,
};
use crate::text::split_at_lines_spec;
use crate::fx::{fx_add, fx_sub, fx_ok, fx_clamp};

verus! {

/// How a segment list relates to the tree it came from: the first segment
/// is a head split off the tree and the rest are the segments of the tail,
/// down to a last segment that is the remaining tree itself.
pub open spec fn segments_of(orig: crate::layout::NodeV, segs: Seq<crate::layout::NodeV>) -> bool
    decreases segs.len(),
{
    if segs.len() == 0 {
        false
    } else if segs.len() == 1 {
        segs[0] == orig
    } else {
        exists|tail: crate::layout::NodeV|
            #[trigger] crate::layout::splits_into(orig, segs[0], tail) && segments_of(
                tail,
                segs.drop_first(),
            )
    }
}

/// What holds of a segment the splitter kept whole at the given width and
/// height: a text node has no overflow line left to cut off, and a table
/// has no row boundary it could cut at — every row fits under the header,
/// or already the first row overflows, or no room is left at all. The
/// other node kinds either never split or decide through their children.
pub open spec fn final_piece_ok(
    data: Seq<u8>,
    n: crate::layout::NodeV,
    available_width: int,
    available_height: int,
) -> bool {
    &&& (n matches crate::layout::NodeV::TextV { text, size, .. } ==> {
        let ml = text_max_lines(available_height, size);
        let sp = split_at_lines_spec(data, text, size, available_width, ml);
        ml == 0 || sp.1 is None
    })
    &&& (n matches crate::layout::NodeV::TableNodeV { table: tv } ==> {
        let da = fx_clamp(available_height - tv.settings.header_height);
        ||| da <= 0
        ||| forall|k: int| 0 <= k < tv.rows.len() ==> !table_row_overflow(data, tv, da, k)
        ||| (tv.rows.len() > 0 && table_row_overflow(data, tv, da, 0))
    })
}

/// The views of a segment list.
pub open spec fn seg_views(segs: Seq<LayoutNode>) -> Seq<crate::layout::NodeV> {
    crate::layout::children_views(segs)
}

/// Replacing the trailing remainder of a partial segment list by a split
/// of it extends the relation.
proof fn lemma_segments_extend(
    orig: crate::layout::NodeV,
    done: Seq<crate::layout::NodeV>,
    cur: crate::layout::NodeV,
    h: crate::layout::NodeV,
    t: crate::layout::NodeV,
)
    requires
        segments_of(orig, done.push(cur)),
        crate::layout::splits_into(cur, h, t),
    ensures
        segments_of(orig, done.push(h).push(t)),
    decreases done.len(),
{
    if done.len() == 0 {
        assert(cur == orig);
        assert(done.push(h).push(t).drop_first() =~= seq![t]);
        assert(segments_of(t, seq![t]));
        assert(crate::layout::splits_into(orig, done.push(h).push(t)[0], t));
    } else {
        let s0 = done.push(cur);
        assert(s0[0] == done[0]);
        let tail0 = choose|tail0: crate::layout::NodeV|
            #[trigger] crate::layout::splits_into(orig, s0[0], tail0) && segments_of(
                tail0,
                s0.drop_first(),
            );
        assert(s0.drop_first() =~= done.drop_first().push(cur));
        lemma_segments_extend(tail0, done.drop_first(), cur, h, t);
        let s1 = done.push(h).push(t);
        assert(s1[0] == done[0]);
        assert(s1.drop_first() =~= done.drop_first().push(h).push(t));
        assert(crate::layout::splits_into(orig, s1[0], tail0) && segments_of(
            tail0,
            s1.drop_first(),
        ));
    }
}

/// Split a layout tree into page-sized segments: the head of each split in
/// order, ending with the piece that fits or must stand alone. Both
/// pagination passes walk this one list, so the page count used for
/// `{total}` and the number of rendered pages are the same by construction.
pub fn paginate(node: &LayoutNode, content_width: i64, body_height: i64, font: &mut Font) -> (segs:
    Vec<LayoutNode>)
    requires
        node.wf(),
        old(font).wf(),
        0 <= content_width <= FX_MAX,
        fx_ok(body_height as int),
    ensures
        final(font).wf(),
        final(font).data@ == old(font).data@,
        final(font).name@ == old(font).name@,
        segs@.len() >= 1,
        forall|k: int| 0 <= k < segs@.len() ==> (#[trigger] segs@[k]).wf(),
        segments_of(crate::layout::node_view(*node), seg_views(segs@)),
        final_piece_ok(
            old(font).data@,
            crate::layout::node_view(segs@.last()),
            content_width as int,
            body_height as int,
        ),
{
    let ghost data = font.data@;
    let ghost orig = crate::layout::node_view(*node);
    let mut segs: Vec<LayoutNode> = Vec::new();
    let mut cur = node.duplicate();
    proof {
        crate::layout::lemma_children_views(segs@);
        assert(seg_views(segs@).push(crate::layout::node_view(cur)) =~= seq![
            crate::layout::node_view(cur),
        ]);
        assert(segments_of(orig, seg_views(segs@).push(crate::layout::node_view(cur))));
    }
    loop
        invariant_except_break
            cur.wf(),
            segments_of(orig, seg_views(segs@).push(crate::layout::node_view(cur))),
        invariant
            font.wf(),
            font.data@ == data,
            font.name@ == old(font).name@,
            0 <= content_width <= FX_MAX,
            fx_ok(body_height as int),
            forall|k: int| 0 <= k < segs@.len() ==> (#[trigger] segs@[k]).wf(),
        ensures
            segs@.len() >= 1,
            forall|k: int| 0 <= k < segs@.len() ==> (#[trigger] segs@[k]).wf(),
            font.wf(),
            font.data@ == data,
            font.name@ == old(font).name@,
            segments_of(orig, seg_views(segs@)),
            final_piece_ok(
                data,
                crate::layout::node_view(segs@.last()),
                content_width as int,
                body_height as int,
            ),
        decreases weight_v(node_view(cur)),
    {
        let ghost segs0 = segs@;
        let ghost curv = crate::layout::node_view(cur);
        match cur.split(content_width, body_height, font) {
            SplitAction::Fit => {
                segs.push(cur);
                proof {
                    assert forall|k: int| 0 <= k < segs@.len() implies (#[trigger] segs@[k]).wf()
                        by {}
                    lemma_seg_views_push(segs0, segs@);
                    assert(seg_views(segs@) =~= seg_views(segs0).push(curv));
                }
                break ;
            },
            SplitAction::Push => {
                segs.push(cur);
                proof {
                    assert forall|k: int| 0 <= k < segs@.len() implies (#[trigger] segs@[k]).wf()
                        by {}
                    lemma_seg_views_push(segs0, segs@);
                    assert(seg_views(segs@) =~= seg_views(segs0).push(curv));
                }
                break ;
            },
            SplitAction::Split(head, tail) => {
                let ghost hv = crate::layout::node_view(*head);
                let ghost tv = crate::layout::node_view(*tail);
                segs.push(*head);
                proof {
                    assert forall|k: int| 0 <= k < segs@.len() implies (#[trigger] segs@[k]).wf()
                        by {}
                    lemma_seg_views_push(segs0, segs@);
                    assert(seg_views(segs@) =~= seg_views(segs0).push(hv));
                    lemma_segments_extend(orig, seg_views(segs0), curv, hv, tv);
                    assert(seg_views(segs@).push(tv) =~= seg_views(segs0).push(hv).push(tv));
                }
                cur = *tail;
            },
        }
    }
    segs
}

/// Pushing a node extends the view list by its view.
proof fn lemma_seg_views_push(pre: Seq<LayoutNode>, post: Seq<LayoutNode>)
    requires
        post.len() == pre.len() + 1,
        post.subrange(0, pre.len() as int) =~= pre,
    ensures
        seg_views(post) == seg_views(pre).push(crate::layout::node_view(post.last())),
{
    crate::layout::lemma_children_views(pre);
    crate::layout::lemma_children_views(post);
    assert forall|k: int| 0 <= k < post.len() implies seg_views(post)[k] == seg_views(pre).push(
        crate::layout::node_view(post.last()),
    )[k] by {
        assert(seg_views(post)[k] == crate::layout::node_view(post[k]));
        if k < pre.len() {
            assert(post[k] == post.subrange(0, pre.len() as int)[k]);
            assert(seg_views(pre)[k] == crate::layout::node_view(pre[k]));
        }
    }
    assert(seg_views(post) =~= seg_views(pre).push(crate::layout::node_view(post.last())));
}

impl Page {
    /// Render a layout tree into this page at `(x, y)` with the given
    /// width: the tree is measured, then painted into its measured box.
    pub fn render_layout(
        &mut self,
        node: &LayoutNode,
        x: i64,
        y: i64,
        width: i64,
        font: &mut Font,
        font_index: u32,
        context: &PageContext,
    )
        requires
            old(self).wf(),
            node.wf(),
            old(font).wf(),
            fx_ok(x as int),
            fx_ok(y as int),
            0 <= width <= FX_MAX,
        ensures
            final(self).wf(),
            final(font).wf(),
            final(font).data@ == old(font).data@,
            final(font).name@ == old(font).name@,
            old(self).content@.is_prefix_of(final(self).content@),
            old(self).used_glyphs@.is_prefix_of(final(self).used_glyphs@),
            final(self).width == old(self).width,
            final(self).height == old(self).height,
            ({
                let ms = crate::layout::measure_spec(
                    old(font).data@,
                    crate::layout::node_view(*node),
                    crate::layout::spec_loose(width as int, FX_MAX as int),
                );
                final(self).content@ == old(self).content@ + crate::layout::render_ops(
                    old(font).data@,
                    crate::layout::node_view(*node),
                    x as int,
                    y as int,
                    ms.width as int,
                    ms.height as int,
                    font_index,
                    *context,
                )
            }),
    {
        let c = Constraints::loose(width, FX_MAX);
        let size = node.measure(c, font);
        let area = Rect { x, y, width: size.width, height: size.height };
        node.render(self, area, font, font_index, context);
    }
}

/// Every operator one flowed page carries: the header rendered in the
/// reserved top band, the footer at the bottom margin, then the page's body
/// segment at its measured size, all with fixed 50-point side margins and
/// the same page context.
pub open spec fn flow_page_ops(
    data: Seq<u8>,
    header: Option<crate::layout::NodeV>,
    footer: Option<crate::layout::NodeV>,
    seg: crate::layout::NodeV,
    width: int,
    height: int,
    margin_top: int,
    margin_bottom: int,
    idx: u32,
    ctx: PageContext,
) -> Seq<u8> {
    let header_h: int = match header {
        Some(h) => crate::layout::measure_spec(
            data,
            h,
            crate::layout::spec_loose(width, FX_MAX as int),
        ).height as int,
        None => 0,
    };
    let footer_h: int = match footer {
        Some(f) => crate::layout::measure_spec(
            data,
            f,
            crate::layout::spec_loose(width, FX_MAX as int),
        ).height as int,
        None => 0,
    };
    let cw = crate::layout::sfloor(width, 100_000);
    let body_y = crate::fx::fx_clamp(height - crate::fx::fx_clamp(margin_top + header_h));
    let ms = crate::layout::measure_spec(data, seg, crate::layout::spec_loose(cw, FX_MAX as int));
    (match header {
        Some(h) => crate::layout::render_ops(
            data,
            h,
            50_000,
            crate::fx::fx_clamp(height - margin_top),
            cw,
            header_h,
            idx,
            ctx,
        ),
        None => Seq::empty(),
    }) + (match footer {
        Some(f) => crate::layout::render_ops(data, f, 50_000, margin_bottom, cw, footer_h, idx, ctx),
        None => Seq::empty(),
    }) + crate::layout::render_ops(
        data,
        seg,
        50_000,
        body_y,
        ms.width as int,
        ms.height as int,
        idx,
        ctx,
    )
}

/// The view of an optional node.
pub open spec fn opt_view(n: Option<&LayoutNode>) -> Option<crate::layout::NodeV> {
    match n {
        Some(node) => Some(crate::layout::node_view(*node)),
        None => None,
    }
}

impl Document {
    /// Whether another page can be appended within this document's bounds.
    pub fn can_add_page(&self) -> (r: bool)
        requires
            self.wf(),
        ensures
            r == ((self.mode matches DocumentMode::Buffered(pages) ==> pages@.len() + 1
                < 0xfff_ffff) && (self.mode matches DocumentMode::Streaming {
                next_object_id,
                page_ids,
                ..
            } ==> next_object_id < 0x7fff_0000 - 4 * self.fonts@.len() - 2 && page_ids@.len() + 1
                < 0x7fff_ffff)),
    {
        match &self.mode {
            DocumentMode::Buffered(pages) => pages.len() + 1 < 0xfff_ffff,
            DocumentMode::Streaming { next_object_id, page_ids, .. } => {
                (*next_object_id as usize) < 0x7fff_0000 - 4 * self.fonts.len() - 2
                    && page_ids.len() + 1 < 0x7fff_ffff
            },
        }
    }

    /// Whether one more image can be registered without crossing the
    /// capacity bounds that [`Document::add_image`] asks of its caller.
    pub fn can_add_image(&self) -> (r: bool)
        requires
            self.wf(),
        ensures
            r == (self.images@.len() < 0xfff_ffff && (self.mode matches DocumentMode::Streaming {
                next_object_id,
                image_ids,
                ..
            } ==> next_object_id < 0x7fff_0000 && image_ids@.len() < 0xfff_ffff)),
    {
        self.images.len() < 0xfff_ffff && match &self.mode {
            DocumentMode::Buffered(_) => true,
            DocumentMode::Streaming { next_object_id, image_ids, .. } => {
                *next_object_id < 0x7fff_0000 && image_ids.len() < 0xfff_ffff
            },
        }
    }

    /// Paginate a layout tree and render each segment onto its own page,
    /// with an optional header at the top and footer at the bottom of every
    /// page and fixed 50-point side margins. Both passes use one segment
    /// list, so every `{total}` placeholder sees exactly the number of
    /// pages appended, which is returned. A page is skipped only when the
    /// document's capacity bound would be crossed.
    #[verifier::loop_isolation(false)]
    pub fn render_flow(
        &mut self,
        node: &LayoutNode,
        width: i64,
        height: i64,
        font: &mut Font,
        font_index: u32,
        header: Option<&LayoutNode>,
        footer: Option<&LayoutNode>,
        margin_top: i64,
        margin_bottom: i64,
    ) -> (appended: usize)
        requires
            old(self).wf(),
            node.wf(),
            old(font).wf(),
            0 <= width <= FX_MAX,
            0 <= height <= FX_MAX,
            0 <= margin_top <= FX_MAX,
            0 <= margin_bottom <= FX_MAX,
            header matches Some(h) ==> h.wf(),
            footer matches Some(f) ==> f.wf(),
        ensures
            final(self).wf(),
            final(font).wf(),
            final(font).data@ == old(font).data@,
            final(font).name@ == old(font).name@,
            final(self).fonts@.len() == old(self).fonts@.len(),
            old(self).mode matches DocumentMode::Buffered(p0)
                ==> final(self).mode matches DocumentMode::Buffered(p1) && {
                &&& p1@.len() == p0@.len() + appended
                &&& p1@.subrange(0, p0@.len() as int) == p0@
                &&& forall|k: int|
                    p0@.len() <= k < p1@.len() ==> (#[trigger] p1@[k]).width == width
                        && p1@[k].height == height
                &&& exists|sv: Seq<crate::layout::NodeV>|
                    {
                        &&& #[trigger] segments_of(crate::layout::node_view(*node), sv)
                        &&& appended <= sv.len()
                        &&& (p0@.len() + sv.len() < 0xfff_ffff ==> appended == sv.len())
                        &&& p0@.len() + sv.len() < 0xfff_ffff ==> forall|k: int|
                            p0@.len() <= k < p1@.len() ==> (#[trigger] p1@[k]).content@
                                == flow_page_ops(
                                old(font).data@,
                                opt_view(header),
                                opt_view(footer),
                                sv[k - p0@.len()],
                                width as int,
                                height as int,
                                margin_top as int,
                                margin_bottom as int,
                                font_index,
                                PageContext {
                                    current: (k - p0@.len() + 1) as usize,
                                    total: sv.len() as usize,
                                },
                            )
                    }
            },
    {
        let c = Constraints::loose(width, FX_MAX);
        let body_available: i64 = {
            let header_height: i64 = match header {
                Some(h) => h.measure(c, font).height,
                None => 0,
            };
            let footer_height: i64 = match footer {
                Some(f) => f.measure(c, font).height,
                None => 0,
            };
            fx_sub(
                height,
                fx_add(fx_add(margin_top, header_height), fx_add(margin_bottom, footer_height)),
            )
        };
        let content_width = crate::fx::fx_sub_floor(width, 100_000);
        let segs = paginate(node, content_width, body_available, font);
        let total = segs.len();
        let mut appended: usize = 0;
        let mut i: usize = 0;
        while i < segs.len()
            invariant
                0 <= i <= segs@.len(),
                appended <= i,
                old(self).mode matches DocumentMode::Buffered(p0) ==> self.mode
                    matches DocumentMode::Buffered(p1) && {
                    &&& p1@.len() == p0@.len() + appended
                    &&& p1@.subrange(0, p0@.len() as int) == p0@
                    &&& forall|k: int|
                        p0@.len() <= k < p1@.len() ==> (#[trigger] p1@[k]).width == width
                            && p1@[k].height == height
                    &&& (p0@.len() + segs@.len() < 0xfff_ffff ==> appended == i)
                    &&& p0@.len() + segs@.len() < 0xfff_ffff ==> forall|k: int|
                        p0@.len() <= k < p1@.len() ==> (#[trigger] p1@[k]).content@
                            == flow_page_ops(
                            old(font).data@,
                            opt_view(header),
                            opt_view(footer),
                            seg_views(segs@)[k - p0@.len()],
                            width as int,
                            height as int,
                            margin_top as int,
                            margin_bottom as int,
                            font_index,
                            PageContext {
                                current: (k - p0@.len() + 1) as usize,
                                total: segs@.len() as usize,
                            },
                        )
                },
                old(self).mode is Streaming ==> self.mode is Streaming,
                self.wf(),
                font.wf(),
                font.data@ == old(font).data@,
                font.name@ == old(font).name@,
                self.fonts@.len() == old(self).fonts@.len(),
                forall|k: int| 0 <= k < segs@.len() ==> (#[trigger] segs@[k]).wf(),
                total == segs@.len(),
                header matches Some(h) ==> h.wf(),
                footer matches Some(f) ==> f.wf(),
            decreases segs@.len() - i,
        {
            let page = flow_one_page(
                &segs[i],
                width,
                height,
                font,
                font_index,
                header,
                footer,
                margin_top,
                margin_bottom,
                i + 1,
                total,
            );
            proof {
                crate::layout::lemma_children_views(segs@);
                assert(seg_views(segs@)[i as int] == crate::layout::node_view(segs@[i as int]));
            }
            if self.can_add_page() {
                let ghost selfpre = *self;
                self.add_page(&page);
                appended = appended + 1;
                proof {
                    if old(self).mode is Buffered {
                        let p0 = old(self).mode->Buffered_0;
                        let ppre = selfpre.mode->Buffered_0;
                        let p1 = self.mode->Buffered_0;
                        assert(p1@.subrange(0, ppre@.len() as int) == ppre@);
                        assert(p1@.subrange(0, p0@.len() as int) =~= p0@);
                        assert forall|k: int|
                            p0@.len() <= k < p1@.len() implies (#[trigger] p1@[k]).width == width
                            && p1@[k].height == height by {
                            if k < ppre@.len() {
                                assert(p1@[k] == p1@.subrange(0, ppre@.len() as int)[k]);
                                assert(p1@[k] == ppre@[k]);
                            } else {
                                assert(p1@[k] == p1@.last());
                            }
                        }
                        if p0@.len() + segs@.len() < 0xfff_ffff {
                            assert forall|k: int|
                                p0@.len() <= k < p1@.len() implies (#[trigger] p1@[k]).content@
                                == flow_page_ops(
                                old(font).data@,
                                opt_view(header),
                                opt_view(footer),
                                seg_views(segs@)[k - p0@.len()],
                                width as int,
                                height as int,
                                margin_top as int,
                                margin_bottom as int,
                                font_index,
                                PageContext {
                                    current: (k - p0@.len() + 1) as usize,
                                    total: segs@.len() as usize,
                                },
                            ) by {
                                if k < ppre@.len() {
                                    assert(p1@[k] == p1@.subrange(0, ppre@.len() as int)[k]);
                                    assert(p1@[k] == ppre@[k]);
                                } else {
                                    assert(p1@[k] == p1@.last());
                                }
                            }
                        }
                    }
                }
            } else {
                proof {
                    if old(self).mode is Buffered {
                        let p1 = self.mode->Buffered_0;
                        assert(p1@.len() + 1 >= 0xfff_ffff);
                    }
                }
            }
            i = i + 1;
        }
        proof {
            crate::layout::lemma_children_views(segs@);
            if old(self).mode is Buffered {
                let sv = seg_views(segs@);
                assert(sv.len() == segs@.len());
                assert(segments_of(crate::layout::node_view(*node), sv) && appended <= sv.len()
                    && (old(self).mode->Buffered_0@.len() + sv.len() < 0xfff_ffff ==> appended
                    == sv.len()));
            }
        }
        appended
    }
}

} // verus!

verus! {

/// Decimal digits as characters and as bytes agree.
proof fn lemma_dec_chars_bytes(n: nat)
    ensures
        dec_chars(n) == crate::numfmt::dec_of(n).map_values(|b: u8| b as char),
    decreases n,
{
    if n < 10 {
        assert(dec_chars(n) =~= crate::numfmt::dec_of(n).map_values(|b: u8| b as char));
    } else {
        lemma_dec_chars_bytes(n / 10);
        assert(dec_chars(n) =~= crate::numfmt::dec_of(n).map_values(|b: u8| b as char));
    }
}

/// The `/Font` resources of a page define `F1` through `F{n+1}`: `F1` maps
/// to the built-in font and `F{i+2}` to the Type0 object of registered
/// font `i`, whether or not the page uses them, so every font operator a
/// page can emit resolves.
pub open spec fn font_resources_ok(o: PdfObject, font_id: u32, t0: Seq<u32>) -> bool {
    &&& o is Dictionary
    &&& o->Dictionary_0@.len() >= 1
    &&& o->Dictionary_0@[0].0@ == "Font"@
    &&& o->Dictionary_0@[0].1 is Dictionary
    &&& o->Dictionary_0@[0].1->Dictionary_0@.len() == t0.len() + 1
    &&& forall|j: int|
        0 <= j <= t0.len() ==> (#[trigger] o->Dictionary_0@[0].1->Dictionary_0@[j]).0@ == seq![
            'F',
        ] + dec_chars((j + 1) as nat)
    &&& o->Dictionary_0@[0].1->Dictionary_0@[0].1 == PdfObject::Reference(font_id)
    &&& forall|j: int|
        1 <= j <= t0.len() ==> (#[trigger] o->Dictionary_0@[0].1->Dictionary_0@[j]).1
            == PdfObject::Reference(t0[j - 1])
}

} // verus!
