//! A single page: its dimensions, its content stream (appended operator by
//! operator, byte-exact), and the usage records — glyphs per font, fonts,
//! images — that the document layer later turns into resources, widths and
//! subsets.
use vstd::prelude::*;
use crate::fx::{fx_ok, fx_sub, fx_frac, FX_MAX};
use crate::numfmt::{dec_of, fx_dec_of, push_u64, push_fx, push_lit, lit_bytes, hex4_of, push_hex4};
use crate::font::{Font, ShapedGlyph, shaped_glyphs_of, measure_of};
use crate::color::{Color, fill_op};
use crate::writer::{escape_chars, escape_string};
use crate::chars::string_from_chars;
use vstd::utf8::encode_utf8;
use vstd::string::StrSliceExecFns;

verus! {

/// `BT /F1 size Tf x y Td (escaped) Tj ET `: text in the built-in font.
pub open spec fn op_text(text: Seq<char>, x: int, y: int, size: int) -> Seq<u8> {
    seq![66u8, 84, 32, 47, 70, 49, 32]  // "BT /F1 "
     + fx_dec_of(size) + seq![32u8, 84, 102, 32]  // " Tf "
     + fx_dec_of(x) + seq![32u8] + fx_dec_of(y) + seq![32u8, 84, 100, 32, 40]  // " Td ("
     + encode_utf8(escape_chars(text)) + seq![41u8, 32, 84, 106, 32, 69, 84, 32]  // ") Tj ET "
}

/// The four-hex-digit CIDs of a shaped run.
pub open spec fn hex_run(run: Seq<ShapedGlyph>) -> Seq<u8>
    decreases run.len(),
{
    if run.len() == 0 {
        Seq::empty()
    } else {
        hex_run(run.drop_last()) + hex4_of(run.last().glyph_id)
    }
}

/// `q BT /Fn size Tf x y Td <cids> Tj ET Q `: text in a custom font, the
/// glyph ids written as hex CIDs under Identity-H.
pub open spec fn op_text_with_font(
    run: Seq<ShapedGlyph>,
    x: int,
    y: int,
    size: int,
    font_index: u32,
) -> Seq<u8> {
    seq![113u8, 32, 66, 84, 32, 47, 70]  // "q BT /F"
     + dec_of((font_index + 2) as nat) + seq![32u8] + fx_dec_of(size) + seq![32u8, 84, 102, 32]  // " Tf "
     + fx_dec_of(x) + seq![32u8] + fx_dec_of(y) + seq![32u8, 84, 100, 32, 60]  // " Td <"
     + hex_run(run) + seq![62u8, 32, 84, 106, 32, 69, 84, 32, 81, 32]  // "> Tj ET Q "
}

/// `w1 w x1 y1 m x2 y2 l S `: a stroked line.
pub open spec fn op_line(x1: int, y1: int, x2: int, y2: int, w: int) -> Seq<u8> {
    fx_dec_of(w) + seq![32u8, 119, 32]  // " w "
     + fx_dec_of(x1) + seq![32u8] + fx_dec_of(y1) + seq![32u8, 109, 32]  // " m "
     + fx_dec_of(x2) + seq![32u8] + fx_dec_of(y2) + seq![32u8, 108, 32, 83, 32]  // " l S "
}

/// `bw w x y w h re S `: a stroked rectangle.
pub open spec fn op_rect(x: int, y: int, w: int, h: int, bw: int) -> Seq<u8> {
    fx_dec_of(bw) + seq![32u8, 119, 32]  // " w "
     + fx_dec_of(x) + seq![32u8] + fx_dec_of(y) + seq![32u8] + fx_dec_of(w) + seq![32u8]
        + fx_dec_of(h) + seq![32u8, 114, 101, 32, 83, 32]  // " re S "
}

/// `g g x y w h re f `: a gray-filled rectangle.
pub open spec fn op_fill_rect(x: int, y: int, w: int, h: int, gray: int) -> Seq<u8> {
    fx_dec_of(gray) + seq![32u8, 103, 32]  // " g "
     + fx_dec_of(x) + seq![32u8] + fx_dec_of(y) + seq![32u8] + fx_dec_of(w) + seq![32u8]
        + fx_dec_of(h) + seq![32u8, 114, 101, 32, 102, 32]  // " re f "
}

/// `q r g b rg x y w h re f Q `: a color-filled rectangle.
pub open spec fn op_fill_rect_color(x: int, y: int, w: int, h: int, c: Color) -> Seq<u8> {
    seq![113u8, 32] + fill_op(c) + seq![32u8] + fx_dec_of(x) + seq![32u8] + fx_dec_of(y)
        + seq![32u8] + fx_dec_of(w) + seq![32u8] + fx_dec_of(h) + seq![
        32u8,
        114,
        101,
        32,
        102,
        32,
        81,
        32,
    ]  // " re f Q "
}

/// `q w 0 0 h x y cm /Imk Do Q `: place an image XObject.
pub open spec fn op_image(idx: u32, x: int, y: int, w: int, h: int) -> Seq<u8> {
    seq![113u8, 32] + fx_dec_of(w) + seq![32u8, 48, 32, 48, 32]  // " 0 0 "
     + fx_dec_of(h) + seq![32u8] + fx_dec_of(x) + seq![32u8] + fx_dec_of(y) + seq![
        32u8,
        99,
        109,
        32,
        47,
        73,
        109,
    ]  // " cm /Im"
     + dec_of(idx as nat) + seq![32u8, 68, 111, 32, 81, 32]  // " Do Q "
}

/// A page under construction.
pub struct Page {
    pub width: i64,
    pub height: i64,
    pub content: Vec<u8>,
    /// One event per glyph drawn with a custom font: (font index, glyph id).
    pub used_glyphs: Vec<(u32, u16)>,
    /// The custom font indices this page draws with, each once.
    pub used_fonts: Vec<u32>,
    /// The image indices this page places, each once.
    pub used_images: Vec<u32>,
}

/// The glyph ids this event list records for one font.
pub open spec fn gids_for(events: Seq<(u32, u16)>, idx: u32) -> Set<u16> {
    Set::new(|g: u16| exists|k: int| 0 <= k < events.len() && events[k] == (idx, g))
}

/// The glyph events of one shaped run for one font.
pub open spec fn run_events(run: Seq<ShapedGlyph>, idx: u32) -> Seq<(u32, u16)> {
    run.map(|i: int, g: ShapedGlyph| (idx, g.glyph_id))
}

impl Page {
    /// Dimensions are in range and the unique lists hold no duplicates.
    pub open spec fn wf(&self) -> bool {
        &&& 0 <= self.width <= FX_MAX
        &&& 0 <= self.height <= FX_MAX
        &&& self.used_fonts@.no_duplicates()
        &&& self.used_images@.no_duplicates()
    }

    /// A new empty page of the given size.
    pub fn new(width: i64, height: i64) -> (r: Page)
        requires
            0 <= width <= FX_MAX,
            0 <= height <= FX_MAX,
        ensures
            r.wf(),
            r.width == width,
            r.height == height,
            r.content@ == Seq::<u8>::empty(),
            r.used_glyphs@ == Seq::<(u32, u16)>::empty(),
            r.used_fonts@ == Seq::<u32>::empty(),
            r.used_images@ == Seq::<u32>::empty(),
    {
        Page {
            width,
            height,
            content: Vec::new(),
            used_glyphs: Vec::new(),
            used_fonts: Vec::new(),
            used_images: Vec::new(),
        }
    }

    /// Append built-in-font text at a position: `BT /F1 .. Tj ET `.
    #[verifier::rlimit(60)]
    pub fn text(&mut self, text: String, x: i64, y: i64, size: i64)
        requires
            old(self).wf(),
            fx_ok(x as int),
            fx_ok(y as int),
            fx_ok(size as int),
        ensures
            final(self).wf(),
            final(self).content@ == old(self).content@ + op_text(text@, x as int, y as int, size as int),
            unchanged_but_content(*old(self), *final(self)),
    {
        proof {
            reveal_strlit("BT /F1 ");
            reveal_strlit(" Tf ");
            reveal_strlit(" ");
            reveal_strlit(" Td (");
            reveal_strlit(") Tj ET ");
        }
        push_lit(&mut self.content, "BT /F1 ");
        push_fx(&mut self.content, size);
        push_lit(&mut self.content, " Tf ");
        push_fx(&mut self.content, x);
        push_lit(&mut self.content, " ");
        push_fx(&mut self.content, y);
        push_lit(&mut self.content, " Td (");
        let esc = escape_string(text.as_str());
        let mut eb = esc.as_str().as_bytes_vec();
        self.content.append(&mut eb);
        push_lit(&mut self.content, ") Tj ET ");
        proof {
            assert(lit_bytes("BT /F1 "@) =~= seq![66u8, 84, 32, 47, 70, 49, 32]);
            assert(lit_bytes(" Tf "@) =~= seq![32u8, 84, 102, 32]);
            assert(lit_bytes(" "@) =~= seq![32u8]);
            assert(lit_bytes(" Td ("@) =~= seq![32u8, 84, 100, 32, 40]);
            assert(lit_bytes(") Tj ET "@) =~= seq![41u8, 32, 84, 106, 32, 69, 84, 32]);
            assert(self.content@ =~= old(self).content@ + op_text(
                text@,
                x as int,
                y as int,
                size as int,
            ));
        }
    }

    /// Append custom-font text: the text is shaped, its glyph ids are
    /// written as hex CIDs, and every id is recorded for subsetting.
    #[verifier::rlimit(60)]
    pub fn text_with_font(&mut self, text: String, x: i64, y: i64, size: i64, font_index: u32, font: &mut Font)
        requires
            old(self).wf(),
            old(font).wf(),
            fx_ok(x as int),
            fx_ok(y as int),
            fx_ok(size as int),
            0 <= size,
        ensures
            final(self).wf(),
            final(font).wf(),
            final(font).data@ == old(font).data@,
            final(font).name@ == old(font).name@,
            final(self).content@ == old(self).content@ + op_text_with_font(
                shaped_glyphs_of(old(font).data@, text@, size as int),
                x as int,
                y as int,
                size as int,
                font_index,
            ),
            final(self).used_glyphs@ == old(self).used_glyphs@ + run_events(
                shaped_glyphs_of(old(font).data@, text@, size as int),
                font_index,
            ),
            final(self).used_fonts@.to_set() == old(self).used_fonts@.to_set().insert(font_index),
            final(self).used_images@ == old(self).used_images@,
            final(self).width == old(self).width,
            final(self).height == old(self).height,
    {
        let glyphs = font.shape_text(text.as_str(), size);
        let ghost run = shaped_glyphs_of(old(font).data@, text@, size as int);
        proof {
            reveal_strlit("q BT /F");
            reveal_strlit(" Tf ");
            reveal_strlit(" ");
            reveal_strlit(" Td <");
            reveal_strlit("> Tj ET Q ");
        }
        push_lit(&mut self.content, "q BT /F");
        push_u64(&mut self.content, font_index as u64 + 2);
        push_lit(&mut self.content, " ");
        push_fx(&mut self.content, size);
        push_lit(&mut self.content, " Tf ");
        push_fx(&mut self.content, x);
        push_lit(&mut self.content, " ");
        push_fx(&mut self.content, y);
        push_lit(&mut self.content, " Td <");
        let ghost mid = self.content@;
        let mut i: usize = 0;
        while i < glyphs.len()
            invariant
                0 <= i <= glyphs@.len(),
                glyphs@ == run,
                self.content@ == mid + hex_run(run.subrange(0, i as int)),
                self.used_glyphs@ == old(self).used_glyphs@ + run_events(
                    run.subrange(0, i as int),
                    font_index,
                ),
                self.used_fonts == old(self).used_fonts,
                self.used_images == old(self).used_images,
                self.width == old(self).width,
                self.height == old(self).height,
                old(self).wf(),
            decreases glyphs@.len() - i,
        {
            push_hex4(&mut self.content, glyphs[i].glyph_id);
            self.used_glyphs.push((font_index, glyphs[i].glyph_id));
            proof {
                let pre = run.subrange(0, i as int);
                let cur = run.subrange(0, i as int + 1);
                assert(cur.drop_last() =~= pre);
                assert(cur.last() == run[i as int]);
                assert(self.content@ =~= mid + hex_run(cur));
                assert(self.used_glyphs@ =~= old(self).used_glyphs@ + run_events(cur, font_index));
            }
            i = i + 1;
        }
        proof {
            assert(run.subrange(0, run.len() as int) =~= run);
        }
        push_lit(&mut self.content, "> Tj ET Q ");
        insert_unique_u32(&mut self.used_fonts, font_index);
        proof {
            assert(lit_bytes("q BT /F"@) =~= seq![113u8, 32, 66, 84, 32, 47, 70]);
            assert(lit_bytes(" Tf "@) =~= seq![32u8, 84, 102, 32]);
            assert(lit_bytes(" "@) =~= seq![32u8]);
            assert(lit_bytes(" Td <"@) =~= seq![32u8, 84, 100, 32, 60]);
            assert(lit_bytes("> Tj ET Q "@) =~= seq![62u8, 32, 84, 106, 32, 69, 84, 32, 81, 32]);
            assert(self.content@ =~= old(self).content@ + op_text_with_font(
                run,
                x as int,
                y as int,
                size as int,
                font_index,
            ));
        }
    }

    /// Append a stroked line.
    #[verifier::rlimit(60)]
    pub fn draw_line(&mut self, x1: i64, y1: i64, x2: i64, y2: i64, width: i64)
        requires
            old(self).wf(),
            fx_ok(x1 as int),
            fx_ok(y1 as int),
            fx_ok(x2 as int),
            fx_ok(y2 as int),
            fx_ok(width as int),
        ensures
            final(self).wf(),
            final(self).content@ == old(self).content@ + op_line(
                x1 as int,
                y1 as int,
                x2 as int,
                y2 as int,
                width as int,
            ),
            unchanged_but_content(*old(self), *final(self)),
    {
        proof {
            reveal_strlit(" w ");
            reveal_strlit(" ");
            reveal_strlit(" m ");
            reveal_strlit(" l S ");
        }
        push_fx(&mut self.content, width);
        push_lit(&mut self.content, " w ");
        push_fx(&mut self.content, x1);
        push_lit(&mut self.content, " ");
        push_fx(&mut self.content, y1);
        push_lit(&mut self.content, " m ");
        push_fx(&mut self.content, x2);
        push_lit(&mut self.content, " ");
        push_fx(&mut self.content, y2);
        push_lit(&mut self.content, " l S ");
        proof {
            assert(lit_bytes(" w "@) =~= seq![32u8, 119, 32]);
            assert(lit_bytes(" "@) =~= seq![32u8]);
            assert(lit_bytes(" m "@) =~= seq![32u8, 109, 32]);
            assert(lit_bytes(" l S "@) =~= seq![32u8, 108, 32, 83, 32]);
            assert(self.content@ =~= old(self).content@ + op_line(
                x1 as int,
                y1 as int,
                x2 as int,
                y2 as int,
                width as int,
            ));
        }
    }

    /// Append a stroked rectangle.
    #[verifier::rlimit(60)]
    pub fn draw_rect(&mut self, x: i64, y: i64, w: i64, h: i64, width: i64)
        requires
            old(self).wf(),
            fx_ok(x as int),
            fx_ok(y as int),
            fx_ok(w as int),
            fx_ok(h as int),
            fx_ok(width as int),
        ensures
            final(self).wf(),
            final(self).content@ == old(self).content@ + op_rect(
                x as int,
                y as int,
                w as int,
                h as int,
                width as int,
            ),
            unchanged_but_content(*old(self), *final(self)),
    {
        proof {
            reveal_strlit(" w ");
            reveal_strlit(" ");
            reveal_strlit(" re S ");
        }
        push_fx(&mut self.content, width);
        push_lit(&mut self.content, " w ");
        push_fx(&mut self.content, x);
        push_lit(&mut self.content, " ");
        push_fx(&mut self.content, y);
        push_lit(&mut self.content, " ");
        push_fx(&mut self.content, w);
        push_lit(&mut self.content, " ");
        push_fx(&mut self.content, h);
        push_lit(&mut self.content, " re S ");
        proof {
            assert(lit_bytes(" w "@) =~= seq![32u8, 119, 32]);
            assert(lit_bytes(" "@) =~= seq![32u8]);
            assert(lit_bytes(" re S "@) =~= seq![32u8, 114, 101, 32, 83, 32]);
            assert(self.content@ =~= old(self).content@ + op_rect(
                x as int,
                y as int,
                w as int,
                h as int,
                width as int,
            ));
        }
    }

    /// Append a gray-filled rectangle.
    #[verifier::rlimit(60)]
    pub fn draw_fill_rect(&mut self, x: i64, y: i64, w: i64, h: i64, gray: i64)
        requires
            old(self).wf(),
            fx_ok(x as int),
            fx_ok(y as int),
            fx_ok(w as int),
            fx_ok(h as int),
            fx_ok(gray as int),
        ensures
            final(self).wf(),
            final(self).content@ == old(self).content@ + op_fill_rect(
                x as int,
                y as int,
                w as int,
                h as int,
                gray as int,
            ),
            unchanged_but_content(*old(self), *final(self)),
    {
        proof {
            reveal_strlit(" g ");
            reveal_strlit(" ");
            reveal_strlit(" re f ");
        }
        push_fx(&mut self.content, gray);
        push_lit(&mut self.content, " g ");
        push_fx(&mut self.content, x);
        push_lit(&mut self.content, " ");
        push_fx(&mut self.content, y);
        push_lit(&mut self.content, " ");
        push_fx(&mut self.content, w);
        push_lit(&mut self.content, " ");
        push_fx(&mut self.content, h);
        push_lit(&mut self.content, " re f ");
        proof {
            assert(lit_bytes(" g "@) =~= seq![32u8, 103, 32]);
            assert(lit_bytes(" "@) =~= seq![32u8]);
            assert(lit_bytes(" re f "@) =~= seq![32u8, 114, 101, 32, 102, 32]);
            assert(self.content@ =~= old(self).content@ + op_fill_rect(
                x as int,
                y as int,
                w as int,
                h as int,
                gray as int,
            ));
        }
    }

    /// Append a color-filled rectangle inside a saved graphics state.
    #[verifier::rlimit(60)]
    pub fn draw_fill_rect_color(&mut self, x: i64, y: i64, w: i64, h: i64, color: Color)
        requires
            old(self).wf(),
            fx_ok(x as int),
            fx_ok(y as int),
            fx_ok(w as int),
            fx_ok(h as int),
            color.wf(),
        ensures
            final(self).wf(),
            final(self).content@ == old(self).content@ + op_fill_rect_color(
                x as int,
                y as int,
                w as int,
                h as int,
                color,
            ),
            unchanged_but_content(*old(self), *final(self)),
    {
        proof {
            reveal_strlit("q ");
            reveal_strlit(" ");
            reveal_strlit(" re f Q ");
        }
        push_lit(&mut self.content, "q ");
        color.to_pdf_fill(&mut self.content);
        push_lit(&mut self.content, " ");
        push_fx(&mut self.content, x);
        push_lit(&mut self.content, " ");
        push_fx(&mut self.content, y);
        push_lit(&mut self.content, " ");
        push_fx(&mut self.content, w);
        push_lit(&mut self.content, " ");
        push_fx(&mut self.content, h);
        push_lit(&mut self.content, " re f Q ");
        proof {
            assert(lit_bytes("q "@) =~= seq![113u8, 32]);
            assert(lit_bytes(" "@) =~= seq![32u8]);
            assert(lit_bytes(" re f Q "@) =~= seq![32u8, 114, 101, 32, 102, 32, 81, 32]);
            assert(self.content@ =~= old(self).content@ + op_fill_rect_color(
                x as int,
                y as int,
                w as int,
                h as int,
                color,
            ));
        }
    }

    /// Place an image XObject and record its index.
    #[verifier::rlimit(60)]
    pub fn draw_image(&mut self, image_index: u32, x: i64, y: i64, width: i64, height: i64)
        requires
            old(self).wf(),
            fx_ok(x as int),
            fx_ok(y as int),
            fx_ok(width as int),
            fx_ok(height as int),
        ensures
            final(self).wf(),
            final(self).content@ == old(self).content@ + op_image(
                image_index,
                x as int,
                y as int,
                width as int,
                height as int,
            ),
            final(self).used_images@.to_set() == old(self).used_images@.to_set().insert(
                image_index,
            ),
            final(self).used_glyphs@ == old(self).used_glyphs@,
            final(self).used_fonts@ == old(self).used_fonts@,
            final(self).width == old(self).width,
            final(self).height == old(self).height,
    {
        insert_unique_u32(&mut self.used_images, image_index);
        proof {
            reveal_strlit("q ");
            reveal_strlit(" 0 0 ");
            reveal_strlit(" ");
            reveal_strlit(" cm /Im");
            reveal_strlit(" Do Q ");
        }
        push_lit(&mut self.content, "q ");
        push_fx(&mut self.content, width);
        push_lit(&mut self.content, " 0 0 ");
        push_fx(&mut self.content, height);
        push_lit(&mut self.content, " ");
        push_fx(&mut self.content, x);
        push_lit(&mut self.content, " ");
        push_fx(&mut self.content, y);
        push_lit(&mut self.content, " cm /Im");
        push_u64(&mut self.content, image_index as u64);
        push_lit(&mut self.content, " Do Q ");
        proof {
            assert(lit_bytes("q "@) =~= seq![113u8, 32]);
            assert(lit_bytes(" 0 0 "@) =~= seq![32u8, 48, 32, 48, 32]);
            assert(lit_bytes(" "@) =~= seq![32u8]);
            assert(lit_bytes(" cm /Im"@) =~= seq![32u8, 99, 109, 32, 47, 73, 109]);
            assert(lit_bytes(" Do Q "@) =~= seq![32u8, 68, 111, 32, 81, 32]);
            assert(self.content@ =~= old(self).content@ + op_image(
                image_index,
                x as int,
                y as int,
                width as int,
                height as int,
            ));
        }
    }
}

/// Everything but the content stream is unchanged.
pub open spec fn unchanged_but_content(a: Page, b: Page) -> bool {
    &&& b.width == a.width
    &&& b.height == a.height
    &&& b.used_glyphs@ == a.used_glyphs@
    &&& b.used_fonts@ == a.used_fonts@
    &&& b.used_images@ == a.used_images@
}

/// Add a value to a duplicate-free list if it is not there yet.
pub fn insert_unique_u32(v: &mut Vec<u32>, x: u32)
    requires
        old(v)@.no_duplicates(),
    ensures
        final(v)@.no_duplicates(),
        final(v)@.to_set() == old(v)@.to_set().insert(x),
        old(v)@.is_prefix_of(final(v)@),
{
    broadcast use vstd::set::group_set_axioms;

    let mut i: usize = 0;
    while i < v.len()
        invariant
            0 <= i <= v@.len(),
            forall|k: int| 0 <= k < i ==> v@[k] != x,
            v@ == old(v)@,
            v@.no_duplicates(),
        decreases v@.len() - i,
    {
        if v[i] == x {
            proof {
                assert(v@.contains(x));
                assert(v@.to_set().insert(x) =~= v@.to_set());
                assert(v@.subrange(0, v@.len() as int) =~= v@);
            }
            return ;
        }
        i = i + 1;
    }
    proof {
        assert(!v@.contains(x));
    }
    let ghost pre = v@;
    v.push(x);
    proof {
        assert forall|y: u32| v@.contains(y) <==> (pre.contains(y) || y == x) by {
            assert(v@[pre.len() as int] == x);
            if pre.contains(y) {
                let j = choose|j: int| 0 <= j < pre.len() && pre[j] == y;
                assert(v@[j] == y);
            }
            if v@.contains(y) {
                let j = choose|j: int| 0 <= j < v@.len() && v@[j] == y;
                if j < pre.len() {
                    assert(pre[j] == y);
                }
            }
        }
        assert(v@.to_set() =~= pre.to_set().insert(x));
        assert forall|a: int, b: int|
            0 <= a < v@.len() && 0 <= b < v@.len() && a != b implies v@[a] != v@[b] by {
            if a < pre.len() && b < pre.len() {
            } else if b == pre.len() as int {
                assert(v@[b] == x);
                assert(pre[a] == v@[a]);
            } else {
                assert(v@[a] == x);
                assert(pre[b] == v@[b]);
            }
        }
        assert(v@.subrange(0, pre.len() as int) =~= pre);
        assert(v@.no_duplicates());
        assert(pre.is_prefix_of(v@));
    }
}

} // verus!

use crate::text::{wrap_lines, wrap_text, split_words, leading_of, leading};
use crate::table::{
    Table, row_height_of, rows_view, cols_width_upto, cell_width_of,
};
use crate::fx::{fx_clamp, fx_add};

verus! {

/// The operators of one wrapped text block: one text-showing op per line,
/// stepping the baseline down by the leading, each optionally prefixed by a
/// fill color.
pub open spec fn multiline_ops(
    data: Seq<u8>,
    lines: Seq<Seq<char>>,
    x: int,
    y: int,
    size: int,
    idx: u32,
    color: Option<Color>,
) -> Seq<u8>
    decreases lines.len(),
{
    if lines.len() == 0 {
        Seq::empty()
    } else {
        let op = op_text_with_font(shaped_glyphs_of(data, lines[0], size), x, y, size, idx);
        let op0 = match color {
            Some(c) => fill_op(c) + seq![32u8] + op,
            None => op,
        };
        op0 + multiline_ops(
            data,
            lines.drop_first(),
            x,
            fx_clamp(y - leading_of(size)),
            size,
            idx,
            color,
        )
    }
}

/// The glyph events of one wrapped text block.
pub open spec fn multiline_events(
    data: Seq<u8>,
    lines: Seq<Seq<char>>,
    size: int,
    idx: u32,
) -> Seq<(u32, u16)>
    decreases lines.len(),
{
    if lines.len() == 0 {
        Seq::empty()
    } else {
        run_events(shaped_glyphs_of(data, lines[0], size), idx) + multiline_events(
            data,
            lines.drop_first(),
            size,
            idx,
        )
    }
}

impl Page {
    /// Wrap a text at a width and draw its lines top-down from `y`,
    /// optionally with a fill color before each line.
    fn text_multiline_inner(
        &mut self,
        text: String,
        x: i64,
        y: i64,
        width: i64,
        size: i64,
        font_index: u32,
        font: &mut Font,
        color: Option<Color>,
    )
        requires
            old(self).wf(),
            old(font).wf(),
            fx_ok(x as int),
            fx_ok(y as int),
            fx_ok(width as int),
            fx_ok(size as int),
            0 <= size,
            color matches Some(c) ==> c.wf(),
        ensures
            final(self).wf(),
            final(font).wf(),
            final(font).data@ == old(font).data@,
            final(font).name@ == old(font).name@,
            final(self).content@ == old(self).content@ + multiline_ops(
                old(font).data@,
                wrap_lines(old(font).data@, size as int, width as int, crate::text::words_of(text@), Seq::empty()),
                x as int,
                y as int,
                size as int,
                font_index,
                color,
            ),
            final(self).used_glyphs@ == old(self).used_glyphs@ + multiline_events(
                old(font).data@,
                wrap_lines(old(font).data@, size as int, width as int, crate::text::words_of(text@), Seq::empty()),
                size as int,
                font_index,
            ),
            old(self).used_fonts@.to_set().subset_of(final(self).used_fonts@.to_set()),
            final(self).used_fonts@.to_set().subset_of(
                old(self).used_fonts@.to_set().insert(font_index),
            ),
            final(self).used_images@ == old(self).used_images@,
            final(self).width == old(self).width,
            final(self).height == old(self).height,
    {
        broadcast use vstd::set::group_set_axioms;

        let ghost data = font.data@;
        let words = split_words(text.as_str());
        let lines = wrap_text(font, &words, width, size);
        let ghost lv = lines@.map_values(|s: String| s@);
        let lead = leading(size);
        let mut cur_y = y;
        let mut i: usize = 0;
        proof {
            assert(lv.skip(0) =~= lv);
        }
        while i < lines.len()
            invariant
                0 <= i <= lines@.len(),
                lv == lines@.map_values(|s: String| s@),
                font.wf(),
                font.data@ == data,
                font.name@ == old(font).name@,
                self.wf(),
                fx_ok(x as int),
                fx_ok(cur_y as int),
                fx_ok(size as int),
                0 <= size,
                lead == leading_of(size as int),
                color matches Some(c) ==> c.wf(),
                self.content@ + multiline_ops(
                    data,
                    lv.skip(i as int),
                    x as int,
                    cur_y as int,
                    size as int,
                    font_index,
                    color,
                ) == old(self).content@ + multiline_ops(
                    data,
                    lv,
                    x as int,
                    y as int,
                    size as int,
                    font_index,
                    color,
                ),
                self.used_glyphs@ + multiline_events(data, lv.skip(i as int), size as int, font_index)
                    == old(self).used_glyphs@ + multiline_events(data, lv, size as int, font_index),
                old(self).used_fonts@.to_set().subset_of(self.used_fonts@.to_set()),
                self.used_fonts@.to_set().subset_of(
                    old(self).used_fonts@.to_set().insert(font_index),
                ),
                self.used_images@ == old(self).used_images@,
                self.width == old(self).width,
                self.height == old(self).height,
            decreases lines@.len() - i,
        {
            proof {
                assert(lv.skip(i as int)[0] == lv[i as int]);
                assert(lv.skip(i as int).drop_first() =~= lv.skip(i as int + 1));
            }
            match color {
                Some(c) => {
                    proof {
                        reveal_strlit(" ");
                    }
                    c.to_pdf_fill(&mut self.content);
                    push_lit(&mut self.content, " ");
                    proof {
                        assert(lit_bytes(" "@) =~= seq![32u8]);
                    }
                },
                None => {},
            }
            let line = lines[i].clone();
            proof {
                assert(line@ == lv[i as int]);
            }
            self.text_with_font(line, x, cur_y, size, font_index, font);
            cur_y = fx_sub(cur_y, lead);
            i = i + 1;
        }
        proof {
            assert(lv.skip(lv.len() as int) =~= Seq::<Seq<char>>::empty());
            assert(self.content@ + Seq::<u8>::empty() =~= self.content@);
            assert(self.used_glyphs@ + Seq::<(u32, u16)>::empty() =~= self.used_glyphs@);
        }
    }

    /// Wrap and draw a text block in a custom font.
    pub fn text_multiline(
        &mut self,
        text: String,
        x: i64,
        y: i64,
        width: i64,
        size: i64,
        font_index: u32,
        font: &mut Font,
    )
        requires
            old(self).wf(),
            old(font).wf(),
            fx_ok(x as int),
            fx_ok(y as int),
            fx_ok(width as int),
            fx_ok(size as int),
            0 <= size,
        ensures
            final(self).wf(),
            final(font).wf(),
            final(font).data@ == old(font).data@,
            final(font).name@ == old(font).name@,
            final(self).content@ == old(self).content@ + multiline_ops(
                old(font).data@,
                wrap_lines(old(font).data@, size as int, width as int, crate::text::words_of(text@), Seq::empty()),
                x as int,
                y as int,
                size as int,
                font_index,
                None,
            ),
            final(self).used_glyphs@ == old(self).used_glyphs@ + multiline_events(
                old(font).data@,
                wrap_lines(old(font).data@, size as int, width as int, crate::text::words_of(text@), Seq::empty()),
                size as int,
                font_index,
            ),
            old(self).used_fonts@.to_set().subset_of(final(self).used_fonts@.to_set()),
            final(self).used_fonts@.to_set().subset_of(
                old(self).used_fonts@.to_set().insert(font_index),
            ),
            final(self).used_images@ == old(self).used_images@,
            final(self).width == old(self).width,
            final(self).height == old(self).height,
    {
        self.text_multiline_inner(text, x, y, width, size, font_index, font, None)
    }

    /// Wrap and draw a text block in a custom font with a fill color set
    /// before each line.
    pub fn text_multiline_colored(
        &mut self,
        text: String,
        x: i64,
        y: i64,
        width: i64,
        size: i64,
        font_index: u32,
        font: &mut Font,
        color: Color,
    )
        requires
            old(self).wf(),
            old(font).wf(),
            fx_ok(x as int),
            fx_ok(y as int),
            fx_ok(width as int),
            fx_ok(size as int),
            0 <= size,
            color.wf(),
        ensures
            final(self).wf(),
            final(font).wf(),
            final(font).data@ == old(font).data@,
            final(font).name@ == old(font).name@,
            final(self).content@ == old(self).content@ + multiline_ops(
                old(font).data@,
                wrap_lines(old(font).data@, size as int, width as int, crate::text::words_of(text@), Seq::empty()),
                x as int,
                y as int,
                size as int,
                font_index,
                Some(color),
            ),
            final(self).used_glyphs@ == old(self).used_glyphs@ + multiline_events(
                old(font).data@,
                wrap_lines(old(font).data@, size as int, width as int, crate::text::words_of(text@), Seq::empty()),
                size as int,
                font_index,
            ),
            old(self).used_fonts@.to_set().subset_of(final(self).used_fonts@.to_set()),
            final(self).used_fonts@.to_set().subset_of(
                old(self).used_fonts@.to_set().insert(font_index),
            ),
            final(self).used_images@ == old(self).used_images@,
            final(self).width == old(self).width,
            final(self).height == old(self).height,
    {
        self.text_multiline_inner(text, x, y, width, size, font_index, font, Some(color))
    }
}

} // verus!

use crate::table::table_y_after;

verus! {

/// The header titles and column boxes of a table, from column `j` on, with
/// the running x position threaded through: each column draws its title at
/// size 10 inside the left padding, then its stroked box.
pub open spec fn header_cols_ops(
    data: Seq<u8>,
    cols: Seq<crate::table::ColV>,
    j: int,
    cur_x: int,
    text_y: int,
    header_top: int,
    hh: int,
    border: int,
    padding: int,
    idx: u32,
) -> Seq<u8>
    decreases cols.len() - j,
{
    if j < 0 || j >= cols.len() {
        Seq::empty()
    } else {
        op_text_with_font(
            shaped_glyphs_of(data, cols[j].header, 10_000),
            fx_clamp(cur_x + padding),
            text_y,
            10_000,
            idx,
        ) + op_rect(cur_x, header_top, cols[j].width, hh, border) + header_cols_ops(
            data,
            cols,
            j + 1,
            fx_clamp(cur_x + cols[j].width),
            text_y,
            header_top,
            hh,
            border,
            padding,
            idx,
        )
    }
}

/// One row's cells, from cell `j` on: each cell's text wrapped inside the
/// padded cell width, then the cell's stroked box, the x position stepping
/// by the column width.
pub open spec fn row_cells_ops(
    data: Seq<u8>,
    cells: Seq<Seq<char>>,
    cols: Seq<crate::table::ColV>,
    j: int,
    cur_x: int,
    cur_y: int,
    row_bottom: int,
    rh: int,
    border: int,
    padding: int,
    size: int,
    idx: u32,
) -> Seq<u8>
    decreases cells.len() - j,
{
    if j < 0 || j >= cells.len() {
        Seq::empty()
    } else {
        let colw = crate::table::col_width_at(cols, j);
        multiline_ops(
            data,
            crate::text::wrap_lines(
                data,
                size,
                fx_clamp(colw - fx_clamp(padding + padding)),
                crate::text::words_of(cells[j]),
                Seq::empty(),
            ),
            fx_clamp(cur_x + padding),
            fx_clamp(fx_clamp(cur_y - padding) - 8000),
            size,
            idx,
            None,
        ) + op_rect(cur_x, row_bottom, colw, rh, border) + row_cells_ops(
            data,
            cells,
            cols,
            j + 1,
            fx_clamp(cur_x + colw),
            cur_y,
            row_bottom,
            rh,
            border,
            padding,
            size,
            idx,
        )
    }
}

/// The rows of a table from row `i` on, each at its computed height, the y
/// position stepping down row by row.
pub open spec fn table_rows_ops(
    data: Seq<u8>,
    rows: Seq<Seq<Seq<char>>>,
    cols: Seq<crate::table::ColV>,
    i: int,
    x: int,
    cur_y: int,
    border: int,
    padding: int,
    size: int,
    idx: u32,
) -> Seq<u8>
    decreases rows.len() - i,
{
    if i < 0 || i >= rows.len() {
        Seq::empty()
    } else {
        let rh = crate::table::row_height_of(data, rows[i], cols, padding, size);
        row_cells_ops(
            data,
            rows[i],
            cols,
            0,
            x,
            cur_y,
            fx_clamp(cur_y - rh),
            rh,
            border,
            padding,
            size,
            idx,
        ) + table_rows_ops(
            data,
            rows,
            cols,
            i + 1,
            x,
            fx_clamp(cur_y - rh),
            border,
            padding,
            size,
            idx,
        )
    }
}

/// Every operator a table paints: the gray 0.9 header band with its border,
/// the column titles at size 10 with their boxes, then each row's wrapped
/// cells and boxes at the computed row heights.
pub open spec fn table_ops(data: Seq<u8>, t: crate::table::TableV, x: int, y: int, idx: u32) -> Seq<
    u8,
> {
    let hh = t.settings.header_height as int;
    let border = t.settings.border_width as int;
    let padding = t.settings.padding as int;
    let total_w = crate::table::cols_width_upto(t.columns, t.columns.len() as int);
    let header_top = fx_clamp(y - hh);
    let text_y = fx_clamp(fx_clamp(y - fx_clamp(hh * 1 / 2)) - 4000);
    op_fill_rect(x, header_top, total_w, hh, 900) + op_rect(x, header_top, total_w, hh, border)
        + header_cols_ops(data, t.columns, 0, x, text_y, header_top, hh, border, padding, idx)
        + table_rows_ops(
        data,
        t.rows,
        t.columns,
        0,
        x,
        fx_clamp(y - hh),
        border,
        padding,
        t.settings.font_size as int,
        idx,
    )
}

/// Extending a byte sequence keeps its prefixes.
pub proof fn lemma_prefix_append(a: Seq<u8>, b: Seq<u8>, c: Seq<u8>)
    requires
        a.is_prefix_of(b),
    ensures
        a.is_prefix_of(b + c),
{
    assert((b + c).subrange(0, a.len() as int) =~= b.subrange(0, a.len() as int));
}

/// All events of a wrapped block carry the block's font index.
proof fn lemma_multiline_events_keys(data: Seq<u8>, lines: Seq<Seq<char>>, size: int, idx: u32)
    ensures
        forall|k: int|
            0 <= k < multiline_events(data, lines, size, idx).len() ==> (#[trigger] multiline_events(
                data,
                lines,
                size,
                idx,
            )[k]).0 == idx,
    decreases lines.len(),
{
    if lines.len() > 0 {
        lemma_multiline_events_keys(data, lines.drop_first(), size, idx);
        let ev = multiline_events(data, lines, size, idx);
        let head = run_events(shaped_glyphs_of(data, lines[0], size), idx);
        let rest = multiline_events(data, lines.drop_first(), size, idx);
        assert forall|k: int| 0 <= k < ev.len() implies (#[trigger] ev[k]).0 == idx by {
            if k < head.len() {
                assert(ev[k] == head[k]);
            } else {
                assert(ev[k] == rest[k - head.len()]);
            }
        }
    }
}

impl Page {
    /// Draw a table at `(x, y)` (the table's top-left): a gray header band
    /// with the column titles, then each row at its computed height, every
    /// cell wrapped and boxed. Returns the y position under the table,
    /// exactly `y` less the header band and every row height.
    #[verifier::loop_isolation(false)]
    #[verifier::rlimit(100)]
    pub fn draw_table(&mut self, table: &Table, x: i64, y: i64, font: &mut Font, font_index: u32) -> (r: i64)
        requires
            old(self).wf(),
            table.wf(),
            old(font).wf(),
            fx_ok(x as int),
            fx_ok(y as int),
        ensures
            final(self).wf(),
            final(font).wf(),
            final(font).data@ == old(font).data@,
            final(font).name@ == old(font).name@,
            r == table_y_after(old(font).data@, crate::table::table_v(*table), y as int, table.rows@.len() as int),
            final(self).content@ == old(self).content@ + table_ops(
                old(font).data@,
                crate::table::table_v(*table),
                x as int,
                y as int,
                font_index,
            ),
            old(self).content@.is_prefix_of(final(self).content@),
            old(self).used_glyphs@.is_prefix_of(final(self).used_glyphs@),
            forall|k: int|
                old(self).used_glyphs@.len() <= k < final(self).used_glyphs@.len() ==> (
                #[trigger] final(self).used_glyphs@[k]).0 == font_index,
            old(self).used_fonts@.to_set().subset_of(final(self).used_fonts@.to_set()),
            final(self).used_fonts@.to_set().subset_of(
                old(self).used_fonts@.to_set().insert(font_index),
            ),
            final(self).used_images@ == old(self).used_images@,
            final(self).width == old(self).width,
            final(self).height == old(self).height,
    {
        broadcast use vstd::set::group_set_axioms;

        let ghost data = font.data@;
        let ghost tv = crate::table::table_v(*table);
        let hh = table.settings.header_height;
        let border = table.settings.border_width;
        let padding = table.settings.padding;
        let fs = table.settings.font_size;
        self.draw_table_header(table, x, y, font, font_index);
        // Rows.
        let mut cur_y = fx_sub(y, hh);
        let ghost after_header = self.content@;
        let mut i: usize = 0;
        proof {
            assert(final(self).content@ == old(self).content@ + table_ops(
                data,
                tv,
                x as int,
                y as int,
                font_index,
            ) ==> true);
            assert(after_header + table_rows_ops(
                data,
                tv.rows,
                tv.columns,
                0,
                x as int,
                cur_y as int,
                border as int,
                padding as int,
                fs as int,
                font_index,
            ) =~= old(self).content@ + table_ops(data, tv, x as int, y as int, font_index));
        }
        while i < table.rows.len()
            invariant
                0 <= i <= table.rows@.len(),
                cur_y == table_y_after(data, crate::table::table_v(*table), y as int, i as int),
                fx_ok(cur_y as int),
                font.wf(),
                font.data@ == data,
                font.name@ == old(font).name@,
                self.wf(),
                old(self).content@.is_prefix_of(self.content@),
                self.content@ + table_rows_ops(
                    data,
                    tv.rows,
                    tv.columns,
                    i as int,
                    x as int,
                    cur_y as int,
                    border as int,
                    padding as int,
                    fs as int,
                    font_index,
                ) == old(self).content@ + table_ops(data, tv, x as int, y as int, font_index),
                old(self).used_glyphs@.is_prefix_of(self.used_glyphs@),
                forall|k: int|
                    old(self).used_glyphs@.len() <= k < self.used_glyphs@.len() ==> (
                    #[trigger] self.used_glyphs@[k]).0 == font_index,
                old(self).used_fonts@.to_set().subset_of(self.used_fonts@.to_set()),
                self.used_fonts@.to_set().subset_of(
                    old(self).used_fonts@.to_set().insert(font_index),
                ),
                self.used_images@ == old(self).used_images@,
                self.width == old(self).width,
                self.height == old(self).height,
            decreases table.rows@.len() - i,
        {
            let ghost gpre = self.used_glyphs@;
            let ghost cpre = self.content@;
            let rh = self.draw_table_row(table, i, x, cur_y, font, font_index);
            proof {
                lemma_prefix_append(
                    old(self).content@,
                    cpre,
                    self.content@.skip(cpre.len() as int),
                );
                assert(cpre + self.content@.skip(cpre.len() as int) =~= self.content@);
                assert(old(self).used_glyphs@.is_prefix_of(self.used_glyphs@)) by {
                    assert(self.used_glyphs@.subrange(0, old(self).used_glyphs@.len() as int)
                        =~= gpre.subrange(0, old(self).used_glyphs@.len() as int));
                }
                assert forall|k: int|
                    old(self).used_glyphs@.len() <= k < self.used_glyphs@.len() implies (
                #[trigger] self.used_glyphs@[k]).0 == font_index by {
                    if k < gpre.len() {
                        assert(self.used_glyphs@[k] == gpre[k]);
                    }
                }
                assert(self.content@ + table_rows_ops(
                    data,
                    tv.rows,
                    tv.columns,
                    i as int + 1,
                    x as int,
                    fx_clamp(cur_y - rh),
                    border as int,
                    padding as int,
                    fs as int,
                    font_index,
                ) =~= old(self).content@ + table_ops(data, tv, x as int, y as int, font_index));
            }
            cur_y = fx_sub(cur_y, rh);
            i = i + 1;
        }
        proof {
            assert(table_rows_ops(
                data,
                tv.rows,
                tv.columns,
                tv.rows.len() as int,
                x as int,
                cur_y as int,
                border as int,
                padding as int,
                fs as int,
                font_index,
            ) =~= Seq::<u8>::empty());
            assert(self.content@ =~= old(self).content@ + table_ops(
                data,
                tv,
                x as int,
                y as int,
                font_index,
            ));
        }
        cur_y
    }

    /// Paint a table's header band: the gray 0.9 fill, the outer border,
    /// then each column's title at size 10 and its box.
    #[verifier::loop_isolation(false)]
    #[verifier::rlimit(100)]
    fn draw_table_header(&mut self, table: &Table, x: i64, y: i64, font: &mut Font, font_index: u32)
        requires
            old(self).wf(),
            table.wf(),
            old(font).wf(),
            fx_ok(x as int),
            fx_ok(y as int),
        ensures
            final(self).wf(),
            final(font).wf(),
            final(font).data@ == old(font).data@,
            final(font).name@ == old(font).name@,
            ({
                let tv = crate::table::table_v(*table);
                let hh = tv.settings.header_height as int;
                let border = tv.settings.border_width as int;
                let padding = tv.settings.padding as int;
                let total_w = crate::table::cols_width_upto(tv.columns, tv.columns.len() as int);
                let header_top = fx_clamp(y - hh);
                let text_y = fx_clamp(fx_clamp(y - fx_clamp(hh * 1 / 2)) - 4000);
                final(self).content@ == old(self).content@ + op_fill_rect(
                    x as int,
                    header_top,
                    total_w,
                    hh,
                    900,
                ) + op_rect(x as int, header_top, total_w, hh, border) + header_cols_ops(
                    old(font).data@,
                    tv.columns,
                    0,
                    x as int,
                    text_y,
                    header_top,
                    hh,
                    border,
                    padding,
                    font_index,
                )
            }),
            old(self).content@.is_prefix_of(final(self).content@),
            old(self).used_glyphs@.is_prefix_of(final(self).used_glyphs@),
            forall|k: int|
                old(self).used_glyphs@.len() <= k < final(self).used_glyphs@.len() ==> (
                #[trigger] final(self).used_glyphs@[k]).0 == font_index,
            old(self).used_fonts@.to_set().subset_of(final(self).used_fonts@.to_set()),
            final(self).used_fonts@.to_set().subset_of(
                old(self).used_fonts@.to_set().insert(font_index),
            ),
            final(self).used_images@ == old(self).used_images@,
            final(self).width == old(self).width,
            final(self).height == old(self).height,
    {
        broadcast use vstd::set::group_set_axioms;

        let ghost data = font.data@;
        let ghost tv = crate::table::table_v(*table);
        let hh = table.settings.header_height;
        let border = table.settings.border_width;
        let padding = table.settings.padding;
        let total_width = table.total_width();
        let header_top = fx_sub(y, hh);
        self.draw_fill_rect(x, header_top, total_width, hh, 900);
        self.draw_rect(x, header_top, total_width, hh, border);
        let text_y = fx_sub(fx_sub(y, fx_frac(hh, 1, 2)), 4000);
        let ghost band = self.content@;
        let mut cur_x = x;
        let mut j: usize = 0;
        while j < table.columns.len()
            invariant
                0 <= j <= table.columns@.len(),
                font.wf(),
                font.data@ == data,
                font.name@ == old(font).name@,
                self.wf(),
                fx_ok(cur_x as int),
                old(self).content@.is_prefix_of(self.content@),
                self.content@ + header_cols_ops(
                    data,
                    tv.columns,
                    j as int,
                    cur_x as int,
                    text_y as int,
                    header_top as int,
                    hh as int,
                    border as int,
                    padding as int,
                    font_index,
                ) == band + header_cols_ops(
                    data,
                    tv.columns,
                    0,
                    x as int,
                    text_y as int,
                    header_top as int,
                    hh as int,
                    border as int,
                    padding as int,
                    font_index,
                ),
                old(self).used_glyphs@.is_prefix_of(self.used_glyphs@),
                forall|k: int|
                    old(self).used_glyphs@.len() <= k < self.used_glyphs@.len() ==> (
                    #[trigger] self.used_glyphs@[k]).0 == font_index,
                old(self).used_fonts@.to_set().subset_of(self.used_fonts@.to_set()),
                self.used_fonts@.to_set().subset_of(
                    old(self).used_fonts@.to_set().insert(font_index),
                ),
                self.used_images@ == old(self).used_images@,
                self.width == old(self).width,
                self.height == old(self).height,
            decreases table.columns@.len() - j,
        {
            let ghost gpre = self.used_glyphs@;
            let ghost cpre = self.content@;
            let header_text = table.columns[j].header.clone();
            self.text_with_font(header_text, fx_add(cur_x, padding), text_y, 10_000, font_index, font);
            self.draw_rect(cur_x, header_top, table.columns[j].width, hh, border);
            cur_x = fx_add(cur_x, table.columns[j].width);
            proof {
                lemma_prefix_append(
                    old(self).content@,
                    cpre,
                    self.content@.skip(cpre.len() as int),
                );
                assert(cpre + self.content@.skip(cpre.len() as int) =~= self.content@);
                assert(old(self).used_glyphs@.is_prefix_of(self.used_glyphs@)) by {
                    assert(self.used_glyphs@.subrange(0, old(self).used_glyphs@.len() as int)
                        =~= gpre.subrange(0, old(self).used_glyphs@.len() as int));
                }
                assert(tv.columns[j as int].header == table.columns@[j as int].header@);
                assert(tv.columns[j as int].width == table.columns@[j as int].width as int);
                assert(self.content@ + header_cols_ops(
                    data,
                    tv.columns,
                    j as int + 1,
                    cur_x as int,
                    text_y as int,
                    header_top as int,
                    hh as int,
                    border as int,
                    padding as int,
                    font_index,
                ) =~= band + header_cols_ops(
                    data,
                    tv.columns,
                    0,
                    x as int,
                    text_y as int,
                    header_top as int,
                    hh as int,
                    border as int,
                    padding as int,
                    font_index,
                ));
            }
            j = j + 1;
        }
        proof {
            assert(header_cols_ops(
                data,
                tv.columns,
                tv.columns.len() as int,
                cur_x as int,
                text_y as int,
                header_top as int,
                hh as int,
                border as int,
                padding as int,
                font_index,
            ) =~= Seq::<u8>::empty());
            assert(self.content@ + Seq::<u8>::empty() =~= self.content@);
        }
    }

    /// Paint one table row at `cur_y`: every cell's wrapped text and box,
    /// left to right. Returns the row's computed height.
    #[verifier::loop_isolation(false)]
    #[verifier::rlimit(100)]
    fn draw_table_row(&mut self, table: &Table, i: usize, x: i64, cur_y: i64, font: &mut Font, font_index: u32) -> (rh: i64)
        requires
            old(self).wf(),
            table.wf(),
            old(font).wf(),
            i < table.rows@.len(),
            fx_ok(x as int),
            fx_ok(cur_y as int),
        ensures
            final(self).wf(),
            final(font).wf(),
            final(font).data@ == old(font).data@,
            final(font).name@ == old(font).name@,
            ({
                let tv = crate::table::table_v(*table);
                rh == crate::table::row_height_of(
                    old(font).data@,
                    tv.rows[i as int],
                    tv.columns,
                    tv.settings.padding as int,
                    tv.settings.font_size as int,
                ) && final(self).content@ == old(self).content@ + row_cells_ops(
                    old(font).data@,
                    tv.rows[i as int],
                    tv.columns,
                    0,
                    x as int,
                    cur_y as int,
                    fx_clamp(cur_y - rh),
                    rh as int,
                    tv.settings.border_width as int,
                    tv.settings.padding as int,
                    tv.settings.font_size as int,
                    font_index,
                )
            }),
            0 <= rh,
            fx_ok(rh as int),
            old(self).content@.is_prefix_of(final(self).content@),
            old(self).used_glyphs@.is_prefix_of(final(self).used_glyphs@),
            forall|k: int|
                old(self).used_glyphs@.len() <= k < final(self).used_glyphs@.len() ==> (
                #[trigger] final(self).used_glyphs@[k]).0 == font_index,
            old(self).used_fonts@.to_set().subset_of(final(self).used_fonts@.to_set()),
            final(self).used_fonts@.to_set().subset_of(
                old(self).used_fonts@.to_set().insert(font_index),
            ),
            final(self).used_images@ == old(self).used_images@,
            final(self).width == old(self).width,
            final(self).height == old(self).height,
    {
        broadcast use vstd::set::group_set_axioms;

        let ghost data = font.data@;
        let ghost tv = crate::table::table_v(*table);
        let border = table.settings.border_width;
        let padding = table.settings.padding;
        let rh = table.row_height(i, font);
        let font_size = table.settings.font_size;
        let row_bottom = fx_sub(cur_y, rh);
        let mut cur_x = x;
        let mut j: usize = 0;
        let ncells = table.rows[i].len();
        while j < ncells
            invariant
                0 <= j <= ncells,
                ncells == table.rows@[i as int]@.len(),
                font.wf(),
                font.data@ == data,
                font.name@ == old(font).name@,
                self.wf(),
                fx_ok(cur_x as int),
                old(self).content@.is_prefix_of(self.content@),
                self.content@ + row_cells_ops(
                    data,
                    tv.rows[i as int],
                    tv.columns,
                    j as int,
                    cur_x as int,
                    cur_y as int,
                    row_bottom as int,
                    rh as int,
                    border as int,
                    padding as int,
                    font_size as int,
                    font_index,
                ) == old(self).content@ + row_cells_ops(
                    data,
                    tv.rows[i as int],
                    tv.columns,
                    0,
                    x as int,
                    cur_y as int,
                    row_bottom as int,
                    rh as int,
                    border as int,
                    padding as int,
                    font_size as int,
                    font_index,
                ),
                old(self).used_glyphs@.is_prefix_of(self.used_glyphs@),
                forall|k: int|
                    old(self).used_glyphs@.len() <= k < self.used_glyphs@.len() ==> (
                    #[trigger] self.used_glyphs@[k]).0 == font_index,
                old(self).used_fonts@.to_set().subset_of(self.used_fonts@.to_set()),
                self.used_fonts@.to_set().subset_of(
                    old(self).used_fonts@.to_set().insert(font_index),
                ),
                self.used_images@ == old(self).used_images@,
                self.width == old(self).width,
                self.height == old(self).height,
            decreases ncells - j,
        {
            let ghost gpre = self.used_glyphs@;
            let ghost cpre = self.content@;
            let colw: i64 = if j < table.columns.len() {
                table.columns[j].width
            } else {
                100_000
            };
            let cell = table.rows[i][j].clone();
            self.text_multiline(
                cell,
                fx_add(cur_x, padding),
                fx_sub(fx_sub(cur_y, padding), 8000),
                fx_sub(colw, fx_add(padding, padding)),
                font_size,
                font_index,
                font,
            );
            self.draw_rect(cur_x, row_bottom, colw, rh, border);
            cur_x = fx_add(cur_x, colw);
            proof {
                lemma_prefix_append(
                    old(self).content@,
                    cpre,
                    self.content@.skip(cpre.len() as int),
                );
                assert(cpre + self.content@.skip(cpre.len() as int) =~= self.content@);
                assert(old(self).used_glyphs@.is_prefix_of(self.used_glyphs@)) by {
                    assert(self.used_glyphs@.subrange(0, old(self).used_glyphs@.len() as int)
                        =~= gpre.subrange(0, old(self).used_glyphs@.len() as int));
                }
                lemma_multiline_events_keys(
                    data,
                    wrap_lines(
                        data,
                        font_size as int,
                        fx_clamp(colw - fx_clamp(padding + padding)) as int,
                        crate::text::words_of(table.rows@[i as int]@[j as int]@),
                        Seq::empty(),
                    ),
                    font_size as int,
                    font_index,
                );
                assert forall|k: int|
                    old(self).used_glyphs@.len() <= k < self.used_glyphs@.len() implies (
                #[trigger] self.used_glyphs@[k]).0 == font_index by {
                    if k < gpre.len() {
                        assert(self.used_glyphs@[k] == gpre[k]);
                    }
                }
                assert(tv.rows[i as int][j as int] == table.rows@[i as int]@[j as int]@);
                assert(colw as int == crate::table::col_width_at(tv.columns, j as int)) by {
                    if j < table.columns@.len() {
                        assert(tv.columns[j as int].width == table.columns@[
                            j as int
                        ].width as int);
                    }
                }
                assert(self.content@ + row_cells_ops(
                    data,
                    tv.rows[i as int],
                    tv.columns,
                    j as int + 1,
                    cur_x as int,
                    cur_y as int,
                    row_bottom as int,
                    rh as int,
                    border as int,
                    padding as int,
                    font_size as int,
                    font_index,
                ) =~= old(self).content@ + row_cells_ops(
                    data,
                    tv.rows[i as int],
                    tv.columns,
                    0,
                    x as int,
                    cur_y as int,
                    row_bottom as int,
                    rh as int,
                    border as int,
                    padding as int,
                    font_size as int,
                    font_index,
                ));
            }
            j = j + 1;
        }
        proof {
            assert(row_cells_ops(
                data,
                tv.rows[i as int],
                tv.columns,
                ncells as int,
                cur_x as int,
                cur_y as int,
                row_bottom as int,
                rh as int,
                border as int,
                padding as int,
                font_size as int,
                font_index,
            ) =~= Seq::<u8>::empty());
            assert(self.content@ + Seq::<u8>::empty() =~= self.content@);
        }
        rh
    }
}


} // verus!

verus! {

impl Page {
    /// A page with the same content, usage records and dimensions.
    pub fn duplicate(&self) -> (r: Page)
        ensures
            r.width == self.width,
            r.height == self.height,
            r.content@ == self.content@,
            r.used_glyphs@ == self.used_glyphs@,
            r.used_fonts@ == self.used_fonts@,
            r.used_images@ == self.used_images@,
            self.wf() ==> r.wf(),
    {
        Page {
            width: self.width,
            height: self.height,
            content: crate::writer::clone_bytes(&self.content),
            used_glyphs: copy_events(&self.used_glyphs),
            used_fonts: copy_u32s(&self.used_fonts),
            used_images: copy_u32s(&self.used_images),
        }
    }
}

fn copy_events(v: &Vec<(u32, u16)>) -> (r: Vec<(u32, u16)>)
    ensures
        r@ == v@,
{
    let mut r: Vec<(u32, u16)> = Vec::new();
    let mut i: usize = 0;
    while i < v.len()
        invariant
            0 <= i <= v@.len(),
            r@ == v@.subrange(0, i as int),
        decreases v@.len() - i,
    {
        r.push(v[i]);
        proof {
            assert(r@ =~= v@.subrange(0, i as int + 1));
        }
        i = i + 1;
    }
    proof {
        assert(r@ =~= v@);
    }
    r
}

/// Copy a list of indices.
pub fn copy_u32s(v: &Vec<u32>) -> (r: Vec<u32>)
    ensures
        r@ == v@,
{
    let mut r: Vec<u32> = Vec::new();
    let mut i: usize = 0;
    while i < v.len()
        invariant
            0 <= i <= v@.len(),
            r@ == v@.subrange(0, i as int),
        decreases v@.len() - i,
    {
        r.push(v[i]);
        proof {
            assert(r@ =~= v@.subrange(0, i as int + 1));
        }
        i = i + 1;
    }
    proof {
        assert(r@ =~= v@);
    }
    r
}

} // verus!
