//! The font facade: parsing, metrics, shaping, and the glyph-usage set that
//! drives subsetting.
//!
//! A `Font` holds the raw TrueType bytes and a display name. Parsing,
//! metric lookups and shaping go through the `ttf-parser` and `rustybuzz`
//! crates behind trusted wrappers; their results are named spec functions
//! of the face bytes, so everything computed from them is verified.
use vstd::prelude::*;
use crate::fx::{fx_ok, fx_clamp, fx_add, fx_scale_metric};
use vstd::multiset::Multiset;

verus! {

/// Whether `ttf-parser` accepts these bytes as face 0 of a font.
pub uninterp spec fn ttf_parses(data: Seq<u8>) -> bool;

/// The face's units per em, as the head table states it.
pub uninterp spec fn upem_of(data: Seq<u8>) -> u16;

/// The face's ascender, in font units.
pub uninterp spec fn ascender_of(data: Seq<u8>) -> i16;

/// The face's descender, in font units.
pub uninterp spec fn descender_of(data: Seq<u8>) -> i16;

/// The face's capital height, in font units, when the table has one.
pub uninterp spec fn cap_height_raw_of(data: Seq<u8>) -> Option<i16>;

/// The face's global bounding box, in font units.
pub uninterp spec fn bbox_raw_of(data: Seq<u8>) -> (i16, i16, i16, i16);

/// The face's italic angle, truncated to whole degrees and clamped to a
/// full turn either way.
pub uninterp spec fn italic_angle_deg_of(data: Seq<u8>) -> i64;

/// The horizontal advance of one glyph from the hmtx table, in font units.
pub uninterp spec fn glyph_advance_of(data: Seq<u8>, gid: u16) -> Option<u16>;

/// The number of glyphs in the face.
pub uninterp spec fn glyph_count_of(data: Seq<u8>) -> u16;

/// The run that shaping this text with this face yields: for each glyph in
/// order, its id and its raw x/y advance and x/y offset in font units.
pub uninterp spec fn shaped_run_of(data: Seq<u8>, text: Seq<char>) -> Seq<
    (u16, i32, i32, i32, i32),
>;

/// Relies on `ttf_parser::Face::parse`: success depends on the bytes alone.
#[verifier::external_body]
fn ttf_check(data: &Vec<u8>) -> (r: bool)
    ensures
        r == ttf_parses(data@),
{
    owned_ttf_parser::Face::parse(data, 0).is_ok()
}

/// Relies on `ttf_parser::Face::units_per_em`, documented to lie in
/// 16..=16384 for any face that parsed.
#[verifier::external_body]
fn upem_raw(data: &Vec<u8>) -> (r: u16)
    requires
        ttf_parses(data@),
    ensures
        r == upem_of(data@),
        16 <= r <= 16384,
{
    match owned_ttf_parser::Face::parse(data, 0) {
        Ok(f) => f.units_per_em(),
        Err(_) => 16,
    }
}

/// Relies on `ttf_parser::Face::ascender`.
#[verifier::external_body]
fn ascender_raw(data: &Vec<u8>) -> (r: i16)
    requires
        ttf_parses(data@),
    ensures
        r == ascender_of(data@),
{
    match owned_ttf_parser::Face::parse(data, 0) {
        Ok(f) => f.ascender(),
        Err(_) => 0,
    }
}

/// Relies on `ttf_parser::Face::descender`.
#[verifier::external_body]
fn descender_raw(data: &Vec<u8>) -> (r: i16)
    requires
        ttf_parses(data@),
    ensures
        r == descender_of(data@),
{
    match owned_ttf_parser::Face::parse(data, 0) {
        Ok(f) => f.descender(),
        Err(_) => 0,
    }
}

/// Relies on `ttf_parser::Face::capital_height`.
#[verifier::external_body]
fn cap_height_raw(data: &Vec<u8>) -> (r: Option<i16>)
    requires
        ttf_parses(data@),
    ensures
        r == cap_height_raw_of(data@),
{
    match owned_ttf_parser::Face::parse(data, 0) {
        Ok(f) => f.capital_height(),
        Err(_) => None,
    }
}

/// Relies on `ttf_parser::Face::global_bounding_box`.
#[verifier::external_body]
fn bbox_raw(data: &Vec<u8>) -> (r: (i16, i16, i16, i16))
    requires
        ttf_parses(data@),
    ensures
        r == bbox_raw_of(data@),
{
    match owned_ttf_parser::Face::parse(data, 0) {
        Ok(f) => {
            let b = f.global_bounding_box();
            (b.x_min, b.y_min, b.x_max, b.y_max)
        },
        Err(_) => (0, 0, 0, 0),
    }
}

/// Relies on `ttf_parser::Face::italic_angle`, truncated to whole degrees
/// and clamped to -360..=360.
#[verifier::external_body]
fn italic_angle_raw(data: &Vec<u8>) -> (r: i64)
    requires
        ttf_parses(data@),
    ensures
        r == italic_angle_deg_of(data@),
        -360 <= r <= 360,
{
    match owned_ttf_parser::Face::parse(data, 0) {
        Ok(f) => {
            let a = f.italic_angle() as i64;
            a.clamp(-360, 360)
        },
        Err(_) => 0,
    }
}

/// Relies on `ttf_parser::Face::glyph_hor_advance`.
#[verifier::external_body]
fn glyph_advance_raw(data: &Vec<u8>, gid: u16) -> (r: Option<u16>)
    requires
        ttf_parses(data@),
    ensures
        r == glyph_advance_of(data@, gid),
{
    match owned_ttf_parser::Face::parse(data, 0) {
        Ok(f) => f.glyph_hor_advance(owned_ttf_parser::GlyphId(gid)),
        Err(_) => None,
    }
}

/// Relies on `ttf_parser::Face::number_of_glyphs`.
#[verifier::external_body]
fn glyph_count_raw(data: &Vec<u8>) -> (r: u16)
    requires
        ttf_parses(data@),
    ensures
        r == glyph_count_of(data@),
{
    match owned_ttf_parser::Face::parse(data, 0) {
        Ok(f) => f.number_of_glyphs(),
        Err(_) => 0,
    }
}

/// Relies on `rustybuzz::shape` in horizontal left-to-right mode with no
/// extra features: the run depends on the face bytes and the text alone
/// (segment properties are guessed from the text and no locale is read),
/// and an empty run comes back for a face `rustybuzz` cannot reopen.
/// Shaping an empty buffer yields no glyphs.
#[verifier::external_body]
fn shape_raw(data: &Vec<u8>, text: &str) -> (r: Vec<(u16, i32, i32, i32, i32)>)
    requires
        ttf_parses(data@),
    ensures
        r@ == shaped_run_of(data@, text@),
        text@.len() == 0 ==> r@.len() == 0,
{
    let face = match rustybuzz::Face::from_slice(data, 0) {
        Some(f) => f,
        None => return Vec::new(),
    };
    let mut buffer = rustybuzz::UnicodeBuffer::new();
    buffer.push_str(text);
    let out = rustybuzz::shape(&face, &[], buffer);
    out.glyph_infos().iter().zip(out.glyph_positions().iter()).map(
        |(i, p)| (i.glyph_id as u16, p.x_advance, p.y_advance, p.x_offset, p.y_offset),
    ).collect()
}

/// A shaped glyph: its id and its advances and offsets scaled to
/// fixed-point user space at the requested size.
pub struct ShapedGlyph {
    pub glyph_id: u16,
    pub x_advance: i64,
    pub y_advance: i64,
    pub x_offset: i64,
    pub y_offset: i64,
}

/// Truncating scale of a raw font-unit value to fixed-point: the sign is
/// carried separately so rounding is always toward zero.
pub open spec fn scaled_val(v: int, size: int, upem: u16) -> int {
    if v >= 0 {
        fx_clamp(v * size / upem as int)
    } else {
        -fx_clamp((-v) * size / upem as int)
    }
}

/// The scaled form of one raw shaped glyph.
pub open spec fn scaled_glyph(raw: (u16, i32, i32, i32, i32), size: int, upem: u16) -> ShapedGlyph {
    ShapedGlyph {
        glyph_id: raw.0,
        x_advance: scaled_val(raw.1 as int, size, upem) as i64,
        y_advance: scaled_val(raw.2 as int, size, upem) as i64,
        x_offset: scaled_val(raw.3 as int, size, upem) as i64,
        y_offset: scaled_val(raw.4 as int, size, upem) as i64,
    }
}

/// The scaled run for a text at a size.
pub open spec fn shaped_glyphs_of(data: Seq<u8>, text: Seq<char>, size: int) -> Seq<ShapedGlyph> {
    shaped_run_of(data, text).map(|i: int, raw: (u16, i32, i32, i32, i32)| scaled_glyph(raw, size, upem_of(data)))
}

fn scale_i32(v: i32, size: i64, upem: u16) -> (r: i64)
    requires
        fx_ok(size as int),
        0 <= size,
        upem >= 1,
    ensures
        r == scaled_val(v as int, size as int, upem),
        fx_ok(r as int),
{
    if v >= 0 {
        fx_scale_metric(v as i64, size, upem)
    } else {
        let a = fx_scale_metric(-(v as i64), size, upem);
        -a
    }
}

/// The hmtx advance of a glyph, zero when the table lacks one.
pub open spec fn glyph_width_or0(data: Seq<u8>, gid: u16) -> int {
    match glyph_advance_of(data, gid) {
        Some(w) => w as int,
        None => 0,
    }
}

/// Measured width of a shaped run: the sum of raw hmtx advances of its
/// glyph ids, each scaled to the size, accumulated with saturation. This
/// deliberately ignores the shaper's positional adjustments so that
/// measurement matches the plain `Tj` rendering path.
pub open spec fn measure_sum(
    data: Seq<u8>,
    run: Seq<(u16, i32, i32, i32, i32)>,
    size: int,
    upem: u16,
) -> int
    decreases run.len(),
{
    if run.len() == 0 {
        0
    } else {
        fx_clamp(
            measure_sum(data, run.drop_last(), size, upem) + fx_clamp(
                glyph_width_or0(data, run.last().0) * size / upem as int,
            ),
        )
    }
}

/// The measured width of a text at a size, over the shaped run.
pub open spec fn measure_of(data: Seq<u8>, text: Seq<char>, size: int) -> int {
    measure_sum(data, shaped_run_of(data, text), size, upem_of(data))
}

proof fn lemma_measure_sum_nonneg(
    data: Seq<u8>,
    run: Seq<(u16, i32, i32, i32, i32)>,
    size: int,
    upem: u16,
)
    requires
        0 <= size,
        1 <= upem,
    ensures
        0 <= measure_sum(data, run, size, upem) <= crate::fx::FX_MAX,
    decreases run.len(),
{
    if run.len() > 0 {
        lemma_measure_sum_nonneg(data, run.drop_last(), size, upem);
        let w = glyph_width_or0(data, run.last().0);
        assert(0 <= w) by {
            match glyph_advance_of(data, run.last().0) {
                Some(_) => {},
                None => {},
            }
        }
        assert(0 <= w * size) by (nonlinear_arith)
            requires
                0 <= w,
                0 <= size,
        ;
        assert(0 <= w * size / upem as int) by (nonlinear_arith)
            requires
                0 <= w * size,
                upem as int >= 1,
        ;
    }
}

/// A loaded font: the raw TrueType bytes, a display name, and a cache of
/// raw shaped runs keyed by text.
pub struct Font {
    pub data: Vec<u8>,
    pub name: String,
    pub cache: Vec<(Vec<char>, Vec<(u16, i32, i32, i32, i32)>)>,
}

impl Font {
    /// Every cached run is exactly what shaping its text yields, and an
    /// empty text caches an empty run.
    pub open spec fn cache_ok(&self) -> bool {
        forall|k: int|
            0 <= k < self.cache@.len() ==> (#[trigger] self.cache@[k]).1@ == shaped_run_of(
                self.data@,
                self.cache@[k].0@,
            ) && (self.cache@[k].0@.len() == 0 ==> self.cache@[k].1@.len() == 0)
    }

    /// The font parsed and its cache is sound.
    pub open spec fn wf(&self) -> bool {
        &&& ttf_parses(self.data@)
        &&& self.cache_ok()
    }

    /// Load a font from bytes. Fails exactly when the face cannot be
    /// opened.
    pub fn from_bytes(data: Vec<u8>, name: String) -> (r: Result<Font, ()>)
        ensures
            r is Ok <==> ttf_parses(data@),
            r is Ok ==> r->Ok_0.wf() && r->Ok_0.data@ == data@ && r->Ok_0.name@ == name@
                && r->Ok_0.cache@.len() == 0,
    {
        if ttf_check(&data) {
            Ok(Font { data, name, cache: Vec::new() })
        } else {
            Err(())
        }
    }

    /// The font's display name.
    pub fn get_name(&self) -> (r: &String)
        ensures
            r@ == self.name@,
    {
        &self.name
    }

    /// Units per em of the face.
    pub fn units_per_em(&self) -> (r: u16)
        requires
            self.wf(),
        ensures
            r == upem_of(self.data@),
            16 <= r <= 16384,
    {
        upem_raw(&self.data)
    }

    /// The raw face bytes, for embedding.
    pub fn get_font_data(&self) -> (r: &Vec<u8>)
        ensures
            r@ == self.data@,
    {
        &self.data
    }

    /// Number of glyphs in the face.
    pub fn number_of_glyphs(&self) -> (r: u16)
        requires
            self.wf(),
        ensures
            r == glyph_count_of(self.data@),
    {
        glyph_count_raw(&self.data)
    }

    /// The hmtx advance of a glyph in font units, zero when absent.
    pub fn get_glyph_width(&self, gid: u16) -> (r: u16)
        requires
            self.wf(),
        ensures
            r as int == glyph_width_or0(self.data@, gid),
    {
        match glyph_advance_raw(&self.data, gid) {
            Some(w) => w,
            None => 0,
        }
    }

    /// Shape a text at a fixed-point size: the cached raw run scaled by
    /// `size / units_per_em`.
    pub fn shape_text(&mut self, text: &str, size: i64) -> (r: Vec<ShapedGlyph>)
        requires
            old(self).wf(),
            fx_ok(size as int),
            0 <= size,
        ensures
            final(self).wf(),
            final(self).data@ == old(self).data@,
            final(self).name@ == old(self).name@,
            r@ == shaped_glyphs_of(old(self).data@, text@, size as int),
            text@.len() == 0 ==> r@.len() == 0,
    {
        let upem = upem_raw(&self.data);
        let chars = crate::chars::str_to_chars(text);
        let raw_idx: usize = match find_cached(&self.cache, &chars) {
            Some(j) => j,
            None => {
                let raw = shape_raw(&self.data, text);
                self.cache.push((chars, raw));
                self.cache.len() - 1
            },
        };
        let raw = &self.cache[raw_idx].1;
        proof {
            assert(raw@ == shaped_run_of(self.data@, text@));
        }
        let mut out: Vec<ShapedGlyph> = Vec::new();
        let mut i: usize = 0;
        while i < raw.len()
            invariant
                0 <= i <= raw@.len(),
                raw@ == shaped_run_of(old(self).data@, text@),
                fx_ok(size as int),
                0 <= size,
                upem >= 1,
                upem == upem_of(old(self).data@),
                out@ == shaped_glyphs_of(old(self).data@, text@, size as int).subrange(
                    0,
                    i as int,
                ),
            decreases raw@.len() - i,
        {
            let g = raw[i];
            out.push(
                ShapedGlyph {
                    glyph_id: g.0,
                    x_advance: scale_i32(g.1, size, upem),
                    y_advance: scale_i32(g.2, size, upem),
                    x_offset: scale_i32(g.3, size, upem),
                    y_offset: scale_i32(g.4, size, upem),
                },
            );
            proof {
                assert(out@ =~= shaped_glyphs_of(old(self).data@, text@, size as int).subrange(
                    0,
                    i + 1,
                ));
            }
            i = i + 1;
        }
        proof {
            let full = shaped_glyphs_of(old(self).data@, text@, size as int);
            assert(out@ =~= full.subrange(0, full.len() as int));
            assert(full.subrange(0, full.len() as int) =~= full);
        }
        out
    }

    /// The measured width of a text at a size: summed hmtx advances of the
    /// shaped glyphs, scaled, ignoring kerning.
    pub fn measure_text(&mut self, text: &str, size: i64) -> (r: i64)
        requires
            old(self).wf(),
            fx_ok(size as int),
            0 <= size,
        ensures
            final(self).wf(),
            final(self).data@ == old(self).data@,
            final(self).name@ == old(self).name@,
            r == measure_of(old(self).data@, text@, size as int),
            0 <= r,
            fx_ok(r as int),
            text@.len() == 0 ==> r == 0,
    {
        let upem = upem_raw(&self.data);
        let glyphs = self.shape_text(text, size);
        let ghost run = shaped_run_of(old(self).data@, text@);
        let mut total: i64 = 0;
        let mut i: usize = 0;
        proof {
            lemma_measure_sum_nonneg(old(self).data@, run.subrange(0, 0), size as int, upem);
        }
        while i < glyphs.len()
            invariant
                0 <= i <= glyphs@.len(),
                glyphs@.len() == run.len(),
                forall|k: int| 0 <= k < run.len() ==> (#[trigger] glyphs@[k]).glyph_id == run[k].0,
                self.wf(),
                self.data@ == old(self).data@,
                self.name@ == old(self).name@,
                fx_ok(size as int),
                0 <= size,
                upem >= 1,
                upem == upem_of(old(self).data@),
                total == measure_sum(old(self).data@, run.subrange(0, i as int), size as int, upem),
                0 <= total <= crate::fx::FX_MAX,
            decreases glyphs@.len() - i,
        {
            let w = self.get_glyph_width(glyphs[i].glyph_id);
            let scaled = fx_scale_metric(w as i64, size, upem);
            total = fx_add(total, scaled);
            proof {
                let pre = run.subrange(0, i as int);
                let cur = run.subrange(0, i + 1);
                assert(cur.drop_last() =~= pre);
                assert(cur.last() == run[i as int]);
                lemma_measure_sum_nonneg(old(self).data@, cur, size as int, upem);
            }
            i = i + 1;
        }
        proof {
            assert(run.subrange(0, run.len() as int) =~= run);
        }
        total
    }

    /// Ascender scaled to the 1000-unit glyph space, truncating.
    pub fn ascent(&self) -> (r: i64)
        requires
            self.wf(),
        ensures
            r == scale1000(ascender_of(self.data@) as int, upem_of(self.data@)),
            -33_000_000 <= r <= 33_000_000,
    {
        let a = ascender_raw(&self.data);
        let upem = upem_raw(&self.data);
        scale1000_exec(a, upem)
    }

    /// Descender scaled to the 1000-unit glyph space, truncating.
    pub fn descent(&self) -> (r: i64)
        requires
            self.wf(),
        ensures
            r == scale1000(descender_of(self.data@) as int, upem_of(self.data@)),
            -33_000_000 <= r <= 33_000_000,
    {
        let d = descender_raw(&self.data);
        let upem = upem_raw(&self.data);
        scale1000_exec(d, upem)
    }

    /// Capital height scaled to the 1000-unit glyph space; a face without
    /// the table gets 70% of the ascent.
    pub fn cap_height(&self) -> (r: i64)
        requires
            self.wf(),
        ensures
            r == cap_height1000_of(self.data@),
            -1_000_000_000_000 <= r <= 1_000_000_000_000,
    {
        match cap_height_raw(&self.data) {
            Some(c) => {
                let upem = upem_raw(&self.data);
                scale1000_exec(c, upem)
            },
            None => {
                let a = self.ascent();
                tdiv_exec(a, 70, 100)
            },
        }
    }

    /// Bounding box scaled to the 1000-unit glyph space, truncating.
    pub fn bbox(&self) -> (r: (i64, i64, i64, i64))
        requires
            self.wf(),
        ensures
            r == bbox1000_of(self.data@),
            -33_000_000 <= r.0 <= 33_000_000,
            -33_000_000 <= r.1 <= 33_000_000,
            -33_000_000 <= r.2 <= 33_000_000,
            -33_000_000 <= r.3 <= 33_000_000,
    {
        let b = bbox_raw(&self.data);
        let upem = upem_raw(&self.data);
        (
            scale1000_exec(b.0, upem),
            scale1000_exec(b.1, upem),
            scale1000_exec(b.2, upem),
            scale1000_exec(b.3, upem),
        )
    }

    /// Italic angle in whole degrees.
    pub fn italic_angle(&self) -> (r: i64)
        requires
            self.wf(),
        ensures
            r == italic_angle_deg_of(self.data@),
            -360 <= r <= 360,
    {
        italic_angle_raw(&self.data)
    }

    /// One glyph's hmtx advance scaled to the 1000-unit glyph space,
    /// truncating.
    pub fn glyph_width_1000(&self, gid: u16) -> (r: i64)
        requires
            self.wf(),
        ensures
            r == scale1000(glyph_width_or0(self.data@, gid), upem_of(self.data@)),
            0 <= r <= 66_000_000,
    {
        let w = self.get_glyph_width(gid);
        let upem = upem_raw(&self.data);
        let num = (w as i64) * 1000;
        proof {
            assert(0 <= (w as int) * 1000 / (upem as int) <= num) by (nonlinear_arith)
                requires
                    0 <= num,
                    num == (w as int) * 1000,
                    1 <= upem as int,
            ;
        }
        num / (upem as i64)
    }
}

/// Find a cached run for this exact text.
fn find_cached(cache: &Vec<(Vec<char>, Vec<(u16, i32, i32, i32, i32)>)>, chars: &Vec<char>) -> (r:
    Option<usize>)
    ensures
        r matches Some(j) ==> 0 <= j < cache@.len() && cache@[j as int].0@ == chars@,
{
    let mut k: usize = 0;
    while k < cache.len()
        invariant
            0 <= k <= cache@.len(),
        decreases cache@.len() - k,
    {
        if eq_chars(&cache[k].0, chars) {
            return Some(k);
        }
        k = k + 1;
    }
    None
}

/// Compare two character vectors.
fn eq_chars(a: &Vec<char>, b: &Vec<char>) -> (r: bool)
    ensures
        r == (a@ == b@),
{
    if a.len() != b.len() {
        proof {
            assert(a@.len() != b@.len());
        }
        return false;
    }
    let mut i: usize = 0;
    while i < a.len()
        invariant
            0 <= i <= a@.len(),
            a@.len() == b@.len(),
            forall|k: int| 0 <= k < i ==> a@[k] == b@[k],
        decreases a@.len() - i,
    {
        if a[i] != b[i] {
            return false;
        }
        i = i + 1;
    }
    proof {
        assert(a@ =~= b@);
    }
    true
}

/// Truncating division of `a * 1000 / upem`, rounding toward zero.
pub open spec fn scale1000(a: int, upem: u16) -> int {
    if a >= 0 {
        a * 1000 / upem as int
    } else {
        -((-a) * 1000 / upem as int)
    }
}

/// The capital height in 1000-unit space: from the face's table when it has
/// one, else 70% of the scaled ascent, truncating toward zero.
pub open spec fn cap_height1000_of(data: Seq<u8>) -> int {
    match cap_height_raw_of(data) {
        Some(c) => scale1000(c as int, upem_of(data)),
        None => tdiv(scale1000(ascender_of(data) as int, upem_of(data)) * 70, 100int),
    }
}

/// The bounding box in 1000-unit space.
pub open spec fn bbox1000_of(data: Seq<u8>) -> (i64, i64, i64, i64) {
    let b = bbox_raw_of(data);
    let u = upem_of(data);
    (
        scale1000(b.0 as int, u) as i64,
        scale1000(b.1 as int, u) as i64,
        scale1000(b.2 as int, u) as i64,
        scale1000(b.3 as int, u) as i64,
    )
}

/// Division truncating toward zero.
pub open spec fn tdiv(a: int, b: int) -> int
    recommends
        b > 0,
{
    if a >= 0 {
        a / b
    } else {
        -((-a) / b)
    }
}

fn scale1000_exec(a: i16, upem: u16) -> (r: i64)
    requires
        upem >= 1,
    ensures
        r == scale1000(a as int, upem),
        -33_000_000 <= r <= 33_000_000,
{
    if a >= 0 {
        let num = (a as i64) * 1000;
        proof {
            assert(0 <= (a as int) * 1000 / (upem as int) <= num) by (nonlinear_arith)
                requires
                    0 <= num,
                    num == (a as int) * 1000,
                    1 <= upem as int,
            ;
        }
        num / (upem as i64)
    } else {
        let num = (-(a as i64)) * 1000;
        proof {
            assert(0 <= (-(a as int)) * 1000 / (upem as int) <= num) by (nonlinear_arith)
                requires
                    0 <= num,
                    num == (-(a as int)) * 1000,
                    1 <= upem as int,
            ;
        }
        let p = num / (upem as i64);
        -p
    }
}

fn tdiv_exec(a: i64, n: i64, d: i64) -> (r: i64)
    requires
        -1_000_000_000 <= a <= 1_000_000_000,
        0 <= n <= 1000,
        1 <= d <= 1000,
    ensures
        r == tdiv(a * n, d as int),
        -1_000_000_000_000 <= r <= 1_000_000_000_000,
{
    proof {
        assert((-a) * n == -(a * n)) by (nonlinear_arith);
    }
    if a >= 0 {
        proof {
            assert(0 <= a * n <= 1_000_000_000_000) by (nonlinear_arith)
                requires
                    0 <= a <= 1_000_000_000,
                    0 <= n <= 1000,
            ;
            assert(0 <= a * n / (d as int) <= a * n) by (nonlinear_arith)
                requires
                    0 <= a * n,
                    1 <= d as int,
            ;
        }
        (a * n) / d
    } else {
        proof {
            assert(0 <= (-a) * n <= 1_000_000_000_000) by (nonlinear_arith)
                requires
                    0 <= -a <= 1_000_000_000,
                    0 <= n <= 1000,
            ;
            assert(0 <= (-a) * n / (d as int) <= (-a) * n) by (nonlinear_arith)
                requires
                    0 <= (-a) * n,
                    1 <= d as int,
            ;
        }
        let p = ((-a) * n) / d;
        -p
    }
}

/// The set of glyph ids referenced on a page for one font, driving the
/// subsetter and the widths array.
pub struct GlyphUsage {
    used_gids: Vec<u16>,
}

impl View for GlyphUsage {
    type V = Set<u16>;

    closed spec fn view(&self) -> Set<u16> {
        self.used_gids@.to_set()
    }
}

impl GlyphUsage {
    /// The backing list holds each id once.
    pub closed spec fn wf(&self) -> bool {
        self.used_gids@.no_duplicates()
    }

    /// The ids as a list, without duplicates.
    pub closed spec fn gid_list(&self) -> Seq<u16> {
        self.used_gids@
    }

    /// An empty usage set.
    pub fn new() -> (r: GlyphUsage)
        ensures
            r.wf(),
            r@ == Set::<u16>::empty(),
            r@.finite(),
            r@.len() == 0,
    {
        let r = GlyphUsage { used_gids: Vec::new() };
        proof {
            broadcast use vstd::set::group_set_axioms;
            assert(r.used_gids@.to_set() =~= Set::<u16>::empty());
        }
        r
    }

    /// Record a glyph id as used.
    pub fn mark_used(&mut self, gid: u16)
        requires
            old(self).wf(),
        ensures
            final(self).wf(),
            final(self)@ == old(self)@.insert(gid),
            final(self)@.finite(),
            final(self)@.len() == old(self)@.len() + (if old(self)@.contains(gid) {
                0int
            } else {
                1
            }),
    {
        let mut i: usize = 0;
        while i < self.used_gids.len()
            invariant
                0 <= i <= self.used_gids@.len(),
                forall|k: int| 0 <= k < i ==> self.used_gids@[k] != gid,
                self.used_gids == old(self).used_gids,
                self.wf(),
            decreases self.used_gids@.len() - i,
        {
            if self.used_gids[i] == gid {
                proof {
                    broadcast use vstd::set::group_set_axioms;
                    assert(self.used_gids@.contains(gid));
                    assert(self.used_gids@.to_set().contains(gid));
                    assert(old(self)@.insert(gid) =~= old(self)@);
                }
                return ;
            }
            i = i + 1;
        }
        proof {
            assert(!self.used_gids@.contains(gid));
        }
        let ghost pre = self.used_gids@;
        self.used_gids.push(gid);
        proof {
            broadcast use vstd::set::group_set_axioms;
            assert forall|y: u16| self.used_gids@.contains(y) <==> (pre.contains(y) || y == gid) by {
                assert(self.used_gids@[pre.len() as int] == gid);
                if pre.contains(y) {
                    let j = choose|j: int| 0 <= j < pre.len() && pre[j] == y;
                    assert(self.used_gids@[j] == y);
                }
                if self.used_gids@.contains(y) {
                    let j = choose|j: int|
                        0 <= j < self.used_gids@.len() && self.used_gids@[j] == y;
                    if j < pre.len() {
                        assert(pre[j] == y);
                    }
                }
            }
            assert(self.used_gids@.to_set() =~= old(self)@.insert(gid));
            assert forall|i: int, j: int|
                0 <= i < self.used_gids@.len() && 0 <= j < self.used_gids@.len() && i != j
                implies self.used_gids@[i] != self.used_gids@[j] by {
                if i < pre.len() && j < pre.len() {
                } else if j == pre.len() as int {
                    assert(self.used_gids@[j] == gid);
                    assert(pre[i] == self.used_gids@[i]);
                } else {
                    assert(self.used_gids@[i] == gid);
                    assert(pre[j] == self.used_gids@[j]);
                }
            }
            assert(self.used_gids@.no_duplicates());
        }
    }

    /// Whether a glyph id was recorded.
    pub fn is_used(&self, gid: u16) -> (r: bool)
        ensures
            r == self@.contains(gid),
    {
        let mut i: usize = 0;
        while i < self.used_gids.len()
            invariant
                0 <= i <= self.used_gids@.len(),
                forall|k: int| 0 <= k < i ==> self.used_gids@[k] != gid,
            decreases self.used_gids@.len() - i,
        {
            if self.used_gids[i] == gid {
                proof {
                    broadcast use vstd::set::group_set_axioms;
                    assert(self.used_gids@.contains(gid));
                }
                return true;
            }
            i = i + 1;
        }
        proof {
            broadcast use vstd::set::group_set_axioms;
            assert(!self.used_gids@.contains(gid));
        }
        false
    }

    /// How many distinct glyph ids were recorded.
    pub fn count(&self) -> (r: usize)
        requires
            self.wf(),
        ensures
            r == self@.len(),
    {
        proof {
            self.used_gids@.unique_seq_to_set();
        }
        self.used_gids.len()
    }

    /// The recorded ids in ascending order.
    pub fn sorted_gids(&self) -> (r: Vec<u16>)
        requires
            self.wf(),
        ensures
            r@.to_set() == self@,
            r@.no_duplicates(),
            forall|i: int, j: int| 0 <= i < j < r@.len() ==> r@[i] < r@[j],
    {
        let mut r = clone_gids(&self.used_gids);
        sort_gids(&mut r);
        proof {
            self.used_gids@.lemma_multiset_has_no_duplicates();
            r@.lemma_multiset_has_no_duplicates_conv();
            lemma_same_multiset_same_set(r@, self.used_gids@);
            assert forall|i: int, j: int| 0 <= i < j < r@.len() implies r@[i] < r@[j] by {
                assert(r@[i] <= r@[j]);
                if r@[i] == r@[j] {
                    assert(!r@.no_duplicates());
                }
            }
        }
        r
    }

    /// The union of two usage sets.
    pub fn union_with(&mut self, other: &GlyphUsage)
        requires
            old(self).wf(),
            other.wf(),
        ensures
            final(self).wf(),
            final(self)@ == old(self)@.union(other@),
    {
        let mut i: usize = 0;
        while i < other.used_gids.len()
            invariant
                0 <= i <= other.used_gids@.len(),
                self.wf(),
                self@ == old(self)@.union(other.used_gids@.subrange(0, i as int).to_set()),
            decreases other.used_gids@.len() - i,
        {
            self.mark_used(other.used_gids[i]);
            proof {
                broadcast use vstd::set::group_set_axioms;
                let pre = other.used_gids@.subrange(0, i as int);
                let cur = other.used_gids@.subrange(0, i + 1);
                let g = other.used_gids@[i as int];
                assert forall|y: u16| cur.contains(y) <==> (pre.contains(y) || y == g) by {
                    assert(cur[pre.len() as int] == g);
                    if pre.contains(y) {
                        let j = choose|j: int| 0 <= j < pre.len() && pre[j] == y;
                        assert(cur[j] == y);
                    }
                    if cur.contains(y) {
                        let j = choose|j: int| 0 <= j < cur.len() && cur[j] == y;
                        if j < pre.len() {
                            assert(pre[j] == y);
                        }
                    }
                }
                assert(cur.to_set() =~= pre.to_set().insert(g));
                assert(self@ =~= old(self)@.union(cur.to_set()));
            }
            i = i + 1;
        }
        proof {
            assert(other.used_gids@.subrange(0, other.used_gids@.len() as int)
                =~= other.used_gids@);
        }
    }
}

fn clone_gids(v: &Vec<u16>) -> (r: Vec<u16>)
    ensures
        r@ == v@,
{
    let mut r: Vec<u16> = Vec::new();
    let mut i: usize = 0;
    while i < v.len()
        invariant
            0 <= i <= v@.len(),
            r@ == v@.subrange(0, i as int),
        decreases v@.len() - i,
    {
        r.push(v[i]);
        proof {
            assert(r@ =~= v@.subrange(0, i + 1));
        }
        i = i + 1;
    }
    proof {
        assert(r@ =~= v@);
    }
    r
}

/// Sort glyph ids ascending, keeping exactly the same elements.
fn sort_gids(v: &mut Vec<u16>)
    ensures
        final(v)@.len() == old(v)@.len(),
        final(v)@.to_multiset() == old(v)@.to_multiset(),
        forall|i: int, j: int| 0 <= i < j < final(v)@.len() ==> final(v)@[i] <= final(v)@[j],
{
    broadcast use vstd::seq_lib::group_to_multiset_ensures;
    broadcast use vstd::multiset::group_multiset_axioms;

    let ghost orig = v@;
    let mut src: Vec<u16> = Vec::new();
    core::mem::swap(&mut src, v);
    while src.len() > 0
        invariant
            v@.to_multiset().add(src@.to_multiset()) =~= orig.to_multiset(),
            v@.len() + src@.len() == orig.len(),
            forall|i: int, j: int| 0 <= i < j < v@.len() ==> v@[i] <= v@[j],
            forall|i: int, j: int|
                0 <= i < v@.len() && 0 <= j < src@.len() ==> (#[trigger] v@[i]) <= (
                #[trigger] src@[j]),
        decreases src@.len(),
    {
        let mut m: usize = 0;
        let mut i: usize = 1;
        while i < src.len()
            invariant
                0 <= m < i <= src@.len(),
                src@.len() > 0,
                forall|k: int| 0 <= k < i ==> src@[m as int] <= (#[trigger] src@[k]),
            decreases src@.len() - i,
        {
            if src[i] < src[m] {
                m = i;
            }
            i = i + 1;
        }
        let ghost src0 = src@;
        let ghost v0 = v@;
        let x = src.remove(m);
        v.push(x);
        proof {
            vstd::seq_lib::to_multiset_remove(src0, m as int);
            vstd::seq_lib::to_multiset_build(v0, x);
            assert(src0[m as int] == x);
            assert(src0.contains(x));
            vstd::seq_lib::to_multiset_contains(src0, x);
            assert forall|y: u16| v@.to_multiset().add(src@.to_multiset()).count(y)
                == orig.to_multiset().count(y) by {
                assert(v0.to_multiset().add(src0.to_multiset()).count(y) == orig.to_multiset().count(
                    y,
                ));
            }
            assert(v@.to_multiset().add(src@.to_multiset()) =~= orig.to_multiset());
        }
    }
    proof {
        assert(src@.to_multiset() =~= Multiset::<u16>::empty());
        assert(v@.to_multiset() =~= orig.to_multiset());
    }
}

/// Two lists with the same multiset hold the same set of values.
proof fn lemma_same_multiset_same_set(a: Seq<u16>, b: Seq<u16>)
    requires
        a.to_multiset() == b.to_multiset(),
    ensures
        a.to_set() == b.to_set(),
{
    broadcast use vstd::seq_lib::group_to_multiset_ensures;

    assert forall|y: u16| a.to_set().contains(y) <==> b.to_set().contains(y) by {
        assert(a.contains(y) <==> a.to_multiset().count(y) > 0);
        assert(b.contains(y) <==> b.to_multiset().count(y) > 0);
    }
    assert(a.to_set() =~= b.to_set());
}

} // verus!
