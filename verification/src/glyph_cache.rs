//! A shaping cache shared across fonts: runs are keyed by text, font index
//! and quantized size, so repeated text never reshapes.
use vstd::prelude::*;
use crate::font::{Font, ShapedGlyph, shaped_glyphs_of};
use crate::fx::fx_ok;
use crate::chars::str_to_chars;

verus! {

/// One cached run: its text, font index, quantized size key, and glyphs.
pub struct CacheEntry {
    pub text: Vec<char>,
    pub font_index: usize,
    pub size: i64,
    pub glyphs: Vec<ShapedGlyph>,
}

/// A cache of shaped runs.
pub struct GlyphCache {
    pub entries: Vec<CacheEntry>,
}

impl GlyphCache {
    /// Every entry holds exactly the run shaping its text at its size
    /// yields with the given face.
    pub open spec fn wf_for(&self, data: Seq<u8>) -> bool {
        forall|k: int|
            0 <= k < self.entries@.len() ==> (#[trigger] self.entries@[k]).glyphs@
                == shaped_glyphs_of(data, self.entries@[k].text@, self.entries@[k].size as int)
    }

    /// An empty cache.
    pub fn new() -> (r: GlyphCache)
        ensures
            r.entries@.len() == 0,
            forall|data: Seq<u8>| r.wf_for(data),
    {
        GlyphCache { entries: Vec::new() }
    }

    /// The shaped run for a text: from the cache when it is there, shaped
    /// and remembered otherwise. The result is exactly what shaping yields.
    pub fn get_or_shape(&mut self, text: &str, font_index: usize, size: i64, font: &mut Font) -> (r:
        Vec<ShapedGlyph>)
        requires
            old(self).wf_for(old(font).data@),
            old(font).wf(),
            fx_ok(size as int),
            0 <= size,
        ensures
            final(self).wf_for(old(font).data@),
            final(font).wf(),
            final(font).data@ == old(font).data@,
            final(font).name@ == old(font).name@,
            r@ == shaped_glyphs_of(old(font).data@, text@, size as int),
            final(self).entries@ == old(self).entries@ || final(self).entries@ == old(
                self,
            ).entries@.push(final(self).entries@.last()),
    {
        let ghost data = font.data@;
        let tc = str_to_chars(text);
        let mut k: usize = 0;
        while k < self.entries.len()
            invariant
                0 <= k <= self.entries@.len(),
                self.wf_for(data),
                self.entries == old(self).entries,
                data == old(font).data@,
                font.wf(),
                font.data@ == data,
                font.name@ == old(font).name@,
                tc@ == text@,
            decreases self.entries@.len() - k,
        {
            if self.entries[k].font_index == font_index && self.entries[k].size == size
                && chars_eq(&self.entries[k].text, &tc) {
                let run = copy_glyphs(&self.entries[k].glyphs);
                return run;
            }
            k = k + 1;
        }
        let run = font.shape_text(text, size);
        let entry = CacheEntry {
            text: tc,
            font_index,
            size,
            glyphs: copy_glyphs(&run),
        };
        let ghost pre = self.entries@;
        self.entries.push(entry);
        proof {
            assert forall|j: int|
                0 <= j < self.entries@.len() implies (#[trigger] self.entries@[j]).glyphs@
                == shaped_glyphs_of(data, self.entries@[j].text@, self.entries@[j].size as int) by {
                if j < pre.len() {
                    assert(self.entries@[j] == pre[j]);
                }
            }
        }
        run
    }

    /// Drop every cached run.
    pub fn clear(&mut self)
        ensures
            final(self).entries@.len() == 0,
            forall|data: Seq<u8>| final(self).wf_for(data),
    {
        self.entries.clear();
    }

    /// Cache statistics: the entry count and an estimate of the bytes the
    /// cached glyph runs occupy, at forty bytes per glyph.
    pub fn stats(&self) -> (r: (usize, usize))
        ensures
            r.0 == self.entries@.len(),
    {
        let entries = self.entries.len();
        let mut memory: u64 = 0;
        let mut k: usize = 0;
        while k < self.entries.len()
            invariant
                0 <= k <= self.entries@.len(),
                memory <= 0x1_4000_0000_0000,
            decreases self.entries@.len() - k,
        {
            let n = self.entries[k].glyphs.len();
            if (n as u64) < 0xff_ffff && memory < 0xffff_ffff_ffff {
                memory = memory + (n as u64) * 40;
            }
            k = k + 1;
        }
        let mem_usize: usize = if memory > (usize::MAX as u64) {
            usize::MAX
        } else {
            memory as usize
        };
        (entries, mem_usize)
    }
}

fn chars_eq(a: &Vec<char>, b: &Vec<char>) -> (r: bool)
    ensures
        r == (a@ == b@),
{
    if a.len() != b.len() {
        proof {
            assert(a@.len() != b@.len());
        }
        return false;
    }
    let mut i: usize = 0;
    while i < a.len()
        invariant
            0 <= i <= a@.len(),
            a@.len() == b@.len(),
            forall|k: int| 0 <= k < i ==> a@[k] == b@[k],
        decreases a@.len() - i,
    {
        if a[i] != b[i] {
            return false;
        }
        i = i + 1;
    }
    proof {
        assert(a@ =~= b@);
    }
    true
}

/// Copy a glyph run.
pub fn copy_glyphs(v: &Vec<ShapedGlyph>) -> (r: Vec<ShapedGlyph>)
    ensures
        r@ == v@,
{
    let mut r: Vec<ShapedGlyph> = Vec::new();
    let mut i: usize = 0;
    while i < v.len()
        invariant
            0 <= i <= v@.len(),
            r@ == v@.subrange(0, i as int),
        decreases v@.len() - i,
    {
        let g = &v[i];
        r.push(
            ShapedGlyph {
                glyph_id: g.glyph_id,
                x_advance: g.x_advance,
                y_advance: g.y_advance,
                x_offset: g.x_offset,
                y_offset: g.y_offset,
            },
        );
        proof {
            assert(r@ =~= v@.subrange(0, i as int + 1));
        }
        i = i + 1;
    }
    proof {
        assert(r@ =~= v@);
    }
    r
}

} // verus!
