//! Checks of the usage tracker and the glyph cache.
use ai_pdf_writer::font::GlyphUsage;
use ai_pdf_writer::glyph_cache::GlyphCache;

#[test]
fn glyph_usage_tracks_distinct_ids() {
    let mut u = GlyphUsage::new();
    assert_eq!(u.count(), 0);
    u.mark_used(5);
    u.mark_used(9);
    u.mark_used(5);
    assert_eq!(u.count(), 2);
    assert!(u.is_used(5));
    assert!(u.is_used(9));
    assert!(!u.is_used(6));
    assert_eq!(u.sorted_gids(), vec![5, 9]);
}

#[test]
fn test_cache_hit() {
    // First call should miss and shape; a second identical call should hit
    // the cache. Exercising a real shape needs a face, so here the cache
    // bookkeeping alone is checked.
    let mut cache = GlyphCache::new();
    let (entries, memory) = cache.stats();
    assert_eq!(entries, 0);
    assert_eq!(memory, 0);
    cache.clear();
    assert_eq!(cache.stats().0, 0);
}
