//! Word wrapping: splitting text into words, greedy line filling with a
//! character-level fallback for oversized words, line counting, and the
//! head/tail splitter that pagination uses.
//!
//! The exec functions mirror spec-level models of the same greedy
//! algorithms, stated over the measured width of the exact candidate line,
//! so their results are pinned completely.
use vstd::prelude::*;
use crate::font::{Font, measure_of};
use crate::fx::{fx_ok, FX_MAX};
use crate::chars::{str_to_chars, string_from_chars};

verus! {

/// The whitespace that separates words.
pub open spec fn is_space(c: char) -> bool {
    c == ' ' || c == '\t' || c == '\n' || c == '\r'
}

/// Length of the word at the head of `s`: the run of non-space characters.
pub open spec fn word_len(s: Seq<char>) -> nat
    decreases s.len(),
{
    if s.len() == 0 || is_space(s[0]) {
        0
    } else {
        1 + word_len(s.drop_first())
    }
}

/// The head word is never longer than the text.
pub proof fn lemma_word_len_le(s: Seq<char>)
    ensures
        word_len(s) <= s.len(),
    decreases s.len(),
{
    if s.len() > 0 && !is_space(s[0]) {
        lemma_word_len_le(s.drop_first());
    }
}

/// The words of a text: maximal runs of non-space characters, in order.
pub open spec fn words_of(s: Seq<char>) -> Seq<Seq<char>>
    decreases s.len(),
    via words_of_decreases
{
    if s.len() == 0 {
        Seq::empty()
    } else if is_space(s[0]) {
        words_of(s.drop_first())
    } else {
        seq![s.subrange(0, word_len(s) as int)] + words_of(s.skip(word_len(s) as int))
    }
}

#[via_fn]
proof fn words_of_decreases(s: Seq<char>) {
    if s.len() > 0 && !is_space(s[0]) {
        lemma_word_len_le(s);
    }
}

/// Words joined by single spaces.
pub open spec fn join_words(ws: Seq<Seq<char>>) -> Seq<char>
    decreases ws.len(),
{
    if ws.len() == 0 {
        Seq::empty()
    } else if ws.len() == 1 {
        ws[0]
    } else {
        join_words(ws.drop_last()) + seq![' '] + ws.last()
    }
}

/// The character-level fallback for a word wider than the line: characters
/// are appended while the candidate still fits; on overflow the current
/// chunk becomes a line and the character starts a new one.
pub open spec fn char_wrap(
    data: Seq<u8>,
    size: int,
    width: int,
    chars: Seq<char>,
    cur: Seq<char>,
) -> Seq<Seq<char>>
    decreases chars.len(),
{
    if chars.len() == 0 {
        if cur.len() == 0 {
            Seq::empty()
        } else {
            seq![cur]
        }
    } else {
        let c = chars[0];
        if measure_of(data, cur.push(c), size) <= width {
            char_wrap(data, size, width, chars.drop_first(), cur.push(c))
        } else if cur.len() == 0 {
            char_wrap(data, size, width, chars.drop_first(), seq![c])
        } else {
            seq![cur] + char_wrap(data, size, width, chars.drop_first(), seq![c])
        }
    }
}

/// Greedy word wrap with the character fallback. `cur` is the text of the
/// line being filled; each output line is the exact text later drawn.
pub open spec fn wrap_lines(
    data: Seq<u8>,
    size: int,
    width: int,
    words: Seq<Seq<char>>,
    cur: Seq<char>,
) -> Seq<Seq<char>>
    decreases words.len(),
{
    if words.len() == 0 {
        if cur.len() == 0 {
            Seq::empty()
        } else {
            seq![cur]
        }
    } else {
        let w = words[0];
        if measure_of(data, w, size) > width {
            let pre: Seq<Seq<char>> = if cur.len() == 0 {
                Seq::empty()
            } else {
                seq![cur]
            };
            pre + char_wrap(data, size, width, w, Seq::empty()) + wrap_lines(
                data,
                size,
                width,
                words.drop_first(),
                Seq::empty(),
            )
        } else {
            let cand = if cur.len() == 0 {
                w
            } else {
                cur + seq![' '] + w
            };
            if measure_of(data, cand, size) <= width {
                wrap_lines(data, size, width, words.drop_first(), cand)
            } else {
                seq![cur] + wrap_lines(data, size, width, words.drop_first(), w)
            }
        }
    }
}

/// The number of wrapped lines of a text, at least one.
pub open spec fn line_count_of(data: Seq<u8>, text: Seq<char>, size: int, width: int) -> nat {
    let n = wrap_lines(data, size, width, words_of(text), Seq::empty()).len();
    if n == 0 {
        1
    } else {
        n
    }
}

/// Split the words of `text`.
pub fn split_words(text: &str) -> (r: Vec<String>)
    ensures
        r@.map_values(|s: String| s@) == words_of(text@),
{
    let cs = str_to_chars(text);
    let mut out: Vec<String> = Vec::new();
    let mut i: usize = 0;
    proof {
        assert(cs@.skip(0) =~= cs@);
        assert(out@.map_values(|s: String| s@) + words_of(text@) =~= words_of(text@));
    }
    while i < cs.len()
        invariant
            0 <= i <= cs@.len(),
            cs@ == text@,
            words_of(text@) == out@.map_values(|s: String| s@) + words_of(cs@.skip(i as int)),
        decreases cs@.len() - i,
    {
        if is_space_exec(cs[i]) {
            proof {
                assert(cs@.skip(i as int)[0] == cs@[i as int]);
                assert(cs@.skip(i as int).drop_first() =~= cs@.skip(i + 1));
            }
            i = i + 1;
        } else {
            let ghost start = i as int;
            let mut w: Vec<char> = Vec::new();
            proof {
                assert(w@ =~= cs@.subrange(start, start));
            }
            while i < cs.len() && !(cs[i] == ' ' || cs[i] == '\t' || cs[i] == '\n' || cs[i]
                == '\r')
                invariant
                    0 <= start <= i <= cs@.len(),
                    cs@ == text@,
                    w@ == cs@.subrange(start, i as int),
                    forall|k: int| start <= k < i ==> !is_space(cs@[k]),
                decreases cs@.len() - i,
            {
                let ghost wpre = w@;
                w.push(cs[i]);
                proof {
                    assert(w@ == wpre.push(cs@[i as int]));
                    assert(w@.len() == i as int + 1 - start);
                    assert forall|k: int| 0 <= k < w@.len() implies w@[k] == cs@[start + k] by {
                        if k < i as int - start {
                            assert(wpre[k] == cs@.subrange(start, i as int)[k]);
                        }
                    }
                    assert(w@ =~= cs@.subrange(start, i as int + 1));
                }
                i = i + 1;
            }
            proof {
                lemma_word_len_exact(cs@.skip(start), i - start);
                assert(cs@.skip(start)[0] == cs@[start]);
                assert(cs@.skip(start).subrange(0, i - start) =~= cs@.subrange(start, i as int));
                assert(cs@.skip(start).skip(i - start) =~= cs@.skip(i as int));
            }
            let ws = string_from_chars(&w);
            out.push(ws);
            proof {
                assert(out@.map_values(|s: String| s@) =~= out@.map_values(
                    |s: String| s@,
                ).drop_last().push(w@));
                assert(words_of(text@) =~= out@.map_values(|s: String| s@) + words_of(
                    cs@.skip(i as int),
                ));
            }
        }
    }
    proof {
        assert(cs@.skip(cs@.len() as int) =~= Seq::<char>::empty());
        assert(out@.map_values(|s: String| s@) =~= words_of(text@));
    }
    out
}

fn is_space_exec(c: char) -> (r: bool)
    ensures
        r == is_space(c),
{
    c == ' ' || c == '\t' || c == '\n' || c == '\r'
}

/// If the first `n` characters are non-space and the next one (if any) is a
/// space, the head word has length exactly `n`.
proof fn lemma_word_len_exact(s: Seq<char>, n: int)
    requires
        0 <= n <= s.len(),
        forall|k: int| 0 <= k < n ==> !is_space(s[k]),
        n == s.len() || is_space(s[n]),
    ensures
        word_len(s) == n,
    decreases n,
{
    if n == 0 {
    } else {
        assert(!is_space(s[0]));
        lemma_word_len_exact(s.drop_first(), n - 1);
    }
}

/// Words produced by splitting are non-empty and hold no spaces.
pub proof fn lemma_words_wf(s: Seq<char>)
    ensures
        forall|k: int|
            0 <= k < words_of(s).len() ==> (#[trigger] words_of(s)[k]).len() > 0 && (forall|j: int|
                0 <= j < words_of(s)[k].len() ==> !is_space(words_of(s)[k][j])),
    decreases s.len(),
{
    if s.len() == 0 {
    } else if is_space(s[0]) {
        lemma_words_wf(s.drop_first());
        assert forall|k: int|
            0 <= k < words_of(s).len() implies (#[trigger] words_of(s)[k]).len() > 0 && (forall|
                j: int,
            | 0 <= j < words_of(s)[k].len() ==> !is_space(words_of(s)[k][j])) by {
            assert(words_of(s)[k] == words_of(s.drop_first())[k]);
        }
    } else {
        lemma_word_head_nonspace(s);
        let rest = words_of(s.skip(word_len(s) as int));
        lemma_words_wf(s.skip(word_len(s) as int));
        assert forall|k: int|
            0 <= k < words_of(s).len() implies (#[trigger] words_of(s)[k]).len() > 0 && (forall|
                j: int,
            | 0 <= j < words_of(s)[k].len() ==> !is_space(words_of(s)[k][j])) by {
            if k == 0 {
                assert(words_of(s)[0] == s.subrange(0, word_len(s) as int));
                assert forall|j: int| 0 <= j < words_of(s)[0].len() implies !is_space(
                    words_of(s)[0][j],
                ) by {
                    assert(words_of(s)[0][j] == s[j]);
                }
            } else {
                assert(words_of(s)[k] == rest[k - 1]);
            }
        }
    }
}

proof fn lemma_word_head_nonspace(s: Seq<char>)
    requires
        s.len() > 0,
        !is_space(s[0]),
    ensures
        word_len(s) >= 1,
        word_len(s) <= s.len(),
        forall|j: int| 0 <= j < word_len(s) ==> !is_space(s[j]),
    decreases s.len(),
{
    if s.len() > 1 && !is_space(s[1]) {
        lemma_word_head_nonspace(s.drop_first());
        assert forall|j: int| 0 <= j < word_len(s) implies !is_space(s[j]) by {
            if j > 0 {
                assert(!is_space(s.drop_first()[j - 1]));
            }
        }
    } else {
        assert(word_len(s.drop_first()) == 0);
    }
}

} // verus!

verus! {

/// Wrap a word list into lines: greedy fill, measuring the exact candidate
/// line, with the character fallback for words wider than the line.
pub fn wrap_text(font: &mut Font, words: &Vec<String>, width: i64, size: i64) -> (r: Vec<String>)
    requires
        old(font).wf(),
        fx_ok(width as int),
        fx_ok(size as int),
        0 <= size,
    ensures
        final(font).wf(),
        final(font).data@ == old(font).data@,
        final(font).name@ == old(font).name@,
        r@.map_values(|s: String| s@) == wrap_lines(
            old(font).data@,
            size as int,
            width as int,
            words@.map_values(|s: String| s@),
            Seq::empty(),
        ),
{
    let ghost data = font.data@;
    let ghost wviews = words@.map_values(|s: String| s@);
    let ghost full = wrap_lines(data, size as int, width as int, wviews, Seq::empty());
    let mut lines: Vec<String> = Vec::new();
    let mut cur: Vec<char> = Vec::new();
    let mut i: usize = 0;
    proof {
        assert(wviews.skip(0) =~= wviews);
    }
    while i < words.len()
        invariant
            0 <= i <= words@.len(),
            font.wf(),
            font.data@ == data,
            font.name@ == old(font).name@,
            fx_ok(width as int),
            fx_ok(size as int),
            0 <= size,
            wviews == words@.map_values(|s: String| s@),
            full == wrap_lines(data, size as int, width as int, wviews, Seq::empty()),
            full == lines@.map_values(|s: String| s@) + wrap_lines(
                data,
                size as int,
                width as int,
                wviews.skip(i as int),
                cur@,
            ),
        decreases words@.len() - i,
    {
        let ghost rem = wviews.skip(i as int);
        proof {
            assert(rem[0] == wviews[i as int]);
            assert(rem.drop_first() =~= wviews.skip(i as int + 1));
        }
        let w_width = font.measure_text(words[i].as_str(), size);
        if w_width > width {
            // The word alone is too wide: flush the line, then break the
            // word at character level.
            if cur.len() > 0 {
                lines.push(string_from_chars(&cur));
                cur = Vec::new();
            }
            let wchars = str_to_chars(words[i].as_str());
            let mut cb: Vec<char> = Vec::new();
            let mut j: usize = 0;
            let ghost tail = wrap_lines(
                data,
                size as int,
                width as int,
                wviews.skip(i as int + 1),
                Seq::empty(),
            );
            proof {
                assert(wchars@.skip(0) =~= wchars@);
            }
            while j < wchars.len()
                invariant
                    0 <= j <= wchars@.len(),
                    font.wf(),
                    font.data@ == data,
                    font.name@ == old(font).name@,
                    fx_ok(width as int),
                    fx_ok(size as int),
                    0 <= size,
                    wchars@ == wviews[i as int],
                    0 <= i < wviews.len(),
                    tail == wrap_lines(
                        data,
                        size as int,
                        width as int,
                        wviews.skip(i as int + 1),
                        Seq::empty(),
                    ),
                    full == lines@.map_values(|s: String| s@) + char_wrap(
                        data,
                        size as int,
                        width as int,
                        wchars@.skip(j as int),
                        cb@,
                    ) + tail,
                decreases wchars@.len() - j,
            {
                let c = wchars[j];
                proof {
                    assert(wchars@.skip(j as int)[0] == wchars@[j as int]);
                    assert(wchars@.skip(j as int).drop_first() =~= wchars@.skip(j as int + 1));
                }
                let mut cand = clone_chars(&cb);
                cand.push(c);
                let cand_s = string_from_chars(&cand);
                let cw = font.measure_text(cand_s.as_str(), size);
                proof {
                    assert(cand@ == cb@.push(c));
                }
                if cw <= width {
                    cb = cand;
                } else if cb.len() == 0 {
                    cb = Vec::new();
                    cb.push(c);
                    proof {
                        assert(cb@ =~= seq![c]);
                    }
                } else {
                    lines.push(string_from_chars(&cb));
                    cb = Vec::new();
                    cb.push(c);
                    proof {
                        assert(cb@ =~= seq![c]);
                        assert(lines@.map_values(|s: String| s@)
                            =~= lines@.map_values(|s: String| s@).drop_last().push(
                            lines@.map_values(|s: String| s@).last(),
                        ));
                    }
                }
                j = j + 1;
            }
            proof {
                assert(wchars@.skip(wchars@.len() as int) =~= Seq::<char>::empty());
            }
            if cb.len() > 0 {
                lines.push(string_from_chars(&cb));
            }
            proof {
                assert(full =~= lines@.map_values(|s: String| s@) + wrap_lines(
                    data,
                    size as int,
                    width as int,
                    wviews.skip(i as int + 1),
                    Seq::empty(),
                ));
            }
        } else {
            let mut cand: Vec<char>;
            if cur.len() == 0 {
                cand = str_to_chars(words[i].as_str());
            } else {
                cand = clone_chars(&cur);
                cand.push(' ');
                let mut wc = str_to_chars(words[i].as_str());
                cand.append(&mut wc);
                proof {
                    assert(cand@ =~= cur@ + seq![' '] + wviews[i as int]);
                }
            }
            let cand_s = string_from_chars(&cand);
            let tw = font.measure_text(cand_s.as_str(), size);
            if tw <= width {
                cur = cand;
            } else {
                lines.push(string_from_chars(&cur));
                cur = str_to_chars(words[i].as_str());
            }
        }
        i = i + 1;
    }
    proof {
        assert(wviews.skip(wviews.len() as int) =~= Seq::<Seq<char>>::empty());
    }
    if cur.len() > 0 {
        lines.push(string_from_chars(&cur));
    }
    proof {
        assert(lines@.map_values(|s: String| s@) =~= full);
    }
    lines
}

/// Copy a character vector.
fn clone_chars(v: &Vec<char>) -> (r: Vec<char>)
    ensures
        r@ == v@,
{
    let mut r: Vec<char> = Vec::new();
    let mut i: usize = 0;
    while i < v.len()
        invariant
            0 <= i <= v@.len(),
            r@ == v@.subrange(0, i as int),
        decreases v@.len() - i,
    {
        r.push(v[i]);
        proof {
            assert(r@ =~= v@.subrange(0, i as int + 1));
        }
        i = i + 1;
    }
    proof {
        assert(r@ =~= v@);
    }
    r
}

/// How many lines a text needs when wrapped at this width: the wrapped line
/// count, and at least one.
pub fn calculate_text_lines(text: &str, width: i64, size: i64, font: &mut Font) -> (r: usize)
    requires
        old(font).wf(),
        fx_ok(width as int),
        fx_ok(size as int),
        0 <= size,
    ensures
        final(font).wf(),
        final(font).data@ == old(font).data@,
        final(font).name@ == old(font).name@,
        r == line_count_of(old(font).data@, text@, size as int, width as int),
        1 <= r,
    {
    let words = split_words(text);
    let lines = wrap_text(font, &words, width, size);
    if lines.len() == 0 {
        1
    } else {
        proof {
            assert(lines@.map_values(|s: String| s@).len() == lines@.len());
        }
        lines.len()
    }
}

} // verus!

verus! {

/// Greedy word wrap without the character fallback, keeping each line as
/// its list of words: the splitter works at word boundaries only, and a
/// word wider than the line stands alone on one.
pub open spec fn lines_nf(
    data: Seq<u8>,
    size: int,
    width: int,
    words: Seq<Seq<char>>,
    cur: Seq<Seq<char>>,
) -> Seq<Seq<Seq<char>>>
    decreases words.len(), cur.len(),
{
    if words.len() == 0 {
        if cur.len() == 0 {
            Seq::empty()
        } else {
            seq![cur]
        }
    } else {
        let w = words[0];
        let cand = cur.push(w);
        if measure_of(data, join_words(cand), size) <= width {
            lines_nf(data, size, width, words.drop_first(), cand)
        } else if cur.len() == 0 {
            seq![seq![w]] + lines_nf(data, size, width, words.drop_first(), Seq::empty())
        } else {
            seq![cur] + lines_nf(data, size, width, words, Seq::empty())
        }
    }
}

/// Splitting at word boundaries loses no words: the lines flatten back to
/// the input.
pub proof fn lemma_lines_nf_flatten(
    data: Seq<u8>,
    size: int,
    width: int,
    words: Seq<Seq<char>>,
    cur: Seq<Seq<char>>,
)
    ensures
        lines_nf(data, size, width, words, cur).flatten() == cur + words,
    decreases words.len(), cur.len(),
{
    let ls = lines_nf(data, size, width, words, cur);
    if words.len() == 0 {
        if cur.len() == 0 {
            assert(ls.flatten() =~= cur + words);
        } else {
            ls.lemma_flatten_one_element();
            assert(ls.flatten() =~= cur + words);
        }
    } else {
        let w = words[0];
        let cand = cur.push(w);
        if measure_of(data, join_words(cand), size) <= width {
            lemma_lines_nf_flatten(data, size, width, words.drop_first(), cand);
            assert(cand + words.drop_first() =~= cur + words);
        } else if cur.len() == 0 {
            lemma_lines_nf_flatten(data, size, width, words.drop_first(), Seq::empty());
            let rest = lines_nf(data, size, width, words.drop_first(), Seq::empty());
            assert(ls =~= seq![seq![w]] + rest);
            assert(ls.flatten() == seq![w] + rest.flatten()) by {
                assert(ls.first() == seq![w]);
                assert(ls.drop_first() =~= rest);
            }
            assert(Seq::<Seq<char>>::empty() + words.drop_first() =~= words.drop_first());
            assert(ls.flatten() =~= cur + words);
        } else {
            lemma_lines_nf_flatten(data, size, width, words, Seq::empty());
            let rest = lines_nf(data, size, width, words, Seq::empty());
            assert(ls =~= seq![cur] + rest);
            assert(ls.flatten() == cur + rest.flatten()) by {
                assert(ls.first() == cur);
                assert(ls.drop_first() =~= rest);
            }
            assert(Seq::<Seq<char>>::empty() + words =~= words);
            assert(ls.flatten() =~= cur + words);
        }
    }
}

/// What splitting a text at a line budget yields: the text of the first
/// `max_lines` wrapped lines, and the remaining words when some are left.
pub open spec fn split_at_lines_spec(
    data: Seq<u8>,
    text: Seq<char>,
    size: int,
    width: int,
    max_lines: nat,
) -> (Seq<char>, Option<Seq<char>>) {
    let ws = words_of(text);
    if max_lines == 0 {
        (Seq::empty(), Some(text))
    } else if ws.len() == 0 {
        (text, None)
    } else {
        let ls = lines_nf(data, size, width, ws, Seq::empty());
        if ls.len() <= max_lines {
            (join_words(ls.flatten()), None)
        } else {
            (
                join_words(ls.subrange(0, max_lines as int).flatten()),
                Some(join_words(ls.skip(max_lines as int).flatten())),
            )
        }
    }
}

/// Join words with single spaces.
pub fn join_strings(ws: &Vec<String>) -> (r: String)
    ensures
        r@ == join_words(ws@.map_values(|s: String| s@)),
{
    let ghost wv = ws@.map_values(|s: String| s@);
    let mut acc: Vec<char> = Vec::new();
    let mut i: usize = 0;
    while i < ws.len()
        invariant
            0 <= i <= ws@.len(),
            wv == ws@.map_values(|s: String| s@),
            acc@ == join_words(wv.subrange(0, i as int)),
        decreases ws@.len() - i,
    {
        if i > 0 {
            acc.push(' ');
        }
        let mut wc = str_to_chars(ws[i].as_str());
        acc.append(&mut wc);
        proof {
            let pre = wv.subrange(0, i as int);
            let cur = wv.subrange(0, i as int + 1);
            assert(cur.drop_last() =~= pre);
            assert(cur.last() == wv[i as int]);
            if i == 0 {
                assert(cur.len() == 1);
                assert(cur[0] == wv[0]);
                assert(acc@ =~= join_words(cur));
            } else {
                assert(acc@ =~= join_words(cur));
            }
        }
        i = i + 1;
    }
    proof {
        assert(wv.subrange(0, wv.len() as int) =~= wv);
    }
    string_from_chars(&acc)
}

/// Split a text into a head of at most `max_lines` wrapped lines and the
/// remaining text, both with whitespace normalized to single spaces. A
/// budget of zero keeps everything in the tail; a text without words fits
/// entirely.
pub fn split_text_at_lines(text: &str, width: i64, size: i64, font: &mut Font, max_lines: usize) -> (r: (
    String,
    Option<String>,
))
    requires
        old(font).wf(),
        fx_ok(width as int),
        fx_ok(size as int),
        0 <= size,
    ensures
        final(font).wf(),
        final(font).data@ == old(font).data@,
        final(font).name@ == old(font).name@,
        ({
            let spec_r = split_at_lines_spec(
                old(font).data@,
                text@,
                size as int,
                width as int,
                max_lines as nat,
            );
            r.0@ == spec_r.0 && (match r.1 {
                Some(t) => spec_r.1 matches Some(st) && t@ == st,
                None => spec_r.1 is None,
            })
        }),
{
    let ghost data = font.data@;
    if max_lines == 0 {
        let tail = text.to_owned();
        return (String::new(), Some(tail));
    }
    let words = split_words(text);
    if words.len() == 0 {
        proof {
            assert(words@.map_values(|s: String| s@).len() == 0);
        }
        return (text.to_owned(), None);
    }
    let lines = wrap_words_nf(font, &words, width, size);
    let ghost wviews = words@.map_values(|s: String| s@);
    let ghost ls = lines_nf(data, size as int, width as int, wviews, Seq::empty());
    if lines.len() <= max_lines {
        // Everything fits: the head is the whole text, normalized.
        let mut flat: Vec<String> = Vec::new();
        let mut i: usize = 0;
        while i < lines.len()
            invariant
                0 <= i <= lines@.len(),
                line_views(lines@) == ls,
                flat@.map_values(|s: String| s@) == ls.subrange(0, i as int).flatten(),
            decreases lines@.len() - i,
        {
            append_all(&mut flat, &lines[i]);
            proof {
                let pre = ls.subrange(0, i as int);
                let cur = ls.subrange(0, i as int + 1);
                assert(cur.drop_last() =~= pre);
                assert(cur.last() == ls[i as int]);
                Seq::lemma_flatten_push(pre, ls[i as int]);
                assert(pre.push(ls[i as int]) =~= cur);
                assert(flat@.map_values(|s: String| s@) =~= cur.flatten());
            }
            i = i + 1;
        }
        proof {
            assert(ls.subrange(0, ls.len() as int) =~= ls);
        }
        let head = join_strings(&flat);
        (head, None)
    } else {
        let mut head_flat: Vec<String> = Vec::new();
        let mut i: usize = 0;
        while i < max_lines
            invariant
                0 <= i <= max_lines <= lines@.len(),
                line_views(lines@) == ls,
                head_flat@.map_values(|s: String| s@) == ls.subrange(0, i as int).flatten(),
            decreases max_lines - i,
        {
            append_all(&mut head_flat, &lines[i]);
            proof {
                let pre = ls.subrange(0, i as int);
                let cur = ls.subrange(0, i as int + 1);
                assert(cur.drop_last() =~= pre);
                assert(cur.last() == ls[i as int]);
                Seq::lemma_flatten_push(pre, ls[i as int]);
                assert(pre.push(ls[i as int]) =~= cur);
                assert(head_flat@.map_values(|s: String| s@) =~= cur.flatten());
            }
            i = i + 1;
        }
        let mut tail_flat: Vec<String> = Vec::new();
        let mut j: usize = max_lines;
        proof {
            assert(ls.subrange(max_lines as int, max_lines as int) =~= Seq::<Seq<Seq<
                char,
            >>>::empty());
        }
        while j < lines.len()
            invariant
                max_lines <= j <= lines@.len(),
                line_views(lines@) == ls,
                tail_flat@.map_values(|s: String| s@) == ls.subrange(
                    max_lines as int,
                    j as int,
                ).flatten(),
            decreases lines@.len() - j,
        {
            append_all(&mut tail_flat, &lines[j]);
            proof {
                let pre = ls.subrange(max_lines as int, j as int);
                let cur = ls.subrange(max_lines as int, j as int + 1);
                assert(cur.drop_last() =~= pre);
                assert(cur.last() == ls[j as int]);
                Seq::lemma_flatten_push(pre, ls[j as int]);
                assert(pre.push(ls[j as int]) =~= cur);
                assert(tail_flat@.map_values(|s: String| s@) =~= cur.flatten());
            }
            j = j + 1;
        }
        proof {
            assert(ls.subrange(max_lines as int, ls.len() as int) =~= ls.skip(max_lines as int));
        }
        let head = join_strings(&head_flat);
        let tail = join_strings(&tail_flat);
        (head, Some(tail))
    }
}

/// The views of a line list.
pub open spec fn line_views(lines: Seq<Vec<String>>) -> Seq<Seq<Seq<char>>> {
    lines.map_values(|l: Vec<String>| l@.map_values(|s: String| s@))
}

fn append_all(dst: &mut Vec<String>, src: &Vec<String>)
    ensures
        final(dst)@.map_values(|s: String| s@) == old(dst)@.map_values(|s: String| s@)
            + src@.map_values(|s: String| s@),
{
    let mut i: usize = 0;
    while i < src.len()
        invariant
            0 <= i <= src@.len(),
            dst@.map_values(|s: String| s@) == old(dst)@.map_values(|s: String| s@)
                + src@.map_values(|s: String| s@).subrange(0, i as int),
        decreases src@.len() - i,
    {
        let c: Vec<char> = str_to_chars(src[i].as_str());
        let ghost dpre = dst@.map_values(|s: String| s@);
        let ns = string_from_chars(&c);
        proof {
            assert(ns@ == src@.map_values(|s: String| s@)[i as int]);
        }
        dst.push(ns);
        proof {
            assert(dst@.map_values(|s: String| s@) =~= dpre.push(ns@));
            assert(dst@.map_values(|s: String| s@) =~= old(dst)@.map_values(|s: String| s@)
                + src@.map_values(|s: String| s@).subrange(0, i as int + 1));
        }
        i = i + 1;
    }
    proof {
        assert(src@.map_values(|s: String| s@).subrange(0, src@.len() as int) =~= src@.map_values(
            |s: String| s@,
        ));
        assert(dst@.map_values(|s: String| s@) =~= old(dst)@.map_values(|s: String| s@)
            + src@.map_values(|s: String| s@));
    }
}

/// Wrap a word list into word-level lines, no character fallback.
fn wrap_words_nf(font: &mut Font, words: &Vec<String>, width: i64, size: i64) -> (r: Vec<
    Vec<String>,
>)
    requires
        old(font).wf(),
        fx_ok(width as int),
        fx_ok(size as int),
        0 <= size,
    ensures
        final(font).wf(),
        final(font).data@ == old(font).data@,
        final(font).name@ == old(font).name@,
        line_views(r@) == lines_nf(
            old(font).data@,
            size as int,
            width as int,
            words@.map_values(|s: String| s@),
            Seq::empty(),
        ),
{
    let ghost data = font.data@;
    let ghost wviews = words@.map_values(|s: String| s@);
    let ghost full = lines_nf(data, size as int, width as int, wviews, Seq::empty());
    let mut lines: Vec<Vec<String>> = Vec::new();
    let mut cur: Vec<String> = Vec::new();
    let mut i: usize = 0;
    proof {
        assert(wviews.skip(0) =~= wviews);
        assert(cur@.map_values(|s: String| s@) =~= Seq::<Seq<char>>::empty());
        assert(line_views(lines@) =~= Seq::<Seq<Seq<char>>>::empty());
        assert(line_views(lines@) + full =~= full);
    }
    while i < words.len()
        invariant
            0 <= i <= words@.len(),
            font.wf(),
            font.data@ == data,
            font.name@ == old(font).name@,
            fx_ok(width as int),
            fx_ok(size as int),
            0 <= size,
            wviews == words@.map_values(|s: String| s@),
            full == line_views(lines@) + lines_nf(
                data,
                size as int,
                width as int,
                wviews.skip(i as int),
                cur@.map_values(|s: String| s@),
            ),
        decreases words@.len() - i, cur@.len(),
    {
        let ghost rem = wviews.skip(i as int);
        let ghost curv = cur@.map_values(|s: String| s@);
        proof {
            assert(rem[0] == wviews[i as int]);
            assert(rem.drop_first() =~= wviews.skip(i as int + 1));
        }
        let mut cand = copy_strings(&cur);
        let mut wc: Vec<char> = str_to_chars(words[i].as_str());
        cand.push(string_from_chars(&wc));
        proof {
            assert(cand@.map_values(|s: String| s@) =~= curv.push(wviews[i as int]));
        }
        let cand_s = join_strings(&cand);
        let tw = font.measure_text(cand_s.as_str(), size);
        if tw <= width {
            cur = cand;
            i = i + 1;
        } else if cur.len() == 0 {
            proof {
                assert(curv.len() == 0);
            }
            let ghost lv = line_views(lines@);
            lines.push(cand);
            proof {
                assert(cand@.map_values(|s: String| s@) =~= seq![wviews[i as int]]);
                assert(line_views(lines@) =~= lv.push(seq![wviews[i as int]]));
                assert(full =~= line_views(lines@) + lines_nf(
                    data,
                    size as int,
                    width as int,
                    wviews.skip(i as int + 1),
                    Seq::empty(),
                ));
            }
            cur = Vec::new();
            proof {
                assert(cur@.map_values(|s: String| s@) =~= Seq::<Seq<char>>::empty());
            }
            i = i + 1;
        } else {
            let ghost lv = line_views(lines@);
            lines.push(cur);
            cur = Vec::new();
            proof {
                assert(cur@.map_values(|s: String| s@) =~= Seq::<Seq<char>>::empty());
                assert(line_views(lines@) =~= lv.push(curv));
                assert(full =~= line_views(lines@) + lines_nf(
                    data,
                    size as int,
                    width as int,
                    wviews.skip(i as int),
                    Seq::empty(),
                ));
            }
        }
    }
    proof {
        assert(wviews.skip(wviews.len() as int) =~= Seq::<Seq<char>>::empty());
    }
    if cur.len() > 0 {
        let ghost lv = line_views(lines@);
        let ghost curv2 = cur@.map_values(|s: String| s@);
        lines.push(cur);
        proof {
            assert(line_views(lines@) =~= lv.push(curv2));
        }
    } else {
        proof {
            assert(cur@.map_values(|s: String| s@) =~= Seq::<Seq<char>>::empty());
        }
    }
    proof {
        assert(line_views(lines@) =~= full);
    }
    lines
}

fn copy_strings(v: &Vec<String>) -> (r: Vec<String>)
    ensures
        r@.map_values(|s: String| s@) == v@.map_values(|s: String| s@),
        r@.len() == v@.len(),
{
    let mut r: Vec<String> = Vec::new();
    let mut i: usize = 0;
    while i < v.len()
        invariant
            0 <= i <= v@.len(),
            r@.len() == i,
            r@.map_values(|s: String| s@) == v@.map_values(|s: String| s@).subrange(0, i as int),
        decreases v@.len() - i,
    {
        let c = str_to_chars(v[i].as_str());
        r.push(string_from_chars(&c));
        proof {
            assert(r@.map_values(|s: String| s@) =~= v@.map_values(|s: String| s@).subrange(
                0,
                i as int + 1,
            ));
        }
        i = i + 1;
    }
    proof {
        assert(r@.map_values(|s: String| s@) =~= v@.map_values(|s: String| s@));
    }
    r
}

} // verus!

verus! {

/// The baseline step between wrapped lines: 1.2 times the font size.
pub open spec fn leading_of(size: int) -> int {
    crate::fx::fx_clamp(size * 12 / 10)
}

/// Compute the leading for a size.
pub fn leading(size: i64) -> (r: i64)
    requires
        fx_ok(size as int),
        0 <= size,
    ensures
        r == leading_of(size as int),
        0 <= r,
        size >= 1 ==> r >= 1,
{
    proof {
        if size >= 1 {
            assert(size * 12 / 10 >= 1) by (nonlinear_arith)
                requires
                    size >= 1,
            ;
        }
    }
    crate::fx::fx_frac(size, 12, 10)
}

} // verus!

verus! {

/// Front decomposition of a join: the first word, a space, the rest.
proof fn lemma_join_front(ws: Seq<Seq<char>>)
    requires
        ws.len() >= 2,
    ensures
        join_words(ws) == ws[0] + seq![' '] + join_words(ws.drop_first()),
    decreases ws.len(),
{
    if ws.len() == 2 {
        assert(ws.drop_last() =~= seq![ws[0]]);
        assert(ws.drop_first() =~= seq![ws[1]]);
        assert(join_words(ws) =~= ws[0] + seq![' '] + join_words(ws.drop_first()));
    } else {
        lemma_join_front(ws.drop_last());
        assert(ws.drop_last().drop_first() =~= ws.drop_first().drop_last());
        assert(ws.drop_last()[0] == ws[0]);
        assert(ws.drop_first().last() == ws.last());
        assert(join_words(ws) == join_words(ws.drop_last()) + seq![' '] + ws.last());
        assert(join_words(ws.drop_first()) == join_words(ws.drop_first().drop_last()) + seq![' ']
            + ws.last());
        assert(join_words(ws) =~= ws[0] + seq![' '] + join_words(ws.drop_first()));
    }
}

/// A word list is well formed when every word is non-empty and space-free.
pub open spec fn words_wf(ws: Seq<Seq<char>>) -> bool {
    forall|k: int|
        0 <= k < ws.len() ==> (#[trigger] ws[k]).len() > 0 && (forall|j: int|
            0 <= j < ws[k].len() ==> !is_space(ws[k][j]))
}

/// Splitting a space-joined word list gives the words back: joining and
/// re-splitting loses nothing.
pub proof fn lemma_join_words_roundtrip(ws: Seq<Seq<char>>)
    requires
        words_wf(ws),
    ensures
        words_of(join_words(ws)) == ws,
    decreases ws.len(),
{
    if ws.len() == 0 {
        assert(words_of(join_words(ws)) =~= ws);
    } else if ws.len() == 1 {
        let w = ws[0];
        assert(join_words(ws) == w);
        assert(!is_space(w[0]));
        lemma_word_len_exact(w, w.len() as int);
        assert(words_of(w) == seq![w.subrange(0, word_len(w) as int)] + words_of(
            w.skip(word_len(w) as int),
        ));
        assert(w.subrange(0, w.len() as int) =~= w);
        assert(w.skip(w.len() as int) =~= Seq::<char>::empty());
        assert(words_of(w.skip(w.len() as int)) =~= Seq::<Seq<char>>::empty());
        assert(words_of(join_words(ws)) =~= ws);
    } else {
        lemma_join_front(ws);
        let w = ws[0];
        let s = join_words(ws);
        let rest = join_words(ws.drop_first());
        assert(s == w + seq![' '] + rest);
        assert(s[0] == w[0]);
        assert(!is_space(s[0]));
        assert forall|k: int| 0 <= k < w.len() implies !is_space(s[k]) by {
            assert(s[k] == w[k]);
        }
        assert(s[w.len() as int] == ' ');
        lemma_word_len_exact(s, w.len() as int);
        assert(s.subrange(0, w.len() as int) =~= w);
        assert(s.skip(w.len() as int)[0] == ' ');
        assert(s.skip(w.len() as int).drop_first() =~= rest);
        assert(words_wf(ws.drop_first())) by {
            assert forall|k: int|
                0 <= k < ws.drop_first().len() implies (#[trigger] ws.drop_first()[k]).len() > 0
                && (forall|j: int|
                0 <= j < ws.drop_first()[k].len() ==> !is_space(ws.drop_first()[k][j])) by {
                assert(ws.drop_first()[k] == ws[k + 1]);
            }
        }
        lemma_join_words_roundtrip(ws.drop_first());
        assert(words_of(s) == seq![s.subrange(0, word_len(s) as int)] + words_of(
            s.skip(word_len(s) as int),
        ));
        assert(words_of(s.skip(w.len() as int)) == words_of(s.skip(w.len() as int).drop_first()));
        assert(words_of(s) =~= ws);
    }
}

} // verus!

verus! {

/// Every line the word-level splitter builds holds at least one word.
pub proof fn lemma_lines_nf_nonempty(
    data: Seq<u8>,
    size: int,
    width: int,
    words: Seq<Seq<char>>,
    cur: Seq<Seq<char>>,
)
    ensures
        forall|k: int|
            0 <= k < lines_nf(data, size, width, words, cur).len() ==> (#[trigger] lines_nf(
                data,
                size,
                width,
                words,
                cur,
            )[k]).len() > 0,
    decreases words.len(), cur.len(),
{
    let ls = lines_nf(data, size, width, words, cur);
    if words.len() == 0 {
        if cur.len() > 0 {
            assert(ls[0] == cur);
        }
    } else {
        let w = words[0];
        let cand = cur.push(w);
        if measure_of(data, join_words(cand), size) <= width {
            lemma_lines_nf_nonempty(data, size, width, words.drop_first(), cand);
            let rest = lines_nf(data, size, width, words.drop_first(), cand);
            assert forall|k: int| 0 <= k < ls.len() implies (#[trigger] ls[k]).len() > 0 by {
                assert(ls[k] == rest[k]);
            }
        } else if cur.len() == 0 {
            lemma_lines_nf_nonempty(data, size, width, words.drop_first(), Seq::empty());
            let rest = lines_nf(data, size, width, words.drop_first(), Seq::empty());
            assert forall|k: int| 0 <= k < ls.len() implies (#[trigger] ls[k]).len() > 0 by {
                if k > 0 {
                    assert(ls[k] == rest[k - 1]);
                } else {
                    assert(ls[0] == seq![w]);
                }
            }
        } else {
            lemma_lines_nf_nonempty(data, size, width, words, Seq::empty());
            let rest = lines_nf(data, size, width, words, Seq::empty());
            assert forall|k: int| 0 <= k < ls.len() implies (#[trigger] ls[k]).len() > 0 by {
                if k > 0 {
                    assert(ls[k] == rest[k - 1]);
                } else {
                    assert(ls[0] == cur);
                }
            }
        }
    }
}

} // verus!

verus! {

/// Chunks built by the character fallback fit the width unless they are a
/// single (oversize) character.
proof fn lemma_char_wrap_fit(
    data: Seq<u8>,
    size: int,
    width: int,
    chars: Seq<char>,
    cur: Seq<char>,
)
    requires
        cur.len() == 0 || measure_of(data, cur, size) <= width || cur.len() == 1,
    ensures
        forall|k: int|
            0 <= k < char_wrap(data, size, width, chars, cur).len() ==> measure_of(
                data,
                #[trigger] char_wrap(data, size, width, chars, cur)[k],
                size,
            ) <= width || char_wrap(data, size, width, chars, cur)[k].len() == 1,
    decreases chars.len(),
{
    let ls = char_wrap(data, size, width, chars, cur);
    if chars.len() == 0 {
        if cur.len() > 0 {
            assert(ls[0] == cur);
        }
    } else {
        let c = chars[0];
        if measure_of(data, cur.push(c), size) <= width {
            lemma_char_wrap_fit(data, size, width, chars.drop_first(), cur.push(c));
            let rest = char_wrap(data, size, width, chars.drop_first(), cur.push(c));
            assert forall|k: int| 0 <= k < ls.len() implies measure_of(data, #[trigger] ls[k], size)
                <= width || ls[k].len() == 1 by {
                assert(ls[k] == rest[k]);
            }
        } else if cur.len() == 0 {
            lemma_char_wrap_fit(data, size, width, chars.drop_first(), seq![c]);
            let rest = char_wrap(data, size, width, chars.drop_first(), seq![c]);
            assert forall|k: int| 0 <= k < ls.len() implies measure_of(data, #[trigger] ls[k], size)
                <= width || ls[k].len() == 1 by {
                assert(ls[k] == rest[k]);
            }
        } else {
            lemma_char_wrap_fit(data, size, width, chars.drop_first(), seq![c]);
            let rest = char_wrap(data, size, width, chars.drop_first(), seq![c]);
            assert forall|k: int| 0 <= k < ls.len() implies measure_of(data, #[trigger] ls[k], size)
                <= width || ls[k].len() == 1 by {
                if k == 0 {
                    assert(ls[0] == cur);
                } else {
                    assert(ls[k] == rest[k - 1]);
                }
            }
        }
    }
}

/// Text wrap soundness: every wrapped line measures within the width,
/// except that the character-level fallback for a word wider than the line
/// may leave a single character that alone exceeds it.
pub proof fn lemma_wrap_lines_fit(
    data: Seq<u8>,
    size: int,
    width: int,
    words: Seq<Seq<char>>,
    cur: Seq<char>,
)
    requires
        cur.len() == 0 || measure_of(data, cur, size) <= width,
    ensures
        forall|k: int|
            0 <= k < wrap_lines(data, size, width, words, cur).len() ==> measure_of(
                data,
                #[trigger] wrap_lines(data, size, width, words, cur)[k],
                size,
            ) <= width || wrap_lines(data, size, width, words, cur)[k].len() == 1,
    decreases words.len(),
{
    let ls = wrap_lines(data, size, width, words, cur);
    if words.len() == 0 {
        if cur.len() > 0 {
            assert(ls[0] == cur);
        }
    } else {
        let w = words[0];
        let cand = if cur.len() == 0 {
            w
        } else {
            cur + seq![' '] + w
        };
        if measure_of(data, w, size) > width {
            // Character fallback: the flushed line fits, the chunks obey
            // the single-character caveat, the rest follows by induction.
            let pre: Seq<Seq<char>> = if cur.len() == 0 {
                Seq::empty()
            } else {
                seq![cur]
            };
            let chunks = char_wrap(data, size, width, w, Seq::empty());
            lemma_char_wrap_fit(data, size, width, w, Seq::empty());
            lemma_wrap_lines_fit(data, size, width, words.drop_first(), Seq::empty());
            let rest = wrap_lines(data, size, width, words.drop_first(), Seq::empty());
            assert forall|k: int| 0 <= k < ls.len() implies measure_of(data, #[trigger] ls[k], size)
                <= width || ls[k].len() == 1 by {
                if k < pre.len() {
                    assert(ls[k] == cur);
                } else if k < pre.len() + chunks.len() {
                    assert(ls[k] == chunks[k - pre.len()]);
                } else {
                    assert(ls[k] == rest[k - pre.len() - chunks.len()]);
                }
            }
        } else if measure_of(data, cand, size) <= width {
            lemma_wrap_lines_fit(data, size, width, words.drop_first(), cand);
            let rest = wrap_lines(data, size, width, words.drop_first(), cand);
            assert forall|k: int| 0 <= k < ls.len() implies measure_of(data, #[trigger] ls[k], size)
                <= width || ls[k].len() == 1 by {
                assert(ls[k] == rest[k]);
            }
        } else {
            assert(cur.len() > 0);
            lemma_wrap_lines_fit(data, size, width, words.drop_first(), w);
            let rest = wrap_lines(data, size, width, words.drop_first(), w);
            assert forall|k: int| 0 <= k < ls.len() implies measure_of(data, #[trigger] ls[k], size)
                <= width || ls[k].len() == 1 by {
                if k == 0 {
                    assert(ls[0] == cur);
                } else {
                    assert(ls[k] == rest[k - 1]);
                }
            }
        }
    }
}

} // verus!
