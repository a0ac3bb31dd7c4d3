//! Greedy word wrapping of node text.

use vstd::prelude::*;
use crate::text::{
    chars_of, chars_width, is_space, is_space_char, lemma_utf8_len_bounds,
    string_of, utf8_len,
};

verus! {

/// The pieces of `s` between occurrences of `sep` (as `str::split` gives them): there
/// is always at least one piece, and a separator at either end gives an empty piece.
pub open spec fn split_on(s: Seq<char>, sep: char) -> Seq<Seq<char>>
    decreases s.len(),
{
    if s.len() == 0 {
        seq![Seq::<char>::empty()]
    } else {
        let p = split_on(s.drop_last(), sep);
        if s.last() == sep {
            p.push(Seq::<char>::empty())
        } else {
            p.update(p.len() - 1, p.last().push(s.last()))
        }
    }
}

/// One step of cutting text into words: the finished words and the word being read.
pub open spec fn word_step(st: (Seq<Seq<char>>, Seq<char>), c: char) -> (
    Seq<Seq<char>>,
    Seq<char>,
) {
    if is_space(c) {
        if st.1.len() > 0 {
            (st.0.push(st.1), Seq::<char>::empty())
        } else {
            (st.0, Seq::<char>::empty())
        }
    } else {
        (st.0, st.1.push(c))
    }
}

/// Reads `s` into the word state `st`.
pub open spec fn word_scan(st: (Seq<Seq<char>>, Seq<char>), s: Seq<char>) -> (
    Seq<Seq<char>>,
    Seq<char>,
)
    decreases s.len(),
{
    if s.len() == 0 {
        st
    } else {
        word_step(word_scan(st, s.drop_last()), s.last())
    }
}

/// The maximal runs of non-white-space characters of `s`, in order (as
/// `str::split_whitespace` gives them).
pub open spec fn words(s: Seq<char>) -> Seq<Seq<char>> {
    let st = word_scan((Seq::<Seq<char>>::empty(), Seq::<char>::empty()), s);
    if st.1.len() > 0 {
        st.0.push(st.1)
    } else {
        st.0
    }
}

/// One step of filling lines: the next word joins the current line after a space when
/// the line's UTF-8 length, plus one, plus the word's stays within `m`; otherwise the
/// line is finished and the word starts the next one.
pub open spec fn fill_step(st: (Seq<Seq<char>>, Seq<char>), w: Seq<char>, m: int) -> (
    Seq<Seq<char>>,
    Seq<char>,
) {
    if utf8_len(st.1) + 1 + utf8_len(w) > m {
        (st.0.push(st.1), w)
    } else {
        (st.0, st.1 + seq![' '] + w)
    }
}

/// Fills the words `ws` (at least one) into lines: the finished lines and the last one.
pub open spec fn fill_scan(ws: Seq<Seq<char>>, m: int) -> (Seq<Seq<char>>, Seq<char>)
    decreases ws.len(),
{
    if ws.len() <= 1 {
        (Seq::<Seq<char>>::empty(), ws[0])
    } else {
        fill_step(fill_scan(ws.drop_last(), m), ws.last(), m)
    }
}

/// The lines that the words `ws` (at least one) fill.
pub open spec fn fill(ws: Seq<Seq<char>>, m: int) -> Seq<Seq<char>> {
    let st = fill_scan(ws, m);
    st.0.push(st.1)
}

/// The lines of one paragraph: a single empty line when it has no word, else its words
/// filled greedily.
pub open spec fn wrap_paragraph(p: Seq<char>, m: int) -> Seq<Seq<char>> {
    if words(p).len() == 0 {
        seq![Seq::<char>::empty()]
    } else {
        fill(words(p), m)
    }
}

/// The lines of a sequence of paragraphs, one paragraph after the other.
pub open spec fn lines_of(ps: Seq<Seq<char>>, m: int) -> Seq<Seq<char>>
    decreases ps.len(),
{
    if ps.len() == 0 {
        Seq::<Seq<char>>::empty()
    } else {
        lines_of(ps.drop_last(), m) + wrap_paragraph(ps.last(), m)
    }
}

/// The lines of a text wrapped to `m` bytes: every `\n` starts a new paragraph.
pub open spec fn wrap_lines(t: Seq<char>, m: int) -> Seq<Seq<char>> {
    lines_of(split_on(t, '\n'), m)
}

/// The line length, in bytes, for a node `w` units wide: text runs at 7.5 units a
/// character inside a 20-unit margin, and a line always takes at least one.
pub open spec fn max_chars(w: int) -> int {
    if 2 * w - 40 >= 15 {
        (2 * w - 40) / 15
    } else {
        1
    }
}

pub proof fn lemma_split_on_nonempty(s: Seq<char>, sep: char)
    ensures
        split_on(s, sep).len() >= 1,
    decreases s.len(),
{
    if s.len() > 0 {
        lemma_split_on_nonempty(s.drop_last(), sep);
    }
}

/// The line length for a node width (see `max_chars`).
pub fn max_chars_for(w: i64) -> (m: u64)
    ensures
        m == max_chars(w as int),
        m >= 1,
{
    let t: i128 = 2 * (w as i128) - 40;
    if t >= 15 {
        (t / 15) as u64
    } else {
        1
    }
}

/// A copy of a character vector.
fn copy_chars(v: &Vec<char>) -> (r: Vec<char>)
    ensures
        r@ == v@,
{
    let mut r: Vec<char> = Vec::new();
    let mut i: usize = 0;
    while i < v.len()
        invariant
            i <= v@.len(),
            r@ == v@.take(i as int),
        decreases v@.len() - i,
    {
        r.push(v[i]);
        assert(v@.take(i + 1) =~= v@.take(i as int).push(v@[i as int]));
        i = i + 1;
    }
    assert(v@.take(v@.len() as int) =~= v@);
    r
}

/// Appends the characters of `src` to `dst`.
fn extend_chars(dst: &mut Vec<char>, src: &Vec<char>)
    ensures
        final(dst)@ == old(dst)@ + src@,
{
    let mut i: usize = 0;
    while i < src.len()
        invariant
            i <= src@.len(),
            dst@ == old(dst)@ + src@.take(i as int),
        decreases src@.len() - i,
    {
        dst.push(src[i]);
        assert(src@.take(i + 1) =~= src@.take(i as int).push(src@[i as int]));
        i = i + 1;
    }
    assert(src@.take(src@.len() as int) =~= src@);
}

/// The views of a vector of character vectors.
pub open spec fn views(v: Seq<Vec<char>>) -> Seq<Seq<char>> {
    v.map_values(|x: Vec<char>| x@)
}

/// The pieces of `s` between occurrences of `sep`.
pub fn split_chars(s: &Vec<char>, sep: char) -> (r: Vec<Vec<char>>)
    ensures
        views(r@) == split_on(s@, sep),
{
    let mut done: Vec<Vec<char>> = Vec::new();
    let mut cur: Vec<char> = Vec::new();
    let mut i: usize = 0;
    while i < s.len()
        invariant
            i <= s@.len(),
            views(done@).push(cur@) == split_on(s@.take(i as int), sep),
        decreases s@.len() - i,
    {
        let c = s[i];
        proof {
            assert(s@.take(i + 1).drop_last() =~= s@.take(i as int));
            assert(s@.take(i + 1).last() == c);
        }
        let ghost before = views(done@).push(cur@);
        if c == sep {
            done.push(cur);
            cur = Vec::new();
            assert(views(done@).push(cur@) =~= before.push(Seq::<char>::empty()));
        } else {
            cur.push(c);
            assert(views(done@).push(cur@) =~= before.update(
                before.len() - 1,
                before.last().push(c),
            ));
        }
        i = i + 1;
    }
    assert(s@.take(s@.len() as int) =~= s@);
    done.push(cur);
    assert(views(done@) =~= split_on(s@, sep));
    done
}

/// The words of a character sequence (see `words`).
pub fn words_of(s: &Vec<char>) -> (r: Vec<Vec<char>>)
    ensures
        views(r@) == words(s@),
{
    let mut done: Vec<Vec<char>> = Vec::new();
    let mut cur: Vec<char> = Vec::new();
    let mut i: usize = 0;
    let ghost st0 = (Seq::<Seq<char>>::empty(), Seq::<char>::empty());
    assert(views(done@) =~= st0.0);
    while i < s.len()
        invariant
            i <= s@.len(),
            (views(done@), cur@) == word_scan(st0, s@.take(i as int)),
        decreases s@.len() - i,
    {
        let c = s[i];
        proof {
            assert(s@.take(i + 1).drop_last() =~= s@.take(i as int));
            assert(s@.take(i + 1).last() == c);
        }
        let ghost before = (views(done@), cur@);
        if is_space_char(c) {
            if cur.len() > 0 {
                done.push(cur);
                assert(views(done@) =~= before.0.push(before.1));
            }
            cur = Vec::new();
        } else {
            cur.push(c);
        }
        assert((views(done@), cur@) == word_step(before, c));
        i = i + 1;
    }
    assert(s@.take(s@.len() as int) =~= s@);
    if cur.len() > 0 {
        let ghost d = views(done@);
        done.push(cur);
        assert(views(done@) =~= d.push(cur@));
    }
    done
}

/// The lines that the words `ws` (at least one) fill within `m` bytes.
pub fn fill_words(ws: &Vec<Vec<char>>, m: u64) -> (r: Vec<Vec<char>>)
    requires
        ws@.len() >= 1,
    ensures
        views(r@) == fill(views(ws@), m as int),
{
    let ghost wv = views(ws@);
    let mut done: Vec<Vec<char>> = Vec::new();
    let mut cur: Vec<char> = copy_chars(&ws[0]);
    let mut cur_bytes: u128 = chars_width(&cur);
    let mut k: usize = 1;
    assert(wv.take(1).len() == 1);
    assert(views(done@) =~= Seq::<Seq<char>>::empty());
    while k < ws.len()
        invariant
            wv == views(ws@),
            1 <= k <= ws@.len(),
            (views(done@), cur@) == fill_scan(wv.take(k as int), m as int),
            cur_bytes == utf8_len(cur@),
        decreases ws@.len() - k,
    {
        let w = &ws[k];
        let wb = chars_width(w);
        // Both lengths fit in `usize`, which bounds the byte counts below.
        let _cur_len = cur.len();
        let _w_len = w.len();
        proof {
            lemma_utf8_len_bounds(cur@);
            lemma_utf8_len_bounds(w@);
            assert(wv.take(k + 1).drop_last() =~= wv.take(k as int));
            assert(wv.take(k + 1).last() == w@);
        }
        let ghost before = (views(done@), cur@);
        if cur_bytes + 1 + wb > m as u128 {
            let ghost d = views(done@);
            done.push(cur);
            assert(views(done@) =~= d.push(before.1));
            cur = copy_chars(w);
            cur_bytes = wb;
        } else {
            cur.push(' ');
            extend_chars(&mut cur, w);
            proof {
                crate::text::lemma_utf8_len_concat(before.1, seq![' ']);
                crate::text::lemma_utf8_len_concat(before.1 + seq![' '], w@);
                assert(utf8_len(seq![' ']) == 1) by {
                    assert(seq![' '].drop_last() =~= Seq::<char>::empty());
                    assert(utf8_len(Seq::<char>::empty()) == 0);
                    assert((' ' as u32) == 32);
                }
                assert(cur@ =~= before.1 + seq![' '] + w@);
            }
            cur_bytes = cur_bytes + 1 + wb;
        }
        assert((views(done@), cur@) == fill_step(before, w@, m as int));
        k = k + 1;
    }
    assert(wv.take(ws@.len() as int) =~= wv);
    let ghost d = views(done@);
    done.push(cur);
    assert(views(done@) =~= d.push(cur@));
    done
}

/// The lines of one paragraph (see `wrap_paragraph`).
pub fn wrap_paragraph_chars(p: &Vec<char>, m: u64) -> (r: Vec<Vec<char>>)
    ensures
        views(r@) == wrap_paragraph(p@, m as int),
{
    let ws = words_of(p);
    if ws.len() == 0 {
        let mut r: Vec<Vec<char>> = Vec::new();
        r.push(Vec::new());
        assert(views(r@) =~= seq![Seq::<char>::empty()]);
        r
    } else {
        fill_words(&ws, m)
    }
}

/// Breaks `text` into lines for a node `max_width` units wide: each `\n` starts a new
/// paragraph, a paragraph without words gives one empty line, and the words of a
/// paragraph fill lines greedily, a line taking the next word (after one space) as long
/// as its UTF-8 length stays within `max_chars(max_width)`. A word longer than that
/// stands alone on its line.
pub fn wrap_text(text: &str, max_width: i64) -> (lines: Vec<String>)
    ensures
        lines@.map_values(|l: String| l@) == wrap_lines(text@, max_chars(max_width as int)),
{
    let m = max_chars_for(max_width);
    let chars = chars_of(text);
    let paras = split_chars(&chars, '\n');
    let ghost pv = views(paras@);
    let mut lines: Vec<String> = Vec::new();
    let mut k: usize = 0;
    while k < paras.len()
        invariant
            pv == views(paras@),
            k <= paras@.len(),
            lines@.map_values(|l: String| l@) == lines_of(pv.take(k as int), m as int),
        decreases paras@.len() - k,
    {
        let pl = wrap_paragraph_chars(&paras[k], m);
        let ghost before = lines@.map_values(|l: String| l@);
        let ghost plv = views(pl@);
        let mut j: usize = 0;
        while j < pl.len()
            invariant
                plv == views(pl@),
                j <= pl@.len(),
                lines@.map_values(|l: String| l@) == before + plv.take(j as int),
            decreases pl@.len() - j,
        {
            let ghost b2 = lines@.map_values(|l: String| l@);
            lines.push(string_of(&pl[j]));
            assert(lines@.map_values(|l: String| l@) =~= b2.push(plv[j as int]));
            assert(plv.take(j + 1) =~= plv.take(j as int).push(plv[j as int]));
            j = j + 1;
        }
        assert(plv.take(pl@.len() as int) =~= plv);
        assert(pv.take(k + 1).drop_last() =~= pv.take(k as int));
        k = k + 1;
    }
    assert(pv.take(paras@.len() as int) =~= pv);
    lines
}

/// The words of each of the sequences `ls`, one after the other.
pub open spec fn all_words(ls: Seq<Seq<char>>) -> Seq<Seq<char>>
    decreases ls.len(),
{
    if ls.len() == 0 {
        Seq::<Seq<char>>::empty()
    } else {
        all_words(ls.drop_last()) + words(ls.last())
    }
}

/// A word: non-empty and free of white space.
pub open spec fn is_word(w: Seq<char>) -> bool {
    w.len() > 0 && forall|i: int| 0 <= i < w.len() ==> !is_space(#[trigger] w[i])
}

proof fn lemma_all_words_concat(a: Seq<Seq<char>>, b: Seq<Seq<char>>)
    ensures
        all_words(a + b) == all_words(a) + all_words(b),
    decreases b.len(),
{
    if b.len() == 0 {
        assert(a + b =~= a);
        assert(all_words(a) + all_words(b) =~= all_words(a));
    } else {
        lemma_all_words_concat(a, b.drop_last());
        assert((a + b).drop_last() =~= a + b.drop_last());
        assert(all_words(a + b) =~= all_words(a) + all_words(b));
    }
}

/// Reading from a state with no word under way only adds to the finished words.
proof fn lemma_word_scan_prefix(d: Seq<Seq<char>>, s: Seq<char>)
    ensures
        word_scan((d, Seq::<char>::empty()), s) == (
            d + word_scan((Seq::<Seq<char>>::empty(), Seq::<char>::empty()), s).0,
            word_scan((Seq::<Seq<char>>::empty(), Seq::<char>::empty()), s).1,
        ),
    decreases s.len(),
{
    let init = (Seq::<Seq<char>>::empty(), Seq::<char>::empty());
    if s.len() == 0 {
        assert(d + init.0 =~= d);
    } else {
        lemma_word_scan_prefix(d, s.drop_last());
        let x = word_scan(init, s.drop_last());
        if is_space(s.last()) && x.1.len() > 0 {
            assert((d + x.0).push(x.1) =~= d + x.0.push(x.1));
        }
    }
}

proof fn lemma_word_scan_concat(st: (Seq<Seq<char>>, Seq<char>), a: Seq<char>, b: Seq<char>)
    ensures
        word_scan(st, a + b) == word_scan(word_scan(st, a), b),
    decreases b.len(),
{
    if b.len() == 0 {
        assert(a + b =~= a);
    } else {
        lemma_word_scan_concat(st, a, b.drop_last());
        assert((a + b).drop_last() =~= a + b.drop_last());
        assert((a + b).last() == b.last());
    }
}

/// White space between two texts separates their words.
pub proof fn lemma_words_split(a: Seq<char>, c: char, b: Seq<char>)
    requires
        is_space(c),
    ensures
        words(a + seq![c] + b) == words(a) + words(b),
{
    let init = (Seq::<Seq<char>>::empty(), Seq::<char>::empty());
    lemma_word_scan_concat(init, a + seq![c], b);
    lemma_word_scan_concat(init, a, seq![c]);
    assert(seq![c].drop_last() =~= Seq::<char>::empty());
    assert(seq![c].last() == c);
    let x = word_scan(init, a);
    assert(word_scan(x, seq![c]) == word_step(word_scan(x, Seq::<char>::empty()), c));
    assert(word_scan(init, a + seq![c]) == (words(a), Seq::<char>::empty()));
    lemma_word_scan_prefix(words(a), b);
    let y = word_scan(init, b);
    if y.1.len() > 0 {
        assert((words(a) + y.0).push(y.1) =~= words(a) + y.0.push(y.1));
    }
}

proof fn lemma_word_scan_plain(w: Seq<char>)
    requires
        forall|i: int| 0 <= i < w.len() ==> !is_space(#[trigger] w[i]),
    ensures
        word_scan((Seq::<Seq<char>>::empty(), Seq::<char>::empty()), w) == (
            Seq::<Seq<char>>::empty(),
            w,
        ),
    decreases w.len(),
{
    if w.len() > 0 {
        assert forall|i: int| 0 <= i < w.drop_last().len() implies !is_space(
            #[trigger] w.drop_last()[i],
        ) by {
            assert(w.drop_last()[i] == w[i]);
        }
        lemma_word_scan_plain(w.drop_last());
        assert(!is_space(w[w.len() - 1]));
        assert(w.drop_last().push(w.last()) =~= w);
    }
}

/// A word is its own only word.
pub proof fn lemma_words_of_word(w: Seq<char>)
    requires
        is_word(w),
    ensures
        words(w) == seq![w],
{
    lemma_word_scan_plain(w);
    assert(Seq::<Seq<char>>::empty().push(w) =~= seq![w]);
}

proof fn lemma_word_scan_words(st: (Seq<Seq<char>>, Seq<char>), s: Seq<char>)
    requires
        forall|i: int| 0 <= i < st.0.len() ==> is_word(#[trigger] st.0[i]),
        forall|i: int| 0 <= i < st.1.len() ==> !is_space(#[trigger] st.1[i]),
    ensures
        forall|i: int|
            0 <= i < word_scan(st, s).0.len() ==> is_word(#[trigger] word_scan(st, s).0[i]),
        forall|i: int|
            0 <= i < word_scan(st, s).1.len() ==> !is_space(#[trigger] word_scan(st, s).1[i]),
    decreases s.len(),
{
    if s.len() > 0 {
        lemma_word_scan_words(st, s.drop_last());
        let x = word_scan(st, s.drop_last());
        let c = s.last();
        if !is_space(c) {
            assert forall|i: int| 0 <= i < x.1.push(c).len() implies !is_space(
                #[trigger] x.1.push(c)[i],
            ) by {
                if i < x.1.len() {
                    assert(x.1.push(c)[i] == x.1[i]);
                }
            }
        } else if x.1.len() > 0 {
            assert forall|i: int| 0 <= i < x.0.push(x.1).len() implies is_word(
                #[trigger] x.0.push(x.1)[i],
            ) by {
                if i < x.0.len() {
                    assert(x.0.push(x.1)[i] == x.0[i]);
                }
            }
        }
    }
}

/// Every word of a text is non-empty and free of white space.
pub proof fn lemma_words_are_words(s: Seq<char>)
    ensures
        forall|i: int| 0 <= i < words(s).len() ==> is_word(#[trigger] words(s)[i]),
{
    let init = (Seq::<Seq<char>>::empty(), Seq::<char>::empty());
    lemma_word_scan_words(init, s);
    let x = word_scan(init, s);
    if x.1.len() > 0 {
        assert forall|i: int| 0 <= i < x.0.push(x.1).len() implies is_word(
            #[trigger] x.0.push(x.1)[i],
        ) by {
            if i < x.0.len() {
                assert(x.0.push(x.1)[i] == x.0[i]);
            }
        }
    }
}

proof fn lemma_space_is_space()
    ensures
        is_space(' '),
        is_space('\n'),
{
    assert((' ' as u32) == 32);
    assert(('\n' as u32) == 10);
}

/// Filling keeps the words: the finished lines and the current one together hold
/// exactly the words filled, and each line holds a single word or fits in `m` bytes.
proof fn lemma_fill_scan(ws: Seq<Seq<char>>, m: int)
    requires
        ws.len() >= 1,
        forall|i: int| 0 <= i < ws.len() ==> is_word(#[trigger] ws[i]),
    ensures
        all_words(fill_scan(ws, m).0) + words(fill_scan(ws, m).1) == ws,
        forall|i: int|
            0 <= i < fill(ws, m).len() ==> words(#[trigger] fill(ws, m)[i]).len() == 1
                || utf8_len(fill(ws, m)[i]) <= m,
    decreases ws.len(),
{
    lemma_space_is_space();
    if ws.len() == 1 {
        lemma_words_of_word(ws[0]);
        assert(all_words(Seq::<Seq<char>>::empty()) + seq![ws[0]] =~= ws);
        assert(fill(ws, m) =~= seq![ws[0]]);
    } else {
        let wp = ws.drop_last();
        assert forall|i: int| 0 <= i < wp.len() implies is_word(#[trigger] wp[i]) by {
            assert(wp[i] == ws[i]);
        }
        lemma_fill_scan(wp, m);
        let (d, c) = fill_scan(wp, m);
        let w = ws.last();
        assert(is_word(ws[ws.len() - 1]));
        lemma_words_of_word(w);
        assert(wp.push(w) =~= ws);
        assert(fill(wp, m) =~= d.push(c));
        if utf8_len(c) + 1 + utf8_len(w) > m {
            assert(d.push(c).drop_last() =~= d);
            assert(all_words(d.push(c)) == all_words(d) + words(c));
            assert(all_words(d.push(c)) + words(w) =~= ws);
            assert(fill(ws, m) =~= d.push(c).push(w));
            assert forall|i: int| 0 <= i < fill(ws, m).len() implies words(
                #[trigger] fill(ws, m)[i],
            ).len() == 1 || utf8_len(fill(ws, m)[i]) <= m by {
                if i < fill(ws, m).len() - 1 {
                    assert(fill(ws, m)[i] == fill(wp, m)[i]);
                }
            }
        } else {
            lemma_words_split(c, ' ', w);
            assert(all_words(d) + words(c + seq![' '] + w) =~= ws);
            assert(fill(ws, m) =~= d.push(c + seq![' '] + w));
            lemma_joined_len(c, w);
            assert forall|i: int| 0 <= i < fill(ws, m).len() implies words(
                #[trigger] fill(ws, m)[i],
            ).len() == 1 || utf8_len(fill(ws, m)[i]) <= m by {
                if i < fill(ws, m).len() - 1 {
                    assert(fill(ws, m)[i] == fill(wp, m)[i]);
                }
            }
        }
    }
}

/// The words of a paragraph's lines are the paragraph's words, and each of its lines
/// holds at most one word or fits in `m` bytes.
pub proof fn lemma_wrap_paragraph(p: Seq<char>, m: int)
    ensures
        all_words(wrap_paragraph(p, m)) == words(p),
        wrap_paragraph(p, m).len() >= 1,
        forall|i: int|
            0 <= i < wrap_paragraph(p, m).len() ==> words(#[trigger] wrap_paragraph(p, m)[i]).len()
                <= 1 || utf8_len(wrap_paragraph(p, m)[i]) <= m,
{
    if words(p).len() == 0 {
        let e = Seq::<char>::empty();
        assert(seq![e].drop_last() =~= Seq::<Seq<char>>::empty());
        assert(seq![e].last() == e);
        assert(words(e) =~= Seq::<Seq<char>>::empty());
        assert(all_words(Seq::<Seq<char>>::empty()) =~= Seq::<Seq<char>>::empty());
        assert(all_words(seq![e]) == all_words(Seq::<Seq<char>>::empty()) + words(e));
        assert(all_words(seq![e]) =~= words(p));
    } else {
        lemma_words_are_words(p);
        lemma_fill_scan(words(p), m);
        let (d, c) = fill_scan(words(p), m);
        assert(d.push(c).drop_last() =~= d);
    }
}

/// The words of the paragraphs of a text, one after the other, are the text's words.
proof fn lemma_paragraph_words(t: Seq<char>)
    ensures
        word_scan((Seq::<Seq<char>>::empty(), Seq::<char>::empty()), t) == (
            all_words(split_on(t, '\n').drop_last()) + word_scan(
                (Seq::<Seq<char>>::empty(), Seq::<char>::empty()),
                split_on(t, '\n').last(),
            ).0,
            word_scan((Seq::<Seq<char>>::empty(), Seq::<char>::empty()), split_on(t, '\n').last()).1,
        ),
    decreases t.len(),
{
    let init = (Seq::<Seq<char>>::empty(), Seq::<char>::empty());
    lemma_space_is_space();
    if t.len() == 0 {
        assert(seq![Seq::<char>::empty()].drop_last() =~= Seq::<Seq<char>>::empty());
        assert(all_words(Seq::<Seq<char>>::empty()) + init.0 =~= init.0);
    } else {
        let tp = t.drop_last();
        let c = t.last();
        lemma_paragraph_words(tp);
        lemma_split_on_nonempty(tp, '\n');
        let ps = split_on(tp, '\n');
        let a = all_words(ps.drop_last());
        let x = word_scan(init, ps.last());
        if c == '\n' {
            assert(split_on(t, '\n') == ps.push(Seq::<char>::empty()));
            assert(ps.push(Seq::<char>::empty()).drop_last() =~= ps);
            assert(ps.drop_last().push(ps.last()) =~= ps);
            assert(all_words(ps) == a + words(ps.last()));
            if x.1.len() > 0 {
                assert((a + x.0).push(x.1) =~= a + x.0.push(x.1));
            } else {
                assert(a + x.0 =~= a + words(ps.last()));
            }
            assert(all_words(ps) + init.0 =~= all_words(ps));
        } else {
            let q = ps.update(ps.len() - 1, ps.last().push(c));
            assert(split_on(t, '\n') == q);
            assert(q.drop_last() =~= ps.drop_last());
            assert(q.last() == ps.last().push(c));
            assert(ps.last().push(c).drop_last() =~= ps.last());
            if is_space(c) && x.1.len() > 0 {
                assert((a + x.0).push(x.1) =~= a + x.0.push(x.1));
            }
        }
    }
}

proof fn lemma_lines_of(ps: Seq<Seq<char>>, m: int)
    ensures
        all_words(lines_of(ps, m)) == all_words(ps),
        lines_of(ps, m).len() >= ps.len(),
        forall|i: int|
            0 <= i < lines_of(ps, m).len() ==> words(#[trigger] lines_of(ps, m)[i]).len() <= 1
                || utf8_len(lines_of(ps, m)[i]) <= m,
    decreases ps.len(),
{
    if ps.len() > 0 {
        lemma_lines_of(ps.drop_last(), m);
        lemma_wrap_paragraph(ps.last(), m);
        let a = lines_of(ps.drop_last(), m);
        let b = wrap_paragraph(ps.last(), m);
        lemma_all_words_concat(a, b);
        assert forall|i: int| 0 <= i < (a + b).len() implies words(#[trigger] (a + b)[i]).len() <= 1
            || utf8_len((a + b)[i]) <= m by {
            if i < a.len() {
                assert((a + b)[i] == a[i]);
            } else {
                assert((a + b)[i] == b[i - a.len()]);
            }
        }
    }
}

/// Wrapping keeps every word of the text, in order, and adds none: the words of the
/// lines, one line after the other, are the words of the text.
pub proof fn lemma_wrap_keeps_words(t: Seq<char>, m: int)
    ensures
        all_words(wrap_lines(t, m)) == words(t),
{
    let init = (Seq::<Seq<char>>::empty(), Seq::<char>::empty());
    let ps = split_on(t, '\n');
    lemma_lines_of(ps, m);
    lemma_paragraph_words(t);
    lemma_split_on_nonempty(t, '\n');
    assert(ps.drop_last().push(ps.last()) =~= ps);
    let a = all_words(ps.drop_last());
    let x = word_scan(init, ps.last());
    if x.1.len() > 0 {
        assert((a + x.0).push(x.1) =~= a + x.0.push(x.1));
    }
}

/// Every line of wrapped text holds at most one word or is at most `m` bytes long: a
/// line runs over only when a single word is longer than the line.
pub proof fn lemma_wrap_lines_fit(t: Seq<char>, m: int)
    ensures
        forall|i: int|
            0 <= i < wrap_lines(t, m).len() ==> words(#[trigger] wrap_lines(t, m)[i]).len() <= 1
                || utf8_len(wrap_lines(t, m)[i]) <= m,
{
    lemma_lines_of(split_on(t, '\n'), m);
}

/// Wrapped text has at least one line for each paragraph, so never fewer than one.
pub proof fn lemma_wrap_lines_count(t: Seq<char>, m: int)
    ensures
        wrap_lines(t, m).len() >= split_on(t, '\n').len(),
        wrap_lines(t, m).len() >= 1,
{
    lemma_lines_of(split_on(t, '\n'), m);
    lemma_split_on_nonempty(t, '\n');
}

/// With a longer line length, filling the same words never finishes more lines, and
/// when it finishes as many, its last line is no longer.
proof fn lemma_fill_scan_monotone(ws: Seq<Seq<char>>, m1: int, m2: int)
    requires
        ws.len() >= 1,
        m1 <= m2,
    ensures
        fill_scan(ws, m2).0.len() <= fill_scan(ws, m1).0.len(),
        fill_scan(ws, m2).0.len() == fill_scan(ws, m1).0.len() ==> utf8_len(fill_scan(ws, m2).1)
            <= utf8_len(fill_scan(ws, m1).1),
    decreases ws.len(),
{
    if ws.len() > 1 {
        lemma_fill_scan_monotone(ws.drop_last(), m1, m2);
        let w = ws.last();
        let c1 = fill_scan(ws.drop_last(), m1).1;
        let c2 = fill_scan(ws.drop_last(), m2).1;
        lemma_joined_len(c1, w);
        lemma_joined_len(c2, w);
        lemma_utf8_len_bounds(c1);
        lemma_utf8_len_bounds(c2);
    }
}

/// A line and a word joined by a space take the bytes of both plus one.
proof fn lemma_joined_len(c: Seq<char>, w: Seq<char>)
    ensures
        utf8_len(c + seq![' '] + w) == utf8_len(c) + 1 + utf8_len(w),
{
    crate::text::lemma_utf8_len_concat(c, seq![' ']);
    crate::text::lemma_utf8_len_concat(c + seq![' '], w);
    assert(seq![' '].drop_last() =~= Seq::<char>::empty());
    assert(utf8_len(Seq::<char>::empty()) == 0);
    assert((' ' as u32) == 32);
}

/// With a longer line length, a paragraph never takes more lines.
proof fn lemma_wrap_paragraph_monotone(p: Seq<char>, m1: int, m2: int)
    requires
        m1 <= m2,
    ensures
        wrap_paragraph(p, m2).len() <= wrap_paragraph(p, m1).len(),
{
    if words(p).len() > 0 {
        lemma_fill_scan_monotone(words(p), m1, m2);
    }
}

proof fn lemma_lines_of_monotone(ps: Seq<Seq<char>>, m1: int, m2: int)
    requires
        m1 <= m2,
    ensures
        lines_of(ps, m2).len() <= lines_of(ps, m1).len(),
    decreases ps.len(),
{
    if ps.len() > 0 {
        lemma_lines_of_monotone(ps.drop_last(), m1, m2);
        lemma_wrap_paragraph_monotone(ps.last(), m1, m2);
    }
}

/// A longer line length never gives more lines.
pub proof fn lemma_wrap_lines_monotone(t: Seq<char>, m1: int, m2: int)
    requires
        m1 <= m2,
    ensures
        wrap_lines(t, m2).len() <= wrap_lines(t, m1).len(),
{
    lemma_lines_of_monotone(split_on(t, '\n'), m1, m2);
}

/// A wider node never takes a longer line length.
pub proof fn lemma_max_chars_monotone(w1: int, w2: int)
    requires
        w1 <= w2,
    ensures
        max_chars(w1) <= max_chars(w2),
{
    if 2 * w1 - 40 >= 15 {
        vstd::arithmetic::div_mod::lemma_div_is_ordered(2 * w1 - 40, 2 * w2 - 40, 15);
    } else if 2 * w2 - 40 >= 15 {
        vstd::arithmetic::div_mod::lemma_div_is_ordered(15, 2 * w2 - 40, 15);
    }
}

/// A wider node never needs more lines for the same text.
pub proof fn lemma_wider_needs_no_more_lines(t: Seq<char>, w1: int, w2: int)
    requires
        w1 <= w2,
    ensures
        wrap_lines(t, max_chars(w2)).len() <= wrap_lines(t, max_chars(w1)).len(),
{
    lemma_max_chars_monotone(w1, w2);
    lemma_wrap_lines_monotone(t, max_chars(w1), max_chars(w2));
}

/// Text without the separator is a single piece.
pub proof fn lemma_split_on_absent(s: Seq<char>, sep: char)
    requires
        forall|i: int| 0 <= i < s.len() ==> s[i] != sep,
    ensures
        split_on(s, sep) == seq![s],
    decreases s.len(),
{
    if s.len() > 0 {
        assert forall|i: int| 0 <= i < s.drop_last().len() implies s.drop_last()[i] != sep by {
            assert(s.drop_last()[i] == s[i]);
        }
        lemma_split_on_absent(s.drop_last(), sep);
        assert(s[s.len() - 1] != sep);
        assert(s.drop_last().push(s.last()) =~= s);
        let p = seq![s.drop_last()];
        assert(p.len() == 1);
        assert(p.last() == s.drop_last());
        assert(p.update(0, s.drop_last().push(s.last())) =~= seq![s]);
    } else {
        assert(s =~= Seq::<char>::empty());
    }
}

/// A non-empty text without white space wraps to itself, on one line, whatever the
/// line length: it is a single word.
pub proof fn lemma_wrap_single_word(t: Seq<char>, m: int)
    requires
        is_word(t),
    ensures
        wrap_lines(t, m) == seq![t],
{
    lemma_space_is_space();
    assert forall|i: int| 0 <= i < t.len() implies t[i] != '\n' by {
        assert(!is_space(t[i]));
    }
    lemma_split_on_absent(t, '\n');
    lemma_words_of_word(t);
    let ps = seq![t];
    assert(ps.drop_last() =~= Seq::<Seq<char>>::empty());
    assert(fill(seq![t], m) =~= seq![t]);
    assert(lines_of(ps, m) =~= lines_of(ps.drop_last(), m) + wrap_paragraph(t, m));
}

/// Text made of visible ASCII characters only (such as a path or a URL) wraps to itself,
/// on one line, whatever the line length.
pub proof fn lemma_wrap_visible_ascii(t: Seq<char>, m: int)
    requires
        t.len() > 0,
        forall|i: int| 0 <= i < t.len() ==> 0x21 <= (#[trigger] t[i] as u32) <= 0x7e,
    ensures
        wrap_lines(t, m) == seq![t],
{
    assert forall|i: int| 0 <= i < t.len() implies !is_space(#[trigger] t[i]) by {
        crate::text::lemma_ascii_space(t[i]);
    }
    lemma_wrap_single_word(t, m);
}

proof fn lemma_fill_scan_greedy(ws: Seq<Seq<char>>, m: int)
    requires
        ws.len() >= 1,
        forall|i: int| 0 <= i < ws.len() ==> is_word(#[trigger] ws[i]),
    ensures
        ({
            let (d, c) = fill_scan(ws, m);
            &&& words(c).len() >= 1
            &&& forall|i: int| 0 <= i < d.len() ==> words(#[trigger] d[i]).len() >= 1
            &&& forall|i: int|
                0 <= i < d.len() - 1 ==> utf8_len(#[trigger] d[i]) + 1 + utf8_len(words(d[i + 1])[0])
                    > m
            &&& d.len() > 0 ==> utf8_len(d.last()) + 1 + utf8_len(words(c)[0]) > m
        }),
    decreases ws.len(),
{
    if ws.len() == 1 {
        lemma_words_of_word(ws[0]);
    } else {
        let wp = ws.drop_last();
        assert forall|i: int| 0 <= i < wp.len() implies is_word(#[trigger] wp[i]) by {
            assert(wp[i] == ws[i]);
        }
        lemma_fill_scan_greedy(wp, m);
        let (d, c) = fill_scan(wp, m);
        let w = ws.last();
        assert(is_word(ws[ws.len() - 1]));
        lemma_words_of_word(w);
        assert(wp.push(w) =~= ws);
        if utf8_len(c) + 1 + utf8_len(w) > m {
            let d2 = d.push(c);
            assert forall|i: int| 0 <= i < d2.len() implies words(#[trigger] d2[i]).len() >= 1 by {
                if i < d.len() {
                    assert(d2[i] == d[i]);
                }
            }
            assert forall|i: int| 0 <= i < d2.len() - 1 implies utf8_len(#[trigger] d2[i]) + 1
                + utf8_len(words(d2[i + 1])[0]) > m by {
                assert(d2[i] == d[i]);
                if i + 1 < d.len() {
                    assert(d2[i + 1] == d[i + 1]);
                } else {
                    assert(d2[i + 1] == c);
                }
            }
        } else {
            lemma_space_is_space();
            lemma_words_split(c, ' ', w);
            assert((words(c) + words(w))[0] == words(c)[0]);
        }
    }
}

/// Filling is greedy: within a paragraph, each line but the last is broken only because
/// the first word of the next line, after a space, would take it past `m` bytes.
pub proof fn lemma_wrap_paragraph_greedy(p: Seq<char>, m: int)
    ensures
        forall|i: int|
            0 <= i < wrap_paragraph(p, m).len() - 1 ==> words(wrap_paragraph(p, m)[i + 1]).len()
                >= 1 && utf8_len(#[trigger] wrap_paragraph(p, m)[i]) + 1 + utf8_len(
                words(wrap_paragraph(p, m)[i + 1])[0],
            ) > m,
{
    if words(p).len() > 0 {
        lemma_words_are_words(p);
        lemma_fill_scan_greedy(words(p), m);
        let (d, c) = fill_scan(words(p), m);
        let f = d.push(c);
        assert forall|i: int| 0 <= i < f.len() - 1 implies words(f[i + 1]).len() >= 1 && utf8_len(
            #[trigger] f[i],
        ) + 1 + utf8_len(words(f[i + 1])[0]) > m by {
            assert(f[i] == d[i]);
            if i + 1 < d.len() {
                assert(f[i + 1] == d[i + 1]);
            } else {
                assert(f[i + 1] == c);
            }
        }
    }
}

} // verus!
