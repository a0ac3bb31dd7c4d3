//! XML escaping of text content.

use vstd::prelude::*;
use crate::text::{chars_of, push_char};

verus! {

/// The replacement text of one character: the five XML special characters become
/// entity references, every other character stands for itself.
pub open spec fn escape_char(c: char) -> Seq<char> {
    if c == '&' {
        "&amp;"@
    } else if c == '<' {
        "&lt;"@
    } else if c == '>' {
        "&gt;"@
    } else if c == '"' {
        "&quot;"@
    } else if c == '\'' {
        "&apos;"@
    } else {
        seq![c]
    }
}

/// The text with each character replaced by its escape.
pub open spec fn escape(s: Seq<char>) -> Seq<char>
    decreases s.len(),
{
    if s.len() == 0 {
        seq![]
    } else {
        escape(s.drop_last()) + escape_char(s.last())
    }
}

/// One of the characters that must not stand bare in XML text or attribute values.
pub open spec fn is_markup_char(c: char) -> bool {
    c == '<' || c == '>' || c == '"' || c == '\''
}

/// One of the five characters that escaping rewrites.
pub open spec fn is_special_char(c: char) -> bool {
    c == '&' || is_markup_char(c)
}

/// Escaping is applied character by character: escaping a concatenation is the
/// concatenation of the escapes.
pub proof fn lemma_escape_concat(a: Seq<char>, b: Seq<char>)
    ensures
        escape(a + b) == escape(a) + escape(b),
    decreases b.len(),
{
    if b.len() == 0 {
        assert(a + b =~= a);
        assert(escape(a) + escape(b) =~= escape(a));
    } else {
        lemma_escape_concat(a, b.drop_last());
        assert((a + b).drop_last() =~= a + b.drop_last());
        assert(escape(a + b) =~= escape(a) + escape(b));
    }
}

proof fn lemma_escape_char_no_markup(c: char)
    ensures
        forall|i: int| 0 <= i < escape_char(c).len() ==> !is_markup_char(#[trigger] escape_char(c)[i]),
        escape_char(c).len() >= 1,
        !is_special_char(c) ==> escape_char(c) == seq![c],
{
    reveal_strlit("&amp;");
    reveal_strlit("&lt;");
    reveal_strlit("&gt;");
    reveal_strlit("&quot;");
    reveal_strlit("&apos;");
}

/// Escaped text never holds `<`, `>`, `"` or `'`, and is at least as long as the input.
pub proof fn lemma_escape_no_markup(s: Seq<char>)
    ensures
        forall|i: int| 0 <= i < escape(s).len() ==> !is_markup_char(#[trigger] escape(s)[i]),
        escape(s).len() >= s.len(),
    decreases s.len(),
{
    if s.len() > 0 {
        lemma_escape_no_markup(s.drop_last());
        lemma_escape_char_no_markup(s.last());
        let a = escape(s.drop_last());
        let b = escape_char(s.last());
        assert forall|i: int| 0 <= i < escape(s).len() implies !is_markup_char(
            #[trigger] escape(s)[i],
        ) by {
            if i < a.len() {
                assert(escape(s)[i] == a[i]);
            } else {
                assert(escape(s)[i] == b[i - a.len()]);
            }
        }
    }
}

/// Text without any of the five special characters is left unchanged.
pub proof fn lemma_escape_plain(s: Seq<char>)
    requires
        forall|i: int| 0 <= i < s.len() ==> !is_special_char(#[trigger] s[i]),
    ensures
        escape(s) == s,
    decreases s.len(),
{
    if s.len() > 0 {
        lemma_escape_plain(s.drop_last());
        lemma_escape_char_no_markup(s.last());
        assert(s.drop_last().push(s.last()) =~= s);
    }
}

/// Whether `s` begins with `p`.
pub open spec fn starts_with(s: Seq<char>, p: Seq<char>) -> bool {
    p.len() <= s.len() && s.take(p.len() as int) == p
}

pub open spec fn amp_ref() -> Seq<char> {
    seq!['&', 'a', 'm', 'p', ';']
}

pub open spec fn lt_ref() -> Seq<char> {
    seq!['&', 'l', 't', ';']
}

pub open spec fn gt_ref() -> Seq<char> {
    seq!['&', 'g', 't', ';']
}

pub open spec fn quot_ref() -> Seq<char> {
    seq!['&', 'q', 'u', 'o', 't', ';']
}

pub open spec fn apos_ref() -> Seq<char> {
    seq!['&', 'a', 'p', 'o', 's', ';']
}

/// Decodes the five entity references `&amp;`, `&lt;`, `&gt;`, `&quot;` and `&apos;`,
/// reading from the left; any other character stands for itself.
pub open spec fn unescape(s: Seq<char>) -> Seq<char>
    decreases s.len(),
{
    if s.len() == 0 {
        seq![]
    } else if starts_with(s, amp_ref()) {
        seq!['&'] + unescape(s.skip(5))
    } else if starts_with(s, lt_ref()) {
        seq!['<'] + unescape(s.skip(4))
    } else if starts_with(s, gt_ref()) {
        seq!['>'] + unescape(s.skip(4))
    } else if starts_with(s, quot_ref()) {
        seq!['"'] + unescape(s.skip(6))
    } else if starts_with(s, apos_ref()) {
        seq!['\''] + unescape(s.skip(6))
    } else {
        seq![s[0]] + unescape(s.skip(1))
    }
}

proof fn lemma_unescape_char(c: char, rest: Seq<char>)
    ensures
        unescape(escape_char(c) + rest) == seq![c] + unescape(rest),
{
    reveal_strlit("&amp;");
    reveal_strlit("&lt;");
    reveal_strlit("&gt;");
    reveal_strlit("&quot;");
    reveal_strlit("&apos;");
    assert("&amp;"@ =~= amp_ref());
    assert("&lt;"@ =~= lt_ref());
    assert("&gt;"@ =~= gt_ref());
    assert("&quot;"@ =~= quot_ref());
    assert("&apos;"@ =~= apos_ref());
    let e = escape_char(c);
    let s = e + rest;
    assert(s.skip(e.len() as int) =~= rest);
    assert(s.take(e.len() as int) =~= e);
    assert(s[0] == e[0]);
    if e.len() > 1 {
        assert(s[1] == e[1]);
    }
    if c == '&' {
        assert(starts_with(s, amp_ref()));
    } else if c == '<' {
        if s.len() >= 5 {
            assert(s.take(5)[1] == s[1]);
        }
        assert(starts_with(s, lt_ref()));
    } else if c == '>' {
        if s.len() >= 5 {
            assert(s.take(5)[1] == s[1]);
        }
        assert(s.take(4)[1] == s[1]);
        assert(starts_with(s, gt_ref()));
    } else if c == '"' {
        if s.len() >= 5 {
            assert(s.take(5)[1] == s[1]);
        }
        assert(s.take(4)[1] == s[1]);
        assert(starts_with(s, quot_ref()));
    } else if c == '\'' {
        if s.len() >= 5 {
            assert(s.take(5)[1] == s[1]);
        }
        assert(s.take(4)[1] == s[1]);
        assert(s.take(6)[1] == s[1]);
        assert(starts_with(s, apos_ref()));
    } else {
        assert(e == seq![c]);
        if s.len() >= 4 {
            assert(s.take(4)[0] == s[0]);
        }
        if s.len() >= 5 {
            assert(s.take(5)[0] == s[0]);
        }
        if s.len() >= 6 {
            assert(s.take(6)[0] == s[0]);
        }
    }
}

/// Escaping loses nothing: decoding the entity references of escaped text gives the
/// text back.
pub proof fn lemma_unescape_escape(s: Seq<char>)
    ensures
        unescape(escape(s)) == s,
    decreases s.len(),
{
    if s.len() > 0 {
        let c = s[0];
        let rest = s.skip(1);
        assert(s =~= seq![c] + rest);
        lemma_escape_concat(seq![c], rest);
        assert(seq![c].drop_last() =~= Seq::<char>::empty());
        assert(escape(seq![c]) =~= escape(Seq::<char>::empty()) + escape_char(c));
        assert(escape(seq![c]) =~= escape_char(c));
        lemma_unescape_char(c, escape(rest));
        lemma_unescape_escape(rest);
    }
}

/// Appends the escape of one character.
fn push_escaped_char(out: &mut String, c: char)
    ensures
        final(out)@ == old(out)@ + escape_char(c),
{
    if c == '&' {
        out.append("&amp;");
    } else if c == '<' {
        out.append("&lt;");
    } else if c == '>' {
        out.append("&gt;");
    } else if c == '"' {
        out.append("&quot;");
    } else if c == '\'' {
        out.append("&apos;");
    } else {
        push_char(out, c);
        assert(final(out)@ =~= old(out)@ + seq![c]);
    }
}

/// Appends the escape of a string.
pub fn push_escaped(out: &mut String, s: &str)
    ensures
        final(out)@ == old(out)@ + escape(s@),
{
    let v = chars_of(s);
    let mut i: usize = 0;
    while i < v.len()
        invariant
            v@ == s@,
            i <= v@.len(),
            out@ == old(out)@ + escape(v@.take(i as int)),
        decreases v@.len() - i,
    {
        push_escaped_char(out, v[i]);
        assert(v@.take(i + 1).drop_last() =~= v@.take(i as int));
        i = i + 1;
    }
    assert(v@.take(v@.len() as int) =~= v@);
}

/// Replaces `&`, `<`, `>`, `"` and `'` by their XML entity references.
pub fn escape_xml(s: &str) -> (r: String)
    ensures
        r@ == escape(s@),
{
    let mut out = String::new();
    push_escaped(&mut out, s);
    out
}

} // verus!
