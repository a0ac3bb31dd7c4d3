//! The color palette of JSON Canvas.

use vstd::prelude::*;
use crate::text::str_is;

verus! {

/// The color drawn for a node or edge whose color is absent or not understood.
pub open spec fn default_color() -> Seq<char> {
    "#b4b4b4"@
}

/// The color drawn for a color setting: the six preset colors `"1"` to `"6"` map to
/// fixed hex values, a setting that starts with `#` is used as it stands, anything
/// else, and no setting, gives the default gray.
pub open spec fn color_of(c: Option<Seq<char>>) -> Seq<char> {
    match c {
        Some(s) => if s == "1"@ {
            "#fb464c"@
        } else if s == "2"@ {
            "#e9973f"@
        } else if s == "3"@ {
            "#e0de71"@
        } else if s == "4"@ {
            "#44cf6e"@
        } else if s == "5"@ {
            "#53dfdd"@
        } else if s == "6"@ {
            "#a882ff"@
        } else if s.len() > 0 && s[0] == '#' {
            s
        } else {
            default_color()
        },
        None => default_color(),
    }
}

/// Whether the string starts with `#`.
fn starts_with_hash(s: &str) -> (b: bool)
    ensures
        b == (s@.len() > 0 && s@[0] == '#'),
{
    let mut it = s.chars();
    match it.next() {
        Some(c) => c == '#',
        None => false,
    }
}

/// The color drawn for a color setting (see `color_of`).
pub fn resolve_color<'a>(color: Option<&'a str>) -> (r: &'a str)
    ensures
        r@ == color_of(color.deep_view()),
{
    match color {
        Some(c) => {
            if str_is(c, "1") {
                "#fb464c"
            } else if str_is(c, "2") {
                "#e9973f"
            } else if str_is(c, "3") {
                "#e0de71"
            } else if str_is(c, "4") {
                "#44cf6e"
            } else if str_is(c, "5") {
                "#53dfdd"
            } else if str_is(c, "6") {
                "#a882ff"
            } else if starts_with_hash(c) {
                c
            } else {
                "#b4b4b4"
            }
        },
        None => "#b4b4b4",
    }
}

/// Every drawn color is non-empty and starts with `#`.
pub proof fn lemma_color_starts_with_hash(c: Option<Seq<char>>)
    ensures
        color_of(c).len() > 0,
        color_of(c)[0] == '#',
{
    reveal_strlit("#b4b4b4");
    reveal_strlit("#fb464c");
    reveal_strlit("#e9973f");
    reveal_strlit("#e0de71");
    reveal_strlit("#44cf6e");
    reveal_strlit("#53dfdd");
    reveal_strlit("#a882ff");
}

/// A color given as `#...` is drawn as it stands; no color, or a setting that is neither
/// a preset (`"1"` to `"6"`, which map to `#` colors other than the default) nor a `#`
/// color, is drawn in the default gray.
pub proof fn lemma_color_settings(s: Seq<char>)
    ensures
        color_of(None) == default_color(),
        s.len() > 0 && s[0] == '#' ==> color_of(Some(s)) == s,
        !(s.len() > 0 && s[0] == '#') && s != "1"@ && s != "2"@ && s != "3"@ && s != "4"@ && s
            != "5"@ && s != "6"@ ==> color_of(Some(s)) == default_color(),
        s == "1"@ || s == "2"@ || s == "3"@ || s == "4"@ || s == "5"@ || s == "6"@ ==> (color_of(
            Some(s),
        ).len() == 7 && color_of(Some(s))[0] == '#' && color_of(Some(s)) != default_color()),
{
    reveal_strlit("1");
    reveal_strlit("2");
    reveal_strlit("3");
    reveal_strlit("4");
    reveal_strlit("5");
    reveal_strlit("6");
    reveal_strlit("#b4b4b4");
    reveal_strlit("#fb464c");
    reveal_strlit("#e9973f");
    reveal_strlit("#e0de71");
    reveal_strlit("#44cf6e");
    reveal_strlit("#53dfdd");
    reveal_strlit("#a882ff");
    if s == "1"@ || s == "2"@ || s == "3"@ || s == "4"@ || s == "5"@ || s == "6"@ {
        assert(s[0] != '#');
        assert("#fb464c"@[1] != default_color()[1]);
        assert("#e9973f"@[1] != default_color()[1]);
        assert("#e0de71"@[1] != default_color()[1]);
        assert("#44cf6e"@[1] != default_color()[1]);
        assert("#53dfdd"@[1] != default_color()[1]);
        assert("#a882ff"@[1] != default_color()[1]);
    }
}

} // verus!
