//! Text shown in the history list: clip previews and relative times.

use vstd::prelude::*;

use crate::text::{
    chars_of, decimal, lemma_trimmed_within, owned, string_of_range, to_decimal, trim_bounds, trimmed,
};

verus! {

/// At most this many characters of a clip are shown.
pub const PREVIEW_CHARS: usize = 200;

/// A control character (Unicode general category Cc, as `char::is_control`).
pub open spec fn is_control(c: char) -> bool {
    let u = c as u32;
    u <= 0x1f || (0x7f <= u <= 0x9f)
}

/// How a character appears in a one-line preview: line breaks become `¶`, and
/// tabs and other control characters become spaces.
pub open spec fn flat_char(c: char) -> char {
    if c == '\n' || c == '\r' {
        '¶'
    } else if c == '\t' {
        ' '
    } else if is_control(c) {
        ' '
    } else {
        c
    }
}

/// The one-line preview of `text`: flattened, trimmed, and cut after
/// `PREVIEW_CHARS` characters, with ` …` to show the cut.
pub open spec fn preview(text: Seq<char>) -> Seq<char> {
    let flat = trimmed(text.map_values(|c: char| flat_char(c)));
    if flat.len() > PREVIEW_CHARS {
        flat.take(PREVIEW_CHARS as int) + " …"@
    } else {
        flat
    }
}

/// How long ago something happened, given its age in seconds.
pub open spec fn age_text(age: nat) -> Seq<char> {
    if age < 45 {
        "just now"@
    } else if age < 3600 {
        decimal(age / 60) + "m ago"@
    } else if age < 86400 {
        decimal(age / 3600) + "h ago"@
    } else if age < 30 * 86400 {
        decimal(age / 86400) + "d ago"@
    } else {
        "long ago"@
    }
}

/// How `c` appears in a preview.
fn flatten(c: char) -> (r: char)
    ensures
        r == flat_char(c),
{
    let u = c as u32;
    if c == '\n' || c == '\r' {
        '¶'
    } else if c == '\t' {
        ' '
    } else if u <= 0x1f || (0x7f <= u && u <= 0x9f) {
        ' '
    } else {
        c
    }
}

/// Single-line preview of a clip for the list rows.
pub fn preview_text(text: &str) -> (p: String)
    ensures
        p@ == preview(text@),
{
    let v = chars_of(text);
    let mut flat: Vec<char> = Vec::new();
    let mut i: usize = 0;
    while i < v.len()
        invariant
            i <= v.len(),
            flat@ == v@.take(i as int).map_values(|c: char| flat_char(c)),
        decreases v.len() - i,
    {
        flat.push(flatten(v[i]));
        i = i + 1;
        assert(flat@ =~= v@.take(i as int).map_values(|c: char| flat_char(c)));
    }
    assert(v@.take(v.len() as int) =~= v@);
    let (lo, hi) = trim_bounds(&flat);
    if hi - lo > PREVIEW_CHARS {
        let mut cut = string_of_range(&flat, lo, lo + PREVIEW_CHARS);
        cut.append(" …");
        assert(flat@.subrange(lo as int, lo + PREVIEW_CHARS) =~= trimmed(flat@).take(
            PREVIEW_CHARS as int,
        ));
        cut
    } else {
        string_of_range(&flat, lo, hi)
    }
}

/// How long ago something happened, given its age in whole seconds: "just
/// now", then minutes, hours and days, and "long ago" after 30 days.
pub fn rel_time_from_age(age: u64) -> (t: String)
    ensures
        t@ == age_text(age as nat),
{
    if age < 45 {
        owned("just now")
    } else if age < 3600 {
        let mut t = to_decimal(age / 60);
        t.append("m ago");
        t
    } else if age < 86400 {
        let mut t = to_decimal(age / 3600);
        t.append("h ago");
        t
    } else if age < 30 * 86400 {
        let mut t = to_decimal(age / 86400);
        t.append("d ago");
        t
    } else {
        owned("long ago")
    }
}

/// A preview is a single line of at most `PREVIEW_CHARS` characters and the
/// two of the cut mark: it holds no control character (no line break, no
/// tab).
pub proof fn law_preview_single_line(text: Seq<char>)
    ensures
        preview(text).len() <= PREVIEW_CHARS + 2,
        forall|i: int| 0 <= i < preview(text).len() ==> !is_control(#[trigger] preview(text)[i]),
{
    reveal_strlit(" …");
    let flat = text.map_values(|c: char| flat_char(c));
    lemma_trimmed_within(flat);
    let t = trimmed(flat);
    assert forall|i: int| 0 <= i < t.len() implies !is_control(#[trigger] t[i]) by {
        let j = choose|j: int| 0 <= j < flat.len() && flat[j] == t[i];
    }
    if t.len() > PREVIEW_CHARS {
        let p = t.take(PREVIEW_CHARS as int) + " …"@;
        assert forall|i: int| 0 <= i < p.len() implies !is_control(#[trigger] p[i]) by {
            if i < PREVIEW_CHARS {
                assert(p[i] == t[i]);
            }
        }
    }
}


/// A preview shows the beginning of the flattened, trimmed text: all of it
/// when it has at most `PREVIEW_CHARS` characters, else its first
/// `PREVIEW_CHARS` characters followed by ` …`.
pub proof fn law_preview_shows_start(text: Seq<char>)
    ensures
        ({
            let t = trimmed(text.map_values(|c: char| flat_char(c)));
            &&& t.len() <= PREVIEW_CHARS ==> preview(text) == t
            &&& t.len() > PREVIEW_CHARS ==> {
                &&& preview(text).len() == PREVIEW_CHARS + 2
                &&& preview(text).take(PREVIEW_CHARS as int) == t.take(PREVIEW_CHARS as int)
                &&& preview(text).skip(PREVIEW_CHARS as int) == " …"@
            }
        }),
{
    reveal_strlit(" …");
    let t = trimmed(text.map_values(|c: char| flat_char(c)));
    if t.len() > PREVIEW_CHARS {
        let p = t.take(PREVIEW_CHARS as int) + " …"@;
        assert(p.take(PREVIEW_CHARS as int) =~= t.take(PREVIEW_CHARS as int));
        assert(p.skip(PREVIEW_CHARS as int) =~= " …"@);
    }
}

/// Text that needs no flattening or trimming (no control character, no white
/// space at either end) is shown as it is, cut after `PREVIEW_CHARS`
/// characters.
pub proof fn law_preview_of_plain_text(text: Seq<char>)
    requires
        text.len() > 0,
        forall|i: int| 0 <= i < text.len() ==> !is_control(#[trigger] text[i]),
        !crate::text::is_space(text[0]),
        !crate::text::is_space(text.last()),
    ensures
        text.len() <= PREVIEW_CHARS ==> preview(text) == text,
        text.len() > PREVIEW_CHARS ==> preview(text).take(PREVIEW_CHARS as int) == text.take(
            PREVIEW_CHARS as int,
        ),
{
    let flat = text.map_values(|c: char| flat_char(c));
    assert(flat =~= text);
    assert(crate::text::trim_start(text) == text);
    assert(crate::text::trim_end(text) == text);
    law_preview_shows_start(text);
}

} // verus!
