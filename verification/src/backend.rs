//! Deciding what to read from the clipboard, given the types it offers.

use vstd::prelude::*;

use crate::text::{
    contains_text, has_infix, has_prefix, lemma_split_nonempty, owned, same_text, split_by,
    split_on, starts_with, views,
};

verus! {

/// One clipboard event from the background watcher.
pub enum WatchEvent {
    Clip(String),
    /// Raw image bytes in whatever format the source offered (PNG, JPEG, ...).
    Image(Vec<u8>),
    /// The watcher stopped.
    Dead,
}

/// What to read from the clipboard.
#[derive(Debug, PartialEq, Eq)]
pub enum ReadRequest {
    /// Its plain text.
    Text,
    /// Its contents as the given image type.
    Image(String),
}

// ---------------------------------------------------------------------------
// Model
// ---------------------------------------------------------------------------

/// The views of a sequence of string slices.
pub open spec fn str_views(v: Seq<&str>) -> Seq<Seq<char>> {
    v.map_values(|s: &str| s@)
}

/// A type under which the clipboard offers plain text.
pub open spec fn is_text_type(t: Seq<char>) -> bool {
    ||| has_prefix(t, "text/plain"@)
    ||| t == "UTF8_STRING"@
    ||| t == "STRING"@
    ||| t == "TEXT"@
}

/// A PNG image type.
pub open spec fn is_png(t: Seq<char>) -> bool {
    t == "image/png"@
}

/// An image type.
pub open spec fn is_image(t: Seq<char>) -> bool {
    has_prefix(t, "image/"@)
}

/// The type that password managers add to mark a clip as secret.
pub open spec fn is_secret_type(t: Seq<char>) -> bool {
    has_infix(t, "passwordManagerHint"@)
}

/// Some offered type is a text type.
pub open spec fn offers_text(types: Seq<Seq<char>>) -> bool {
    exists|i: int| 0 <= i < types.len() && is_text_type(types[i])
}

/// Some offered type marks the clip as secret.
pub open spec fn marked_secret(types: Seq<Seq<char>>) -> bool {
    exists|i: int| 0 <= i < types.len() && is_secret_type(types[i])
}

/// `k` is the first position of a type that satisfies `p`.
pub open spec fn first_where(types: Seq<Seq<char>>, p: spec_fn(Seq<char>) -> bool, k: int) -> bool {
    &&& 0 <= k < types.len()
    &&& p(types[k])
    &&& forall|j: int| 0 <= j < k ==> !p(#[trigger] types[j])
}

/// The position of the first type that satisfies `p`, if any.
pub open spec fn first_index(types: Seq<Seq<char>>, p: spec_fn(Seq<char>) -> bool) -> Option<int> {
    if exists|k: int| first_where(types, p, k) {
        Some(choose|k: int| first_where(types, p, k))
    } else {
        None
    }
}

/// The position of the image type to read: none when text is offered, else
/// the first PNG type, else the first image type.
pub open spec fn preferred_image_index(types: Seq<Seq<char>>) -> Option<int> {
    if offers_text(types) {
        None
    } else if first_index(types, wanted(true)) is Some {
        first_index(types, wanted(true))
    } else {
        first_index(types, wanted(false))
    }
}

/// The image type to read (see [`preferred_image_index`]).
pub open spec fn preferred_image(types: Seq<Seq<char>>) -> Option<Seq<char>> {
    match preferred_image_index(types) {
        Some(k) => Some(types[k]),
        None => None,
    }
}

/// PNG types when `png`, else image types.
pub open spec fn wanted(png: bool) -> spec_fn(Seq<char>) -> bool {
    if png {
        |t: Seq<char>| is_png(t)
    } else {
        |t: Seq<char>| is_image(t)
    }
}

/// The line without a carriage return at its end.
pub open spec fn without_cr(line: Seq<char>) -> Seq<char> {
    if line.len() > 0 && line.last() == '\r' {
        line.drop_last()
    } else {
        line
    }
}

/// The lines of `s`, as `str::lines` gives them: split at `\n`, a `\r` before
/// it removed, and no empty line after a final `\n`.
pub open spec fn lines_of(s: Seq<char>) -> Seq<Seq<char>> {
    let pieces = split_on(s, '\n');
    let body = pieces.take(pieces.len() - 1).map_values(|p: Seq<char>| without_cr(p));
    if pieces.last().len() == 0 {
        body
    } else {
        body.push(pieces.last())
    }
}

/// What to read from a clipboard that offers `types`: nothing when the clip is
/// secret, its text when it has some, else its preferred image type.
pub open spec fn read_plan(types: Seq<Seq<char>>) -> Option<Option<Seq<char>>> {
    if marked_secret(types) {
        None
    } else if offers_text(types) {
        Some(None)
    } else {
        match preferred_image(types) {
            Some(t) => Some(Some(t)),
            None => None,
        }
    }
}

// ---------------------------------------------------------------------------
// Operations
// ---------------------------------------------------------------------------

/// Whether `t` is a text type.
fn text_type(t: &str) -> (b: bool)
    ensures
        b == is_text_type(t@),
{
    starts_with(t, "text/plain") || same_text(t, "UTF8_STRING") || same_text(t, "STRING")
        || same_text(t, "TEXT")
}

/// True when the clipboard offers plain text.
pub fn has_text(types: &[&str]) -> (b: bool)
    ensures
        b == offers_text(str_views(types@)),
{
    let ghost v = str_views(types@);
    let mut i: usize = 0;
    while i < types.len()
        invariant
            v == str_views(types@),
            i <= types.len(),
            forall|j: int| 0 <= j < i ==> !is_text_type(#[trigger] v[j]),
        decreases types.len() - i,
    {
        if text_type(types[i]) {
            assert(is_text_type(v[i as int]));
            return true;
        }
        i = i + 1;
    }
    false
}

/// The first position of a type equal to `image/png` (when `png`), or of an
/// image type.
fn first_position(types: &[&str], png: bool) -> (r: Option<usize>)
    ensures
        match r {
            Some(k) => first_where(str_views(types@), wanted(png), k as int),
            None => forall|k: int| !#[trigger] first_where(str_views(types@), wanted(png), k),
        },
{
    let ghost v = str_views(types@);
    let ghost p = wanted(png);
    let mut i: usize = 0;
    while i < types.len()
        invariant
            v == str_views(types@),
            p == wanted(png),
            i <= types.len(),
            forall|j: int| 0 <= j < i ==> !p(#[trigger] v[j]),
        decreases types.len() - i,
    {
        let hit = if png {
            same_text(types[i], "image/png")
        } else {
            starts_with(types[i], "image/")
        };
        if hit {
            assert(first_where(v, p, i as int));
            return Some(i);
        }
        i = i + 1;
    }
    proof {
        assert forall|k: int| !#[trigger] first_where(v, p, k) by {
            if first_where(v, p, k) {
                assert(!p(v[k]));
            }
        }
    }
    None
}

proof fn lemma_first_index(types: Seq<Seq<char>>, p: spec_fn(Seq<char>) -> bool, k: int)
    requires
        first_where(types, p, k),
    ensures
        first_index(types, p) == Some(k),
{
    let c = choose|c: int| first_where(types, p, c);
    if c < k {
        assert(!p(types[c]));
    } else if c > k {
        assert(!p(types[k]));
    }
}

/// The image type to read, preferring PNG. Only used when there is no text,
/// so copying a file or rich text is still recorded as text.
pub fn image_type<'a>(types: &[&'a str]) -> (r: Option<&'a str>)
    ensures
        match r {
            Some(t) => exists|k: int|
                preferred_image_index(str_views(types@)) == Some(k) && t == types@[k],
            None => preferred_image_index(str_views(types@)) is None,
        },
{
    let ghost v = str_views(types@);
    if has_text(types) {
        return None;
    }
    match first_position(types, true) {
        Some(k) => {
            proof {
                lemma_first_index(v, wanted(true), k as int);
            }
            Some(types[k])
        },
        None => match first_position(types, false) {
            Some(k) => {
                proof {
                    lemma_first_index(v, wanted(false), k as int);
                }
                Some(types[k])
            },
            None => None,
        },
    }
}

/// True when a password manager (KeePassXC etc.) marked the clip as secret.
pub fn is_secret(types: &[&str]) -> (b: bool)
    ensures
        b == marked_secret(str_views(types@)),
{
    let ghost v = str_views(types@);
    let mut i: usize = 0;
    while i < types.len()
        invariant
            v == str_views(types@),
            i <= types.len(),
            forall|j: int| 0 <= j < i ==> !is_secret_type(#[trigger] v[j]),
        decreases types.len() - i,
    {
        if contains_text(types[i], "passwordManagerHint") {
            assert(is_secret_type(v[i as int]));
            return true;
        }
        i = i + 1;
    }
    false
}

/// `line` without a carriage return at its end.
fn strip_cr(line: String) -> (r: String)
    ensures
        r@ == without_cr(line@),
{
    let v = crate::text::chars_of(line.as_str());
    if v.len() > 0 && v[v.len() - 1] == '\r' {
        crate::text::string_of_range(&v, 0, v.len() - 1)
    } else {
        line
    }
}

/// The lines of `s` (`str::lines`).
pub fn lines(s: &str) -> (r: Vec<String>)
    ensures
        views(r@) == lines_of(s@),
{
    let pieces = split_by(s, '\n');
    let ghost p = views(pieces@);
    proof {
        lemma_split_nonempty(s@, '\n');
    }
    let n = pieces.len();
    let mut out: Vec<String> = Vec::new();
    let mut i: usize = 0;
    while i + 1 < n
        invariant
            n == pieces.len() >= 1,
            p == views(pieces@),
            i + 1 <= n,
            views(out@) == p.take(i as int).map_values(|q: Seq<char>| without_cr(q)),
        decreases n - i,
    {
        let ghost before = out@;
        let piece = pieces[i].clone();
        assert(piece@ == p[i as int]);
        let line = strip_cr(piece);
        out.push(line);
        assert(views(out@) =~= views(before).push(line@));
        assert(p.take(i + 1).map_values(|q: Seq<char>| without_cr(q)) =~= p.take(i as int).map_values(
            |q: Seq<char>| without_cr(q),
        ).push(without_cr(p[i as int])));
        i = i + 1;
    }
    let last = pieces[n - 1].clone();
    if last.as_str().is_empty() {
        out
    } else {
        let ghost before = out@;
        out.push(last);
        assert(views(out@) =~= views(before).push(p.last()));
        out
    }
}

/// What to read from the clipboard, given the listing of the types it offers
/// (one per line): `None` to skip the clip, which is either marked secret or
/// offers neither text nor an image.
pub fn read_current(listing: &str) -> (r: Option<ReadRequest>)
    ensures
        match r {
            None => read_plan(lines_of(listing@)) is None,
            Some(ReadRequest::Text) => read_plan(lines_of(listing@)) == Some(None::<Seq<char>>),
            Some(ReadRequest::Image(t)) => read_plan(lines_of(listing@)) == Some(Some(t@)),
        },
{
    let owned_lines = lines(listing);
    let mut types: Vec<&str> = Vec::new();
    let mut i: usize = 0;
    while i < owned_lines.len()
        invariant
            i <= owned_lines.len(),
            types.len() == i,
            forall|j: int| 0 <= j < i ==> types@[j]@ == owned_lines@[j]@,
        decreases owned_lines.len() - i,
    {
        types.push(owned_lines[i].as_str());
        i = i + 1;
    }
    assert(str_views(types@) =~= views(owned_lines@));
    if is_secret(types.as_slice()) {
        return None;
    }
    if has_text(types.as_slice()) {
        return Some(ReadRequest::Text);
    }
    match image_type(types.as_slice()) {
        Some(t) => Some(ReadRequest::Image(owned(t))),
        None => None,
    }
}

/// What is read from the clipboard, in terms of the offered types: nothing
/// when a type marks the clip secret; its text exactly when some type is plain
/// text (`text/plain...`, `UTF8_STRING`, `STRING` or `TEXT`); otherwise an
/// offered image type, `image/png` when offered, else the first `image/...`
/// type; nothing when no image type is offered either.
pub proof fn law_read_plan(types: Seq<Seq<char>>)
    ensures
        (exists|i: int| 0 <= i < types.len() && has_infix(#[trigger] types[i], "passwordManagerHint"@))
            ==> read_plan(types) is None,
        read_plan(types) == Some(None::<Seq<char>>) <==> (!(exists|i: int|
            0 <= i < types.len() && has_infix(#[trigger] types[i], "passwordManagerHint"@))
            && exists|i: int|
            0 <= i < types.len() && (has_prefix(#[trigger] types[i], "text/plain"@) || types[i]
                == "UTF8_STRING"@ || types[i] == "STRING"@ || types[i] == "TEXT"@)),
        forall|t: Seq<char>|
            read_plan(types) == Some(Some(t)) ==> {
                &&& exists|k: int| 0 <= k < types.len() && types[k] == t
                &&& has_prefix(t, "image/"@)
                &&& (exists|i: int| 0 <= i < types.len() && #[trigger] types[i] == "image/png"@)
                    ==> t == "image/png"@
                &&& !(exists|i: int| 0 <= i < types.len() && #[trigger] types[i] == "image/png"@)
                    ==> exists|k: int|
                    0 <= k < types.len() && types[k] == t && forall|j: int|
                        0 <= j < k ==> !has_prefix(#[trigger] types[j], "image/"@)
            },
        (!(exists|i: int|
            0 <= i < types.len() && has_infix(#[trigger] types[i], "passwordManagerHint"@))
            && !offers_text(types) && exists|i: int|
            0 <= i < types.len() && has_prefix(#[trigger] types[i], "image/"@))
            ==> read_plan(types) is Some && read_plan(types) != Some(None::<Seq<char>>),
{
    let png = wanted(true);
    let img = wanted(false);
    assert(has_prefix("image/png"@, "image/"@)) by {
        reveal_strlit("image/png");
        reveal_strlit("image/");
        assert("image/png"@.take(6) =~= "image/"@);
    }
    if exists|k: int| first_where(types, png, k) {
        let k = choose|k: int| first_where(types, png, k);
        assert(png(types[k]));
    }
    if exists|k: int| first_where(types, img, k) {
        let k = choose|k: int| first_where(types, img, k);
        assert(img(types[k]));
    }
    if exists|i: int| 0 <= i < types.len() && #[trigger] types[i] == "image/png"@ {
        let i = choose|i: int| 0 <= i < types.len() && #[trigger] types[i] == "image/png"@;
        lemma_first_exists(types, png, i);
    }
    if exists|i: int| 0 <= i < types.len() && has_prefix(#[trigger] types[i], "image/"@) {
        let i = choose|i: int| 0 <= i < types.len() && has_prefix(#[trigger] types[i], "image/"@);
        lemma_first_exists(types, img, i);
    }
}

/// When some type satisfies `p`, there is a first one.
proof fn lemma_first_exists(types: Seq<Seq<char>>, p: spec_fn(Seq<char>) -> bool, i: int)
    requires
        0 <= i < types.len(),
        p(types[i]),
    ensures
        exists|k: int| first_where(types, p, k),
    decreases i,
{
    if exists|j: int| 0 <= j < i && p(#[trigger] types[j]) {
        let j = choose|j: int| 0 <= j < i && p(#[trigger] types[j]);
        lemma_first_exists(types, p, j);
    } else {
        assert(first_where(types, p, i));
    }
}

} // verus!
