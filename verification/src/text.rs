//! Character-level helpers on strings, with their mathematical models.

use vstd::prelude::*;
use vstd::std_specs::iter::IteratorSpec;

verus! {

// ---------------------------------------------------------------------------
// Models
// ---------------------------------------------------------------------------

/// Whether `c` has Unicode's White_Space property, the set that
/// `char::is_whitespace` tests.
pub open spec fn is_space(c: char) -> bool {
    let u = c as u32;
    ||| 0x9 <= u <= 0xd
    ||| u == 0x20
    ||| u == 0x85
    ||| u == 0xa0
    ||| u == 0x1680
    ||| 0x2000 <= u <= 0x200a
    ||| u == 0x2028
    ||| u == 0x2029
    ||| u == 0x202f
    ||| u == 0x205f
    ||| u == 0x3000
}

/// `s` without its leading white space.
pub open spec fn trim_start(s: Seq<char>) -> Seq<char>
    decreases s.len(),
{
    if s.len() > 0 && is_space(s[0]) {
        trim_start(s.drop_first())
    } else {
        s
    }
}

/// `s` without its trailing white space.
pub open spec fn trim_end(s: Seq<char>) -> Seq<char>
    decreases s.len(),
{
    if s.len() > 0 && is_space(s.last()) {
        trim_end(s.drop_last())
    } else {
        s
    }
}

/// `s` without white space at either end, as `str::trim` gives it.
pub open spec fn trimmed(s: Seq<char>) -> Seq<char> {
    trim_end(trim_start(s))
}

/// `p` is a prefix of `s`.
pub open spec fn has_prefix(s: Seq<char>, p: Seq<char>) -> bool {
    p.len() <= s.len() && s.take(p.len() as int) == p
}

/// `p` occurs in `s` at position `i`.
pub open spec fn occurs_at(s: Seq<char>, p: Seq<char>, i: int) -> bool {
    0 <= i && i + p.len() <= s.len() && s.subrange(i, i + p.len()) == p
}

/// `p` occurs somewhere in `s` (the empty string occurs everywhere).
pub open spec fn has_infix(s: Seq<char>, p: Seq<char>) -> bool {
    exists|i: int| occurs_at(s, p, i)
}

/// The code of `c` with ASCII upper-case letters mapped to lower case.
pub open spec fn ascii_lower(c: char) -> int {
    let u = c as u32;
    if 0x41 <= u <= 0x5a {
        u + 0x20
    } else {
        u as int
    }
}

/// `a` and `b` are equal up to ASCII case, as `str::eq_ignore_ascii_case` decides.
pub open spec fn same_ignoring_ascii_case(a: Seq<char>, b: Seq<char>) -> bool {
    a.len() == b.len() && forall|i: int| 0 <= i < a.len() ==> ascii_lower(a[i]) == ascii_lower(b[i])
}

/// The decimal digit for `d` in 0..10.
pub open spec fn digit(d: int) -> char {
    seq!['0', '1', '2', '3', '4', '5', '6', '7', '8', '9'][d]
}

/// The decimal notation of `n`, without leading zeros.
pub open spec fn decimal(n: nat) -> Seq<char>
    decreases n,
{
    if n < 10 {
        seq![digit(n as int)]
    } else {
        decimal(n / 10).push(digit((n % 10) as int))
    }
}

/// The views of a sequence of strings.
pub open spec fn views(v: Seq<String>) -> Seq<Seq<char>> {
    v.map_values(|s: String| s@)
}

/// The pieces of `s` between the occurrences of `d`, as `str::split` with a
/// character pattern yields them (there is always at least one piece).
pub open spec fn split_on(s: Seq<char>, d: char) -> Seq<Seq<char>>
    decreases s.len(),
{
    if s.len() == 0 {
        seq![Seq::empty()]
    } else {
        let rest = split_on(s.drop_last(), d);
        if s.last() == d {
            rest.push(Seq::empty())
        } else {
            rest.update(rest.len() - 1, rest.last().push(s.last()))
        }
    }
}

/// The lower-case form of a string as `str::to_lowercase` computes it (Unicode's
/// full case mapping, final sigma included): a function of the string alone.
pub uninterp spec fn lowercase(s: Seq<char>) -> Seq<char>;

/// `c` with an ASCII upper-case letter mapped to lower case.
pub open spec fn lower_char(c: char) -> char {
    if 'A' <= c <= 'Z' {
        ((c as u32) + 0x20) as char
    } else {
        c
    }
}

/// The lower-case form of `s` as `str::to_lowercase` gives it: on ASCII text,
/// each letter lowered one for one; on other text, the name `lowercase`.
pub open spec fn lower_text(s: Seq<char>) -> Seq<char> {
    if vstd::utf8::is_ascii_chars(s) {
        s.map_values(|c: char| lower_char(c))
    } else {
        lowercase(s)
    }
}

// ---------------------------------------------------------------------------
// Trusted items
// ---------------------------------------------------------------------------

/// `String::push` appends one character at the end.
pub assume_specification[ String::push ](s: &mut String, ch: char)
    ensures
        final(s)@ == old(s)@.push(ch),
;

/// Calls `str::to_lowercase`. The contract claims only that the result is the
/// name `lowercase` applied to the characters of the argument; which characters
/// it maps is left to that name. The library calls it only on non-ASCII text.
#[verifier::external_body]
pub(crate) fn to_lowercase(s: &str) -> (r: String)
    ensures
        r@ == lowercase(s@),
{
    s.to_lowercase()
}

// ---------------------------------------------------------------------------
// Conversions
// ---------------------------------------------------------------------------

/// The characters of `s`, in order.
pub fn chars_of(s: &str) -> (v: Vec<char>)
    ensures
        v@ == s@,
{
    let mut v: Vec<char> = Vec::new();
    let mut it = s.chars();
    loop
        invariant
            v@ + it.remaining() == s@,
        ensures
            v@ == s@,
        decreases s@.len() - v@.len(),
    {
        match it.next() {
            Some(c) => {
                v.push(c);
            },
            None => {
                break ;
            },
        }
    }
    v
}

/// The string made of the characters `v[from..to]`.
pub fn string_of_range(v: &Vec<char>, from: usize, to: usize) -> (s: String)
    requires
        from <= to <= v.len(),
    ensures
        s@ == v@.subrange(from as int, to as int),
{
    let mut s = String::new();
    let mut i: usize = from;
    while i < to
        invariant
            from <= i <= to <= v.len(),
            s@ == v@.subrange(from as int, i as int),
        decreases to - i,
    {
        s.push(v[i]);
        i = i + 1;
        assert(s@ == v@.subrange(from as int, i as int));
    }
    s
}

/// A copy of `s` as an owned string.
pub fn owned(s: &str) -> (r: String)
    ensures
        r@ == s@,
{
    s.to_owned()
}

// ---------------------------------------------------------------------------
// Predicates and transformations
// ---------------------------------------------------------------------------

/// There is always at least one piece.
pub proof fn lemma_split_nonempty(s: Seq<char>, d: char)
    ensures
        split_on(s, d).len() >= 1,
    decreases s.len(),
{
    if s.len() > 0 {
        lemma_split_nonempty(s.drop_last(), d);
    }
}

/// The pieces of `s` between the occurrences of `d` (`str::split` with a
/// character).
pub fn split_by(s: &str, d: char) -> (pieces: Vec<String>)
    ensures
        views(pieces@) == split_on(s@, d),
{
    let v = chars_of(s);
    let mut pieces: Vec<String> = Vec::new();
    let mut cur = String::new();
    let mut i: usize = 0;
    assert(v@.take(0) =~= Seq::<char>::empty());
    assert(views(pieces@).push(cur@) =~= split_on(v@.take(0), d));
    while i < v.len()
        invariant
            i <= v.len(),
            views(pieces@).push(cur@) == split_on(v@.take(i as int), d),
        decreases v.len() - i,
    {
        let ghost before = v@.take(i as int);
        let ghost now = v@.take(i + 1);
        proof {
            assert(now.drop_last() =~= before);
            lemma_split_nonempty(before, d);
        }
        let c = v[i];
        if c == d {
            let mut done = String::new();
            std::mem::swap(&mut done, &mut cur);
            pieces.push(done);
            assert(views(pieces@).push(cur@) =~= split_on(before, d).push(Seq::empty()));
        } else {
            let ghost old_pieces = pieces@;
            let ghost old_cur = cur@;
            cur.push(c);
            assert(views(pieces@).push(cur@) =~= views(old_pieces).push(old_cur).update(
                views(old_pieces).len() as int,
                old_cur.push(c),
            ));
        }
        i = i + 1;
    }
    let ghost before = pieces@;
    pieces.push(cur);
    proof {
        assert(v@.take(v.len() as int) =~= v@);
        assert(views(pieces@) =~= views(before).push(cur@));
    }
    pieces
}

/// `c` with ASCII upper case lowered.
fn lower_ascii(c: char) -> (r: char)
    ensures
        r == lower_char(c),
{
    if 'A' <= c && c <= 'Z' {
        ((c as u8) + 0x20) as char
    } else {
        c
    }
}

/// The lower-case form of `s` (`str::to_lowercase`): ASCII text is lowered
/// here, other text by the standard library.
pub fn lower(s: &str) -> (r: String)
    ensures
        r@ == lower_text(s@),
{
    if s.is_ascii() {
        let v = chars_of(s);
        let mut r = String::new();
        let mut i: usize = 0;
        while i < v.len()
            invariant
                i <= v.len(),
                r@ == v@.take(i as int).map_values(|c: char| lower_char(c)),
            decreases v.len() - i,
        {
            r.push(lower_ascii(v[i]));
            i = i + 1;
            assert(r@ =~= v@.take(i as int).map_values(|c: char| lower_char(c)));
        }
        assert(v@.take(v.len() as int) =~= v@);
        r
    } else {
        to_lowercase(s)
    }
}

/// Whether `c` is white space (`char::is_whitespace`).
pub fn is_whitespace(c: char) -> (b: bool)
    ensures
        b == is_space(c),
{
    let u = c as u32;
    (0x9 <= u && u <= 0xd) || u == 0x20 || u == 0x85 || u == 0xa0 || u == 0x1680 || (0x2000
        <= u && u <= 0x200a) || u == 0x2028 || u == 0x2029 || u == 0x202f || u == 0x205f || u
        == 0x3000
}

/// The bounds of `v` without white space at either end.
pub fn trim_bounds(v: &Vec<char>) -> (r: (usize, usize))
    ensures
        r.0 <= r.1 <= v.len(),
        v@.subrange(r.0 as int, r.1 as int) == trimmed(v@),
{
    let n = v.len();
    let mut lo: usize = 0;
    assert(v@.skip(0) == v@);
    while lo < n && is_whitespace(v[lo])
        invariant
            lo <= n == v.len(),
            trim_start(v@) == trim_start(v@.skip(lo as int)),
        decreases n - lo,
    {
        assert(v@.skip(lo as int).drop_first() == v@.skip(lo + 1));
        lo = lo + 1;
    }
    let ghost t = v@.skip(lo as int);
    assert(trim_start(t) == t);
    assert(t == v@.subrange(lo as int, n as int));
    let mut hi: usize = n;
    while hi > lo && is_whitespace(v[hi - 1])
        invariant
            lo <= hi <= n == v.len(),
            trim_end(t) == trim_end(v@.subrange(lo as int, hi as int)),
        decreases hi,
    {
        assert(v@.subrange(lo as int, hi as int).drop_last() == v@.subrange(
            lo as int,
            hi - 1,
        ));
        hi = hi - 1;
    }
    (lo, hi)
}

/// `s` without white space at either end (`str::trim`).
pub fn trim(s: &str) -> (r: String)
    ensures
        r@ == trimmed(s@),
{
    let v = chars_of(s);
    let (lo, hi) = trim_bounds(&v);
    string_of_range(&v, lo, hi)
}

/// Whether `s` is empty or all white space.
pub fn is_blank(s: &str) -> (b: bool)
    ensures
        b == (trimmed(s@).len() == 0),
{
    let v = chars_of(s);
    let (lo, hi) = trim_bounds(&v);
    lo == hi
}

/// Whether `p` occurs in `s` at position `at`.
pub fn occurs_at_pos(s: &Vec<char>, p: &Vec<char>, at: usize) -> (b: bool)
    ensures
        b == occurs_at(s@, p@, at as int),
{
    if at > s.len() || p.len() > s.len() - at {
        return false;
    }
    let mut k: usize = 0;
    while k < p.len()
        invariant
            at + p.len() <= s.len(),
            k <= p.len(),
            forall|j: int| 0 <= j < k ==> s@[at + j] == p@[j],
        decreases p.len() - k,
    {
        if s[at + k] != p[k] {
            assert(s@.subrange(at as int, at + p.len())[k as int] != p@[k as int]);
            return false;
        }
        k = k + 1;
    }
    assert(s@.subrange(at as int, at + p.len()) == p@);
    true
}

/// Whether `a` and `b` are the same text (`==` on `str`).
pub fn same_text(a: &str, b: &str) -> (r: bool)
    ensures
        r == (a@ == b@),
{
    let av = chars_of(a);
    let bv = chars_of(b);
    if av.len() != bv.len() {
        return false;
    }
    let r = occurs_at_pos(&av, &bv, 0);
    proof {
        if r {
            assert(av@.subrange(0, bv@.len() as int) =~= av@);
        } else {
            assert(av@.subrange(0, bv@.len() as int) =~= av@);
        }
    }
    r
}

/// Whether `p` is a prefix of `s` (`str::starts_with`).
pub fn starts_with(s: &str, p: &str) -> (b: bool)
    ensures
        b == has_prefix(s@, p@),
{
    let sv = chars_of(s);
    let pv = chars_of(p);
    occurs_at_pos(&sv, &pv, 0)
}

/// Whether `p` occurs in `sv`.
pub fn chars_contain(sv: &Vec<char>, pv: &Vec<char>) -> (b: bool)
    ensures
        b == has_infix(sv@, pv@),
{
    if pv.len() > sv.len() {
        return false;
    }
    if pv.len() == 0 {
        assert(sv@.subrange(0, 0) =~= pv@);
        assert(occurs_at(sv@, pv@, 0));
        return true;
    }
    let last = sv.len() - pv.len();
    let mut i: usize = 0;
    while i <= last
        invariant
            last + pv.len() == sv.len(),
            pv.len() > 0,
            forall|j: int| 0 <= j < i ==> !occurs_at(sv@, pv@, j),
        decreases last + 1 - i,
    {
        if occurs_at_pos(sv, pv, i) {
            return true;
        }
        i = i + 1;
    }
    false
}

/// Whether `p` occurs in `s` (`str::contains` with a string pattern).
pub fn contains_text(s: &str, p: &str) -> (b: bool)
    ensures
        b == has_infix(s@, p@),
{
    let sv = chars_of(s);
    let pv = chars_of(p);
    chars_contain(&sv, &pv)
}

/// The code of `c` with ASCII upper case folded to lower case.
fn ascii_lower_code(c: char) -> (r: u32)
    ensures
        r == ascii_lower(c),
{
    let u = c as u32;
    if 0x41 <= u && u <= 0x5a {
        u + 0x20
    } else {
        u
    }
}

/// Whether `a` and `b` are equal up to ASCII case (`str::eq_ignore_ascii_case`).
pub fn eq_ignore_ascii_case(a: &str, b: &str) -> (r: bool)
    ensures
        r == same_ignoring_ascii_case(a@, b@),
{
    let av = chars_of(a);
    let bv = chars_of(b);
    if av.len() != bv.len() {
        return false;
    }
    let mut i: usize = 0;
    while i < av.len()
        invariant
            av@ == a@,
            bv@ == b@,
            av.len() == bv.len(),
            i <= av.len(),
            forall|j: int| 0 <= j < i ==> ascii_lower(av@[j]) == ascii_lower(bv@[j]),
        decreases av.len() - i,
    {
        if ascii_lower_code(av[i]) != ascii_lower_code(bv[i]) {
            assert(ascii_lower(a@[i as int]) != ascii_lower(b@[i as int]));
            assert(!same_ignoring_ascii_case(a@, b@));
            return false;
        }
        i = i + 1;
    }
    true
}

/// The digit character for `d`.
fn digit_char(d: u64) -> (c: char)
    requires
        d < 10,
    ensures
        c == digit(d as int),
{
    if d == 0 {
        '0'
    } else if d == 1 {
        '1'
    } else if d == 2 {
        '2'
    } else if d == 3 {
        '3'
    } else if d == 4 {
        '4'
    } else if d == 5 {
        '5'
    } else if d == 6 {
        '6'
    } else if d == 7 {
        '7'
    } else if d == 8 {
        '8'
    } else {
        '9'
    }
}

/// The decimal notation of `n` (as `format!("{}", n)` writes it).
pub fn to_decimal(n: u64) -> (s: String)
    ensures
        s@ == decimal(n as nat),
    decreases n,
{
    if n < 10 {
        let mut s = String::new();
        s.push(digit_char(n));
        s
    } else {
        let mut s = to_decimal(n / 10);
        s.push(digit_char(n % 10));
        s
    }
}

// ---------------------------------------------------------------------------
// Lemmas
// ---------------------------------------------------------------------------

/// Every character of the trimmed text comes from the text.
pub proof fn lemma_trimmed_within(s: Seq<char>)
    ensures
        trimmed(s).len() <= s.len(),
        forall|i: int|
            0 <= i < trimmed(s).len() ==> exists|j: int| 0 <= j < s.len() && s[j] == #[trigger] trimmed(s)[i],
{
    lemma_trim_start_within(s);
    lemma_trim_end_within(trim_start(s));
    let a = trim_start(s);
    assert forall|i: int| 0 <= i < trimmed(s).len() implies exists|j: int|
        0 <= j < s.len() && s[j] == #[trigger] trimmed(s)[i] by {
        let k = choose|k: int| 0 <= k < a.len() && a[k] == trimmed(s)[i];
        let j = choose|j: int| 0 <= j < s.len() && s[j] == a[k];
    }
}

proof fn lemma_trim_start_within(s: Seq<char>)
    ensures
        trim_start(s).len() <= s.len(),
        forall|i: int|
            0 <= i < trim_start(s).len() ==> exists|j: int|
                0 <= j < s.len() && s[j] == #[trigger] trim_start(s)[i],
    decreases s.len(),
{
    if s.len() > 0 && is_space(s[0]) {
        let r = s.drop_first();
        lemma_trim_start_within(r);
        assert forall|i: int| 0 <= i < trim_start(s).len() implies exists|j: int|
            0 <= j < s.len() && s[j] == #[trigger] trim_start(s)[i] by {
            let k = choose|k: int| 0 <= k < r.len() && r[k] == trim_start(r)[i];
            assert(s[k + 1] == r[k]);
        }
    } else {
        assert forall|i: int| 0 <= i < trim_start(s).len() implies exists|j: int|
            0 <= j < s.len() && s[j] == #[trigger] trim_start(s)[i] by {
            assert(s[i] == trim_start(s)[i]);
        }
    }
}

proof fn lemma_trim_end_within(s: Seq<char>)
    ensures
        trim_end(s).len() <= s.len(),
        forall|i: int|
            0 <= i < trim_end(s).len() ==> exists|j: int|
                0 <= j < s.len() && s[j] == #[trigger] trim_end(s)[i],
    decreases s.len(),
{
    if s.len() > 0 && is_space(s.last()) {
        let r = s.drop_last();
        lemma_trim_end_within(r);
        assert forall|i: int| 0 <= i < trim_end(s).len() implies exists|j: int|
            0 <= j < s.len() && s[j] == #[trigger] trim_end(s)[i] by {
            let k = choose|k: int| 0 <= k < r.len() && r[k] == trim_end(r)[i];
            assert(s[k] == r[k]);
        }
    } else {
        assert forall|i: int| 0 <= i < trim_end(s).len() implies exists|j: int|
            0 <= j < s.len() && s[j] == #[trigger] trim_end(s)[i] by {
            assert(s[i] == trim_end(s)[i]);
        }
    }
}

/// Lowering ASCII text keeps every occurrence: if `p` occurs in `s`, the
/// lowered `p` occurs in the lowered `s`.
pub proof fn lemma_lower_keeps_infix(s: Seq<char>, p: Seq<char>)
    requires
        vstd::utf8::is_ascii_chars(s),
        vstd::utf8::is_ascii_chars(p),
        has_infix(s, p),
    ensures
        has_infix(lower_text(s), lower_text(p)),
{
    let i = choose|i: int| occurs_at(s, p, i);
    let ls = s.map_values(|c: char| lower_char(c));
    let lp = p.map_values(|c: char| lower_char(c));
    assert(ls.subrange(i, i + lp.len()) =~= lp);
    assert(occurs_at(ls, lp, i));
}
/// No piece contains the separator.
pub proof fn lemma_split_pieces_lack_sep(s: Seq<char>, d: char)
    ensures
        forall|i: int| 0 <= i < split_on(s, d).len() ==> !(#[trigger] split_on(s, d)[i]).contains(d),
    decreases s.len(),
{
    if s.len() > 0 {
        let t = s.drop_last();
        lemma_split_pieces_lack_sep(t, d);
        lemma_split_nonempty(t, d);
        let r = split_on(t, d);
        if s.last() != d {
            let l = r.last().push(s.last());
            assert(!l.contains(d)) by {
                if l.contains(d) {
                    let k = choose|k: int| 0 <= k < l.len() && l[k] == d;
                    assert(r.last()[k] == d);
                    assert(r[r.len() - 1].contains(d));
                }
            }
        } else {
            assert(!Seq::<char>::empty().contains(d));
        }
    }
}

/// The pieces joined again, with `d` between each two.
pub open spec fn rejoined(pieces: Seq<Seq<char>>, d: char) -> Seq<char>
    decreases pieces.len(),
{
    if pieces.len() == 0 {
        Seq::empty()
    } else if pieces.len() == 1 {
        pieces[0]
    } else {
        rejoined(pieces.drop_last(), d).push(d) + pieces.last()
    }
}

/// Splitting loses nothing: joining the pieces with the separator gives the
/// text back, and no piece holds the separator.
pub proof fn law_split_rejoins(s: Seq<char>, d: char)
    ensures
        rejoined(split_on(s, d), d) == s,
        forall|i: int| 0 <= i < split_on(s, d).len() ==> !(#[trigger] split_on(s, d)[i]).contains(d),
    decreases s.len(),
{
    lemma_split_pieces_lack_sep(s, d);
    if s.len() > 0 {
        let t = s.drop_last();
        let c = s.last();
        law_split_rejoins(t, d);
        lemma_split_nonempty(t, d);
        let r = split_on(t, d);
        if c == d {
            let r2 = r.push(Seq::empty());
            assert(r2.drop_last() =~= r);
            assert(rejoined(r2, d) =~= s);
        } else {
            let r2 = r.update(r.len() - 1, r.last().push(c));
            if r.len() == 1 {
                assert(rejoined(r2, d) =~= s);
            } else {
                assert(r2.drop_last() =~= r.drop_last());
                assert(rejoined(r2, d) =~= rejoined(r, d).push(c));
            }
        }
    } else {
        assert(rejoined(split_on(s, d), d) =~= s);
    }
}

proof fn lemma_trim_start_skip(s: Seq<char>)
    ensures
        exists|lo: int|
            0 <= lo <= s.len() && trim_start(s) == s.skip(lo) && (forall|i: int|
                0 <= i < lo ==> is_space(#[trigger] s[i])) && (lo < s.len() ==> !is_space(s[lo])),
    decreases s.len(),
{
    if s.len() > 0 && is_space(s[0]) {
        let r = s.drop_first();
        lemma_trim_start_skip(r);
        let lo = choose|lo: int|
            0 <= lo <= r.len() && trim_start(r) == r.skip(lo) && (forall|i: int|
                0 <= i < lo ==> is_space(#[trigger] r[i])) && (lo < r.len() ==> !is_space(r[lo]));
        assert(r.skip(lo) =~= s.skip(lo + 1));
        assert forall|i: int| 0 <= i < lo + 1 implies is_space(#[trigger] s[i]) by {
            if i > 0 {
                assert(s[i] == r[i - 1]);
            }
        }
        assert(lo + 1 < s.len() ==> s[lo + 1] == r[lo]);
    } else {
        assert(s.skip(0) =~= s);
    }
}

proof fn lemma_trim_end_take(s: Seq<char>)
    ensures
        exists|hi: int|
            0 <= hi <= s.len() && trim_end(s) == s.take(hi) && (forall|i: int|
                hi <= i < s.len() ==> is_space(#[trigger] s[i])) && (hi > 0 ==> !is_space(
                s[hi - 1],
            )),
    decreases s.len(),
{
    if s.len() > 0 && is_space(s.last()) {
        let r = s.drop_last();
        lemma_trim_end_take(r);
        let hi = choose|hi: int|
            0 <= hi <= r.len() && trim_end(r) == r.take(hi) && (forall|i: int|
                hi <= i < r.len() ==> is_space(#[trigger] r[i])) && (hi > 0 ==> !is_space(
                r[hi - 1],
            ));
        assert(r.take(hi) =~= s.take(hi));
        assert forall|i: int| hi <= i < s.len() implies is_space(#[trigger] s[i]) by {
            if i < s.len() - 1 {
                assert(s[i] == r[i]);
            }
        }
        assert(hi > 0 ==> s[hi - 1] == r[hi - 1]);
    } else {
        assert(s.take(s.len() as int) =~= s);
    }
}

/// Trimming removes white space at both ends and nothing else: the result is
/// a contiguous part of the text, everything before and after it is white
/// space, and it neither starts nor ends with white space.
pub proof fn law_trim_removes_only_edge_space(s: Seq<char>)
    ensures
        exists|lo: int, hi: int|
            0 <= lo <= hi <= s.len() && trimmed(s) == s.subrange(lo, hi) && (forall|i: int|
                0 <= i < lo ==> is_space(#[trigger] s[i])) && (forall|i: int|
                hi <= i < s.len() ==> is_space(#[trigger] s[i])) && (lo < hi ==> !is_space(s[lo])
                && !is_space(s[hi - 1])),
{
    lemma_trim_start_skip(s);
    let lo = choose|lo: int|
        0 <= lo <= s.len() && trim_start(s) == s.skip(lo) && (forall|i: int|
            0 <= i < lo ==> is_space(#[trigger] s[i])) && (lo < s.len() ==> !is_space(s[lo]));
    let t = s.skip(lo);
    lemma_trim_end_take(t);
    let h = choose|h: int|
        0 <= h <= t.len() && trim_end(t) == t.take(h) && (forall|i: int|
            h <= i < t.len() ==> is_space(#[trigger] t[i])) && (h > 0 ==> !is_space(t[h - 1]));
    let hi = lo + h;
    assert(t.take(h) =~= s.subrange(lo, hi));
    assert forall|i: int| hi <= i < s.len() implies is_space(#[trigger] s[i]) by {
        assert(s[i] == t[i - lo]);
    }
    if lo < hi {
        assert(s[lo] == t[0]);
        assert(s[hi - 1] == t[h - 1]);
    }
    assert(0 <= lo <= hi <= s.len() && trimmed(s) == s.subrange(lo, hi));
}

} // verus!
