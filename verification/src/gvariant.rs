//! GVariant string arrays, as `gsettings` prints and reads them:
//! `['a', 'b']`, and `@as []` for the empty array.

use vstd::prelude::*;

use crate::text::{lemma_split_nonempty, lemma_split_pieces_lack_sep, owned, split_by, split_on, views};

verus! {

// ---------------------------------------------------------------------------
// Model
// ---------------------------------------------------------------------------

/// The items of a GVariant string array: every second piece between single
/// quotes, starting with the second.
pub open spec fn parsed_list(s: Seq<char>) -> Seq<Seq<char>> {
    let pieces = split_on(s, '\'');
    Seq::new(pieces.len() / 2, |k: int| pieces[2 * k + 1])
}

/// `item` between single quotes.
pub open spec fn quoted(item: Seq<char>) -> Seq<char> {
    seq!['\''] + item + seq!['\'']
}

/// The quoted items, separated by a comma and a space.
pub open spec fn joined(items: Seq<Seq<char>>) -> Seq<char>
    decreases items.len(),
{
    if items.len() == 0 {
        Seq::empty()
    } else if items.len() == 1 {
        quoted(items[0])
    } else {
        joined(items.drop_last()) + seq![',', ' '] + quoted(items.last())
    }
}

/// The GVariant notation of a string array.
pub open spec fn formatted_list(items: Seq<Seq<char>>) -> Seq<char> {
    if items.len() == 0 {
        "@as []"@
    } else {
        seq!['['] + joined(items) + seq![']']
    }
}

// ---------------------------------------------------------------------------
// Operations
// ---------------------------------------------------------------------------

/// Parses a GVariant string array such as `['a', 'b']` or `@as []` into its
/// items: the text between each pair of single quotes.
pub fn parse_list(s: &str) -> (items: Vec<String>)
    ensures
        views(items@) == parsed_list(s@),
{
    let pieces = split_by(s, '\'');
    let ghost all = split_on(s@, '\'');
    let n = pieces.len() / 2;
    let mut items: Vec<String> = Vec::new();
    let mut k: usize = 0;
    while k < n
        invariant
            n == pieces.len() / 2,
            views(pieces@) == all,
            k <= n,
            items.len() == k,
            forall|j: int| 0 <= j < k ==> items@[j]@ == all[2 * j + 1],
        decreases n - k,
    {
        items.push(pieces[2 * k + 1].clone());
        k = k + 1;
    }
    assert(views(items@) =~= parsed_list(s@));
    items
}

/// Writes `items` as a GVariant string array: `['a', 'b']`, or `@as []` when
/// there are none.
pub fn format_list(items: &[String]) -> (s: String)
    ensures
        s@ == formatted_list(views(items@)),
{
    if items.len() == 0 {
        return owned("@as []");
    }
    let ghost all = views(items@);
    let mut out = String::new();
    out.push('[');
    let mut k: usize = 0;
    assert(all.take(0) =~= Seq::<Seq<char>>::empty());
    while k < items.len()
        invariant
            all == views(items@),
            k <= items.len(),
            out@ == seq!['['] + joined(all.take(k as int)),
        decreases items.len() - k,
    {
        proof {
            assert(all.take(k + 1).drop_last() =~= all.take(k as int));
        }
        if k > 0 {
            out.push(',');
            out.push(' ');
        }
        out.push('\'');
        out.append(items[k].as_str());
        out.push('\'');
        proof {
            if k == 0 {
                assert(out@ =~= seq!['['] + joined(all.take(1)));
            } else {
                assert(out@ =~= seq!['['] + joined(all.take(k + 1)));
            }
        }
        k = k + 1;
    }
    out.push(']');
    assert(all.take(items.len() as int) =~= all);
    out
}

// ---------------------------------------------------------------------------
// Round trip
// ---------------------------------------------------------------------------

/// Appending the separator starts a new, empty piece.
proof fn lemma_split_push_sep(x: Seq<char>, d: char)
    ensures
        split_on(x.push(d), d) == split_on(x, d).push(Seq::empty()),
{
    assert(x.push(d).drop_last() =~= x);
}

/// Appending text without the separator extends the last piece.
proof fn lemma_split_append(x: Seq<char>, y: Seq<char>, d: char)
    requires
        !y.contains(d),
    ensures
        split_on(x + y, d) == split_on(x, d).update(
            split_on(x, d).len() - 1,
            split_on(x, d).last() + y,
        ),
    decreases y.len(),
{
    lemma_split_nonempty(x, d);
    let sx = split_on(x, d);
    if y.len() == 0 {
        assert(x + y =~= x);
        assert(sx.last() + y =~= sx.last());
        assert(sx.update(sx.len() - 1, sx.last() + y) =~= sx);
    } else {
        let y0 = y.drop_last();
        let c = y.last();
        assert(!y0.contains(d)) by {
            if y0.contains(d) {
                let i = choose|i: int| 0 <= i < y0.len() && y0[i] == d;
                assert(y[i] == d);
            }
        }
        assert(c != d) by {
            assert(y[y.len() - 1] == c);
        }
        lemma_split_append(x, y0, d);
        assert((x + y).drop_last() =~= x + y0);
        assert((x + y).last() == c);
        assert((sx.last() + y0).push(c) =~= sx.last() + y);
        assert(split_on(x + y, d) =~= sx.update(sx.len() - 1, sx.last() + y));
    }
}

/// The pieces of `[` followed by the first `n` quoted items: `[`, then each
/// item and the separator after it, the last piece being empty.
pub open spec fn pieces_of_prefix(items: Seq<Seq<char>>, n: int) -> Seq<Seq<char>> {
    Seq::new(
        (2 * n + 1) as nat,
        |j: int|
            if j == 0 {
                seq!['[']
            } else if j % 2 == 1 {
                items[(j - 1) / 2]
            } else if j == 2 * n {
                Seq::empty()
            } else {
                seq![',', ' ']
            },
    )
}

proof fn lemma_split_prefix(items: Seq<Seq<char>>, n: int)
    requires
        1 <= n <= items.len(),
        forall|i: int| 0 <= i < items.len() ==> !items[i].contains('\''),
    ensures
        split_on(seq!['['] + joined(items.take(n)), '\'') == pieces_of_prefix(items, n),
    decreases n,
{
    let q = '\'';
    let open_bracket: Seq<char> = seq!['['];
    assert(!open_bracket.contains(q)) by {
        if open_bracket.contains(q) {
            let i = choose|i: int| 0 <= i < open_bracket.len() && open_bracket[i] == q;
        }
    }
    assert(split_on(Seq::empty(), q) == seq![Seq::<char>::empty()]);
    lemma_split_append(Seq::empty(), open_bracket, q);
    assert(Seq::<char>::empty() + open_bracket =~= open_bracket);
    assert(Seq::<char>::empty() + open_bracket =~= open_bracket);
    let s_open = split_on(open_bracket, q);
    assert(s_open =~= seq![open_bracket]);
    if n == 1 {
        let i0 = items[0];
        assert(items.take(1).len() == 1 && items.take(1)[0] == i0);
        let a = open_bracket.push(q);
        let b = a + i0;
        let c = b.push(q);
        assert(open_bracket + joined(items.take(1)) =~= c);
        lemma_split_push_sep(open_bracket, q);
        lemma_split_append(a, i0, q);
        lemma_split_push_sep(b, q);
        assert(Seq::<char>::empty() + i0 =~= i0);
        assert(split_on(c, q) =~= pieces_of_prefix(items, 1));
    } else {
        lemma_split_prefix(items, n - 1);
        let prev = open_bracket + joined(items.take(n - 1));
        let comma: Seq<char> = seq![',', ' '];
        assert(!comma.contains(q)) by {
            if comma.contains(q) {
                let i = choose|i: int| 0 <= i < comma.len() && comma[i] == q;
            }
        }
        let item = items[n - 1];
        assert(items.take(n).drop_last() =~= items.take(n - 1));
        assert(items.take(n).last() == item);
        let a = prev + comma;
        let b = a.push(q);
        let c = b + item;
        let d = c.push(q);
        assert(open_bracket + joined(items.take(n)) =~= d);
        let e = pieces_of_prefix(items, n - 1);
        lemma_split_append(prev, comma, q);
        assert(Seq::<char>::empty() + comma =~= comma);
        lemma_split_push_sep(a, q);
        lemma_split_append(b, item, q);
        assert(Seq::<char>::empty() + item =~= item);
        lemma_split_push_sep(c, q);
        assert(split_on(d, q) =~= pieces_of_prefix(items, n));
    }
}

/// Reading back a written string array gives the items that were written, as
/// long as no item holds a single quote.
pub proof fn law_list_round_trip(items: Seq<Seq<char>>)
    requires
        forall|i: int| 0 <= i < items.len() ==> !items[i].contains('\''),
    ensures
        parsed_list(formatted_list(items)) == items,
{
    let q = '\'';
    if items.len() == 0 {
        reveal_strlit("@as []");
        let e: Seq<char> = "@as []"@;
        assert(!e.contains(q)) by {
            if e.contains(q) {
                let i = choose|i: int| 0 <= i < e.len() && e[i] == q;
            }
        }
        lemma_split_append(Seq::empty(), e, q);
        assert(Seq::<char>::empty() + e =~= e);
        assert(parsed_list(formatted_list(items)) =~= items);
    } else {
        let n = items.len() as int;
        lemma_split_prefix(items, n);
        assert(items.take(n) =~= items);
        let close: Seq<char> = seq![']'];
        assert(!close.contains(q)) by {
            if close.contains(q) {
                let i = choose|i: int| 0 <= i < close.len() && close[i] == q;
            }
        }
        lemma_split_append(seq!['['] + joined(items), close, q);
        assert(Seq::<char>::empty() + close =~= close);
        assert(parsed_list(formatted_list(items)) =~= items);
    }
}

/// The items read from a string array never hold a single quote.
pub proof fn lemma_parsed_items_unquoted(s: Seq<char>)
    ensures
        forall|i: int| 0 <= i < parsed_list(s).len() ==> !(#[trigger] parsed_list(s)[i]).contains('\''),
{
    lemma_split_pieces_lack_sep(s, '\'');
    let pieces = split_on(s, '\'');
    assert forall|i: int| 0 <= i < parsed_list(s).len() implies !(#[trigger] parsed_list(s)[i]).contains('\'') by {
        assert(parsed_list(s)[i] == pieces[2 * i + 1]);
    }
}

/// Reading a list, writing it back and reading it again gives the same items.
pub proof fn law_list_reread(s: Seq<char>)
    ensures
        parsed_list(formatted_list(parsed_list(s))) == parsed_list(s),
{
    lemma_parsed_items_unquoted(s);
    law_list_round_trip(parsed_list(s));
}

} // verus!
