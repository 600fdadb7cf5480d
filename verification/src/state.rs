//! The clipboard history: what is kept, in which order it is shown, and how
//! new and re-copied clips enter it.

use vstd::prelude::*;

use crate::backend::WatchEvent;
use crate::models::{ClipItem, Settings};
use crate::text::{
    decimal, to_decimal, owned,
    chars_contain, chars_of, has_infix, is_blank, lemma_lower_keeps_infix, lemma_trimmed_within, lower,
    lower_text, trim, trimmed,
};

verus! {

/// Clips longer than this many bytes (UTF-8) are not recorded.
pub const MAX_ITEM_BYTES: usize = 200000;

/// The running state of the history.
pub struct AppState {
    /// The clips, oldest first, newest at the end.
    pub items: Vec<ClipItem>,
    /// The search text typed by the user.
    pub query: String,
    pub settings: Settings,
    /// The last clip seen on the clipboard or copied back from the history.
    pub last_clip: String,
}

// ---------------------------------------------------------------------------
// Model of the history
// ---------------------------------------------------------------------------

/// The number of unpinned clips in `s`.
pub open spec fn count_unpinned(s: Seq<ClipItem>) -> nat
    decreases s.len(),
{
    if s.len() == 0 {
        0
    } else {
        count_unpinned(s.drop_last()) + if s.last().pinned {
            0nat
        } else {
            1nat
        }
    }
}

/// Whether a clip is pinned.
pub open spec fn pinned() -> spec_fn(ClipItem) -> bool {
    |c: ClipItem| c.pinned
}

/// Whether a clip is unpinned.
pub open spec fn unpinned() -> spec_fn(ClipItem) -> bool {
    |c: ClipItem| !c.pinned
}

/// How many unpinned clips must go so that at most `max` remain.
pub open spec fn excess(s: Seq<ClipItem>, max: nat) -> nat {
    if count_unpinned(s) > max {
        (count_unpinned(s) - max) as nat
    } else {
        0
    }
}

/// `s` without its first (oldest) `e` unpinned clips: a clip stays when it is
/// pinned or when at least `e` unpinned clips come before it.
pub open spec fn drop_oldest_unpinned(s: Seq<ClipItem>, e: nat) -> Seq<ClipItem>
    decreases s.len(),
{
    if s.len() == 0 {
        s
    } else {
        let rest = drop_oldest_unpinned(s.drop_last(), e);
        if s.last().pinned || count_unpinned(s.drop_last()) >= e {
            rest.push(s.last())
        } else {
            rest
        }
    }
}

/// The history after trimming it to at most `max` unpinned clips.
pub open spec fn trimmed_items(s: Seq<ClipItem>, max: nat) -> Seq<ClipItem> {
    drop_oldest_unpinned(s, excess(s, max))
}

/// `p` is the first position of a clip whose text is `text`.
pub open spec fn first_with_text(s: Seq<ClipItem>, text: Seq<char>, p: int) -> bool {
    &&& 0 <= p < s.len()
    &&& s[p].text@ == text
    &&& forall|k: int| 0 <= k < p ==> s[k].text@ != text
}

/// Some clip of `s` has the text `text`.
pub open spec fn has_text_item(s: Seq<ClipItem>, text: Seq<char>) -> bool {
    exists|p: int| 0 <= p < s.len() && s[p].text@ == text
}

/// Clip `p` marked as used at `now`: its time becomes `now`, and an unpinned
/// clip moves to the end, where the newest clips are.
pub open spec fn touched(s: Seq<ClipItem>, p: int, now: u64) -> Seq<ClipItem> {
    let item = ClipItem { ts: now, ..s[p] };
    if s[p].pinned {
        s.update(p, item)
    } else {
        s.remove(p).push(item)
    }
}

/// The history after recording `text` at `now`, before trimming: a clip with
/// the same text is touched, otherwise a new unpinned clip is appended.
pub open spec fn added(s: Seq<ClipItem>, text: String, now: u64) -> Seq<ClipItem> {
    if has_text_item(s, text@) {
        touched(s, choose|p: int| first_with_text(s, text@, p), now)
    } else {
        s.push(ClipItem { text, pinned: false, ts: now })
    }
}

/// The UTF-8 length of `text` in bytes.
pub open spec fn byte_len(text: String) -> nat {
    vstd::utf8::encode_utf8(text@).len()
}

/// The state of the history as values: the model of [`AppState`].
pub struct StateView {
    pub items: Seq<ClipItem>,
    pub query: Seq<char>,
    pub settings: Settings,
    pub last_clip: Seq<char>,
}

impl View for AppState {
    type V = StateView;

    open spec fn view(&self) -> StateView {
        StateView {
            items: self.items@,
            query: self.query@,
            settings: self.settings,
            last_clip: self.last_clip@,
        }
    }
}

/// The history after recording `text` at `now` and trimming it.
pub open spec fn recorded(s: StateView, text: String, now: u64) -> Seq<ClipItem> {
    trimmed_items(added(s.items, text, now), s.settings.max_items as nat)
}

/// The state after a newly captured clip `text` arrives at `now`: blank text
/// and the last clip seen are skipped; oversized text is only remembered as the
/// last clip; anything else is remembered and recorded.
pub open spec fn after_ingest(s: StateView, text: String, now: u64) -> StateView {
    if trimmed(text@).len() == 0 || text@ == s.last_clip {
        s
    } else if byte_len(text) > MAX_ITEM_BYTES {
        StateView { last_clip: text@, ..s }
    } else {
        StateView { last_clip: text@, items: recorded(s, text, now), ..s }
    }
}

/// The state after clip `idx` was put back on the clipboard at `now`, when
/// that succeeded: it becomes the last clip, and is touched.
pub open spec fn after_copy(s: StateView, idx: int, now: u64) -> StateView {
    StateView { last_clip: s.items[idx].text@, items: touched(s.items, idx, now), ..s }
}

/// Clip `a` is shown before clip `b`: pinned clips first, then newer clips
/// first; clips alike in both keep their order in the history.
pub open spec fn shown_before(s: Seq<ClipItem>, a: int, b: int) -> bool {
    ||| s[a].pinned && !s[b].pinned
    ||| s[a].pinned == s[b].pinned && s[a].ts > s[b].ts
    ||| s[a].pinned == s[b].pinned && s[a].ts == s[b].ts && a < b
}

/// A clip whose lower-cased text is `text` matches the search `q` (already
/// trimmed and lower-cased): every clip matches an empty search.
pub open spec fn query_matches(text: Seq<char>, q: Seq<char>) -> bool {
    q.len() == 0 || has_infix(text, q)
}

/// `order` lists exactly the clips `i` of `s` for which `shown(i)` holds, each
/// once, in display order.
pub open spec fn is_display_order(
    s: Seq<ClipItem>,
    shown: spec_fn(int) -> bool,
    order: Seq<usize>,
) -> bool {
    &&& forall|k: int| 0 <= k < order.len() ==> order[k] < s.len() && shown(order[k] as int)
    &&& forall|i: int|
        0 <= i < s.len() && #[trigger] shown(i) ==> exists|k: int|
            0 <= k < order.len() && order[k] == i
    &&& forall|j: int, k: int|
        0 <= j < k < order.len() ==> shown_before(s, #[trigger] order[j] as int, #[trigger] order[k] as int)
}

/// The clips of `s` that the search text `query` selects.
pub open spec fn selected_by(s: Seq<ClipItem>, query: Seq<char>) -> spec_fn(int) -> bool {
    |i: int| query_matches(lower_text(s[i].text@), lower_text(trimmed(query)))
}

// ---------------------------------------------------------------------------
// Lemmas on the model
// ---------------------------------------------------------------------------

/// The first `k + 1` clips are the first `k` and clip `k`.
proof fn lemma_take_next(s: Seq<ClipItem>, k: int)
    requires
        0 <= k < s.len(),
    ensures
        s.take(k + 1).drop_last() == s.take(k),
        s.take(k + 1).last() == s[k],
{
    assert(s.take(k + 1).drop_last() =~= s.take(k));
}

/// Counting unpinned clips in a longer prefix gives no fewer.
proof fn lemma_count_prefix_mono(s: Seq<ClipItem>, j: int, k: int)
    requires
        0 <= j <= k <= s.len(),
    ensures
        count_unpinned(s.take(j)) <= count_unpinned(s.take(k)),
    decreases k - j,
{
    if j < k {
        lemma_count_prefix_mono(s, j, k - 1);
        lemma_take_next(s, k - 1);
    }
}

/// Once `e` unpinned clips have been passed, every later clip stays.
proof fn lemma_drop_rest_kept(s: Seq<ClipItem>, j: int, k: int, e: nat)
    requires
        0 <= j <= k <= s.len(),
        count_unpinned(s.take(j)) >= e,
    ensures
        drop_oldest_unpinned(s.take(k), e) == drop_oldest_unpinned(s.take(j), e) + s.subrange(
            j,
            k,
        ),
    decreases k - j,
{
    if j < k {
        lemma_drop_rest_kept(s, j, k - 1, e);
        lemma_take_next(s, k - 1);
        lemma_count_prefix_mono(s, j, k - 1);
        assert(s.subrange(j, k) =~= s.subrange(j, k - 1).push(s[k - 1]));
        assert(drop_oldest_unpinned(s.take(j), e) + s.subrange(j, k) =~= (drop_oldest_unpinned(
            s.take(j),
            e,
        ) + s.subrange(j, k - 1)).push(s[k - 1]));
    } else {
        assert(s.subrange(j, k) =~= Seq::<ClipItem>::empty());
        assert(drop_oldest_unpinned(s.take(j), e) + s.subrange(j, k) =~= drop_oldest_unpinned(
            s.take(j),
            e,
        ));
    }
}

/// There are no more unpinned clips than clips.
proof fn lemma_count_le_len(s: Seq<ClipItem>)
    ensures
        count_unpinned(s) <= s.len(),
    decreases s.len(),
{
    if s.len() > 0 {
        lemma_count_le_len(s.drop_last());
    }
}

/// Of two different clips, one is shown before the other.
proof fn lemma_shown_before_total(s: Seq<ClipItem>, a: int, b: int)
    requires
        a != b,
    ensures
        shown_before(s, a, b) || shown_before(s, b, a),
{
}

/// Display order is transitive.
proof fn lemma_shown_before_trans(s: Seq<ClipItem>, a: int, b: int, c: int)
    requires
        shown_before(s, a, b),
        shown_before(s, b, c),
    ensures
        shown_before(s, a, c),
{
}

// ---------------------------------------------------------------------------
// Operations
// ---------------------------------------------------------------------------

/// Whether clip `a` is shown before clip `b`.
fn before(items: &Vec<ClipItem>, a: usize, b: usize) -> (r: bool)
    requires
        a < items.len(),
        b < items.len(),
    ensures
        r == shown_before(items@, a as int, b as int),
{
    let x = &items[a];
    let y = &items[b];
    (x.pinned && !y.pinned) || (x.pinned == y.pinned && (x.ts > y.ts || (x.ts == y.ts && a < b)))
}

/// The display order of the clips whose lower-cased texts `lowered` match the
/// trimmed, lower-cased search `q`.
pub fn display_order(items: &Vec<ClipItem>, lowered: &Vec<String>, q: &str) -> (order: Vec<usize>)
    requires
        lowered.len() == items.len(),
    ensures
        is_display_order(items@, |i: int| query_matches(lowered@[i]@, q@), order@),
{
    let ghost shown = |i: int| query_matches(lowered@[i]@, q@);
    let qv = chars_of(q);
    let mut order: Vec<usize> = Vec::new();
    let mut i: usize = 0;
    while i < items.len()
        invariant
            lowered.len() == items.len(),
            qv@ == q@,
            shown == (|i: int| query_matches(lowered@[i]@, q@)),
            i <= items.len(),
            forall|k: int| 0 <= k < order.len() ==> order[k] < i && shown(order[k] as int),
            forall|x: int|
                0 <= x < i && #[trigger] shown(x) ==> exists|k: int|
                    0 <= k < order.len() && order[k] == x,
            forall|j: int, k: int|
                0 <= j < k < order.len() ==> shown_before(
                    items@,
                    #[trigger] order[j] as int,
                    #[trigger] order[k] as int,
                ),
        decreases items.len() - i,
    {
        let lv = chars_of(lowered[i].as_str());
        if qv.len() == 0 || chars_contain(&lv, &qv) {
            let mut p: usize = 0;
            while p < order.len() && !before(items, i, order[p])
                invariant
                    i < items.len(),
                    p <= order.len(),
                    forall|k: int| 0 <= k < order.len() ==> order[k] < i,
                    forall|k: int|
                        0 <= k < p ==> !shown_before(items@, i as int, #[trigger] order[k] as int),
                decreases order.len() - p,
            {
                p = p + 1;
            }
            let ghost old_order = order@;
            order.insert(p, i);
            proof {
                assert(shown(i as int));
                assert forall|j: int, k: int| 0 <= j < k < order.len() implies shown_before(
                    items@,
                    #[trigger] order[j] as int,
                    #[trigger] order[k] as int,
                ) by {
                    if k < p {
                    } else if j > p {
                        assert(order[j] == old_order[j - 1]);
                        assert(order[k] == old_order[k - 1]);
                    } else if j == p {
                        assert(order[k] == old_order[k - 1]);
                        if k - 1 > p {
                            lemma_shown_before_trans(
                                items@,
                                i as int,
                                old_order[p as int] as int,
                                old_order[k - 1] as int,
                            );
                        }
                    } else {
                        // j < p
                        if k == p {
                            assert(!shown_before(items@, i as int, old_order[j] as int));
                            lemma_shown_before_total(items@, i as int, old_order[j] as int);
                        } else {
                            assert(order[k] == old_order[k - 1]);
                        }
                    }
                }
                assert forall|x: int| 0 <= x < i + 1 && #[trigger] shown(x) implies exists|k: int|
                    0 <= k < order.len() && order[k] == x by {
                    if x == i {
                        assert(order[p as int] == i);
                    } else {
                        let k0 = choose|k: int| 0 <= k < old_order.len() && old_order[k] == x;
                        if k0 < p {
                            assert(order[k0] == x);
                        } else {
                            assert(order[k0 + 1] == x);
                        }
                    }
                }
            }
        } else {
            proof {
                assert(!shown(i as int));
            }
        }
        i = i + 1;
    }
    order
}

/// The number of unpinned clips in `items`.
fn unpinned_in(items: &Vec<ClipItem>) -> (n: usize)
    ensures
        n == count_unpinned(items@),
{
    let mut n: usize = 0;
    let mut k: usize = 0;
    while k < items.len()
        invariant
            k <= items.len(),
            n <= k,
            n == count_unpinned(items@.take(k as int)),
        decreases items.len() - k,
    {
        proof {
            lemma_take_next(items@, k as int);
        }
        if !items[k].pinned {
            n = n + 1;
        }
        k = k + 1;
    }
    assert(items@.take(items.len() as int) == items@);
    n
}

/// Marks clip `p` as used at `now` (see [`touched`]).
fn touch(items: &mut Vec<ClipItem>, p: usize, now: u64)
    requires
        p < old(items).len(),
    ensures
        final(items)@ == touched(old(items)@, p as int, now),
{
    let ghost s = items@;
    let mut item = items.remove(p);
    item.ts = now;
    if item.pinned {
        items.insert(p, item);
        assert(items@ =~= s.update(p as int, ClipItem { ts: now, ..s[p as int] }));
    } else {
        items.push(item);
    }
}

impl AppState {
    /// Drops the oldest unpinned clips until at most `settings.max_items`
    /// unpinned clips remain; pinned clips always stay.
    pub fn trim(&mut self)
        ensures
            final(self)@ == (StateView {
                items: trimmed_items(old(self).items@, old(self).settings.max_items as nat),
                ..old(self)@
            }),
    {
        let max = self.settings.max_items;
        let mut unpinned = unpinned_in(&self.items);
        let ghost orig = self.items@;
        let ghost e = excess(orig, max as nat);
        let mut i: usize = 0;
        let ghost mut j: int = 0;
        assert(orig.take(0) =~= Seq::<ClipItem>::empty());
        assert(orig.skip(0) =~= orig);
        while i < self.items.len() && unpinned > max
            invariant
                0 <= j <= orig.len(),
                e == excess(orig, max as nat),
                max == self.settings.max_items,
                count_unpinned(orig.take(j)) <= e,
                unpinned + count_unpinned(orig.take(j)) == count_unpinned(orig),
                drop_oldest_unpinned(orig.take(j), e).len() == i,
                self.items@ == drop_oldest_unpinned(orig.take(j), e) + orig.skip(j),
                self.settings == old(self).settings,
                self.query == old(self).query,
                self.last_clip == old(self).last_clip,
            decreases self.items.len() - i,
        {
            let ghost d = drop_oldest_unpinned(orig.take(j), e);
            proof {
                lemma_take_next(orig, j);
                assert(self.items@[i as int] == orig[j]);
            }
            if self.items[i].pinned {
                i = i + 1;
                proof {
                    assert(d.push(orig[j]) + orig.skip(j + 1) =~= d + orig.skip(j));
                    j = j + 1;
                }
            } else {
                self.items.remove(i);
                unpinned = unpinned - 1;
                proof {
                    assert(d + orig.skip(j + 1) =~= (d + orig.skip(j)).remove(i as int));
                    j = j + 1;
                }
            }
        }
        proof {
            if j < orig.len() {
                lemma_drop_rest_kept(orig, j, orig.len() as int, e);
                assert(orig.subrange(j, orig.len() as int) =~= orig.skip(j));
            }
            assert(orig.take(orig.len() as int) =~= orig);
        }
    }

    /// Records `text`, copied at `now`: a clip with the same text gets the new
    /// time (and, unless pinned, moves to the newest place); otherwise a new
    /// unpinned clip is appended. The history is then trimmed.
    pub fn add_clip(&mut self, text: String, now: u64)
        ensures
            final(self)@ == (StateView { items: recorded(old(self)@, text, now), ..old(self)@ }),
    {
        let ghost s = self.items@;
        let mut pos: usize = 0;
        while pos < self.items.len() && !(self.items[pos].text == text)
            invariant
                self.items@ == s,
                pos <= self.items.len(),
                forall|k: int| 0 <= k < pos ==> s[k].text@ != text@,
            decreases self.items.len() - pos,
        {
            pos = pos + 1;
        }
        if pos < self.items.len() {
            proof {
                assert(first_with_text(s, text@, pos as int));
                let p = choose|p: int| first_with_text(s, text@, p);
                assert(p == pos as int) by {
                    if p < pos as int {
                        assert(s[p].text@ != text@);
                    } else if p > pos as int {
                        assert(s[pos as int].text@ != text@);
                    }
                }
            }
            touch(&mut self.items, pos, now);
        } else {
            self.items.push(ClipItem { text, pinned: false, ts: now });
        }
        self.trim();
    }

    /// The clips to show, as positions in `items`: those whose text contains
    /// the trimmed search text, ignoring case (all of them for an empty
    /// search); pinned first, then newest first.
    pub fn display_indices(&self) -> (order: Vec<usize>)
        ensures
            is_display_order(self.items@, selected_by(self.items@, self.query@), order@),
    {
        let tq = trim(self.query.as_str());
        let q = lower(tq.as_str());
        let mut lowered: Vec<String> = Vec::new();
        let mut i: usize = 0;
        while i < self.items.len()
            invariant
                i <= self.items.len(),
                lowered.len() == i,
                forall|k: int| 0 <= k < i ==> lowered@[k]@ == lower_text(self.items@[k].text@),
            decreases self.items.len() - i,
        {
            lowered.push(lower(self.items[i].text.as_str()));
            i = i + 1;
        }
        let order = display_order(&self.items, &lowered, q.as_str());
        proof {
            let a = |i: int| query_matches(lowered@[i]@, q@);
            let b = selected_by(self.items@, self.query@);
            assert forall|i: int| 0 <= i < self.items.len() implies #[trigger] a(i) == b(i) by {}
            assert forall|k: int| 0 <= k < order@.len() implies order@[k] < self.items@.len()
                && b(order@[k] as int) by {
                assert(a(order@[k] as int));
            }
            assert forall|i: int| 0 <= i < self.items@.len() && #[trigger] b(i) implies exists|k: int|
                0 <= k < order@.len() && order@[k] == i by {
                assert(a(i));
            }
        }
        order
    }

    /// The text of clip `idx`, the text to put on the clipboard to copy it.
    pub fn clip_text(&self, idx: usize) -> (r: Option<String>)
        ensures
            r == (if idx < self.items.len() {
                Some(self.items@[idx as int].text)
            } else {
                None
            }),
    {
        if idx < self.items.len() {
            Some(self.items[idx].text.clone())
        } else {
            None
        }
    }

    /// Finishes copying clip `idx` back to the clipboard at `now`; `written`
    /// tells whether its text was put on the clipboard. Returns true on
    /// success, when the clip exists and was written.
    pub fn copy(&mut self, idx: usize, written: bool, now: u64) -> (ok: bool)
        ensures
            ok == (idx < old(self).items.len() && written),
            ok ==> final(self)@ == after_copy(old(self)@, idx as int, now),
            !ok ==> final(self)@ == old(self)@,
    {
        if idx >= self.items.len() || !written {
            return false;
        }
        self.last_clip = self.items[idx].text.clone();
        touch(&mut self.items, idx, now);
        true
    }

    /// Flips the pin of clip `idx`, when there is such a clip.
    pub fn toggle_pin(&mut self, idx: usize)
        ensures
            final(self)@ == (if idx < old(self).items.len() {
                StateView {
                    items: old(self).items@.update(
                        idx as int,
                        ClipItem { pinned: !old(self).items@[idx as int].pinned, ..old(self).items@[idx as int] },
                    ),
                    ..old(self)@
                }
            } else {
                old(self)@
            }),
    {
        if idx < self.items.len() {
            let ghost s = self.items@;
            let mut item = self.items.remove(idx);
            item.pinned = !item.pinned;
            self.items.insert(idx, item);
            assert(self.items@ =~= s.update(idx as int, ClipItem { pinned: !s[idx as int].pinned, ..s[idx as int] }));
        }
    }

    /// Deletes clip `idx`, when there is such a clip.
    pub fn delete(&mut self, idx: usize)
        ensures
            final(self)@ == (if idx < old(self).items.len() {
                StateView { items: old(self).items@.remove(idx as int), ..old(self)@ }
            } else {
                old(self)@
            }),
    {
        if idx < self.items.len() {
            self.items.remove(idx);
        }
    }

    /// Deletes every unpinned clip.
    pub fn clear_unpinned(&mut self)
        ensures
            final(self)@ == (StateView {
                items: old(self).items@.filter(pinned()),
                ..old(self)@
            }),
    {
        broadcast use Seq::lemma_filter_push;

        let ghost orig = self.items@;
        let ghost keep = pinned();
        let mut i: usize = 0;
        let ghost mut j: int = 0;
        assert(orig.take(0) =~= Seq::<ClipItem>::empty());
        assert(orig.take(0).filter(keep) =~= Seq::<ClipItem>::empty()) by {
            reveal(Seq::filter);
        }
        assert(orig.skip(0) =~= orig);
        while i < self.items.len()
            invariant
                0 <= j <= orig.len(),
                keep == pinned(),
                orig.take(j).filter(keep).len() == i,
                self.items@ == orig.take(j).filter(keep) + orig.skip(j),
                self.settings == old(self).settings,
                self.query == old(self).query,
                self.last_clip == old(self).last_clip,
            decreases self.items.len() - i,
        {
            let ghost d = orig.take(j).filter(keep);
            proof {
                lemma_take_next(orig, j);
                assert(orig.take(j + 1) == orig.take(j).push(orig[j]));
                orig.take(j).lemma_filter_push(orig[j], keep);
                assert(self.items@[i as int] == orig[j]);
            }
            if self.items[i].pinned {
                i = i + 1;
                proof {
                    assert(d.push(orig[j]) + orig.skip(j + 1) =~= d + orig.skip(j));
                    j = j + 1;
                }
            } else {
                self.items.remove(i);
                proof {
                    assert(d + orig.skip(j + 1) =~= (d + orig.skip(j)).remove(i as int));
                    j = j + 1;
                }
            }
        }
        proof {
            assert(orig.take(orig.len() as int) =~= orig);
            assert(orig.skip(j) =~= Seq::<ClipItem>::empty());
            assert(self.items@ =~= orig.filter(keep));
        }
    }

    /// The window's subtitle: how many clips there are, and how many pinned.
    pub fn subtitle(&self) -> (t: String)
        ensures
            t@ == decimal(self.items.len() as nat) + " clips · "@ + decimal(
                (self.items.len() - count_unpinned(self.items@)) as nat,
            ) + " pinned"@,
    {
        let n = self.items.len();
        let unpinned = unpinned_in(&self.items);
        proof {
            lemma_count_le_len(self.items@);
        }
        let mut t = to_decimal(n as u64);
        t.append(" clips · ");
        t.append(to_decimal((n - unpinned) as u64).as_str());
        t.append(" pinned");
        t
    }

    /// Whether the window hides after a copy that `copied` tells the outcome of.
    pub fn hides_after_copy(&self, copied: bool) -> (b: bool)
        ensures
            b == (copied && self.settings.hide_after_copy),
    {
        copied && self.settings.hide_after_copy
    }

    /// Whether Escape hides the window (when the search is empty) rather than
    /// clearing the search.
    pub fn escape_hides(&self) -> (b: bool)
        ensures
            b == (self.query@.len() == 0),
    {
        self.query.as_str().is_empty()
    }

    /// Takes one event of the clipboard watcher, at `now`: a clip is ingested,
    /// an image is ignored. Returns whether the history may have changed and
    /// whether the watcher is still alive.
    pub fn take_watch_event(&mut self, event: WatchEvent, now: u64) -> (r: (bool, bool))
        ensures
            match event {
                WatchEvent::Clip(text) => final(self)@ == after_ingest(old(self)@, text, now) && r
                    == (true, true),
                WatchEvent::Image(_) => final(self)@ == old(self)@ && r == (false, true),
                WatchEvent::Dead => final(self)@ == old(self)@ && r == (false, false),
            },
    {
        match event {
            WatchEvent::Clip(text) => {
                self.ingest(text, now);
                (true, true)
            },
            WatchEvent::Image(_) => (false, true),
            WatchEvent::Dead => (false, false),
        }
    }

    /// Records a newly captured clip, skipping blank text, the clip seen last,
    /// and oversized text (see [`after_ingest`]).
    pub fn ingest(&mut self, text: String, now: u64)
        ensures
            final(self)@ == after_ingest(old(self)@, text, now),
    {
        if is_blank(text.as_str()) || text == self.last_clip {
            return ;
        }
        if text.as_str().as_bytes().len() > MAX_ITEM_BYTES {
            self.last_clip = text;
            return ;
        }
        self.last_clip = text.clone();
        self.add_clip(text, now);
    }
}

// ---------------------------------------------------------------------------
// Laws
// ---------------------------------------------------------------------------

proof fn lemma_drop_keeps_pinned(s: Seq<ClipItem>, e: nat)
    ensures
        drop_oldest_unpinned(s, e).filter(pinned()) == s.filter(pinned()),
    decreases s.len(),
{
    if s.len() > 0 {
        let t = s.drop_last();
        lemma_drop_keeps_pinned(t, e);
        t.lemma_filter_push(s.last(), pinned());
        drop_oldest_unpinned(t, e).lemma_filter_push(s.last(), pinned());
        assert(s == t.push(s.last()));
    } else {
        reveal(Seq::filter);
    }
}

proof fn lemma_filter_unpinned_len(s: Seq<ClipItem>)
    ensures
        s.filter(unpinned()).len() == count_unpinned(s),
    decreases s.len(),
{
    if s.len() > 0 {
        let t = s.drop_last();
        lemma_filter_unpinned_len(t);
        t.lemma_filter_push(s.last(), unpinned());
        assert(s == t.push(s.last()));
    } else {
        reveal(Seq::filter);
    }
}

proof fn lemma_drop_newest_unpinned(s: Seq<ClipItem>, e: nat)
    ensures
        drop_oldest_unpinned(s, e).filter(unpinned()) == s.filter(unpinned()).skip(
            if e <= count_unpinned(s) {
                e as int
            } else {
                count_unpinned(s) as int
            },
        ),
        count_unpinned(drop_oldest_unpinned(s, e)) == count_unpinned(s) - (if e
            <= count_unpinned(s) {
            e as int
        } else {
            count_unpinned(s) as int
        }),
    decreases s.len(),
{
    lemma_filter_unpinned_len(s);
    if s.len() > 0 {
        let t = s.drop_last();
        let x = s.last();
        lemma_drop_newest_unpinned(t, e);
        lemma_filter_unpinned_len(t);
        t.lemma_filter_push(x, unpinned());
        drop_oldest_unpinned(t, e).lemma_filter_push(x, unpinned());
        assert(s == t.push(x));
        assert(drop_oldest_unpinned(t, e).push(x).drop_last() == drop_oldest_unpinned(t, e));
        if !x.pinned && count_unpinned(t) >= e {
            assert(t.filter(unpinned()).skip(e as int).push(x) =~= t.filter(unpinned()).push(
                x,
            ).skip(e as int));
        }
        if !x.pinned && count_unpinned(t) < e {
            assert(t.filter(unpinned()).skip(count_unpinned(t) as int) =~= Seq::<
                ClipItem,
            >::empty());
            assert(t.filter(unpinned()).push(x).skip(count_unpinned(s) as int) =~= Seq::<
                ClipItem,
            >::empty());
        }
    } else {
        reveal(Seq::filter);
        assert(s.filter(unpinned()).skip(0) =~= s.filter(unpinned()));
    }
}

/// Trimming never drops a pinned clip: the pinned clips of the trimmed history
/// are those of the history, in the same order.
pub proof fn law_trim_keeps_pinned(s: Seq<ClipItem>, max: nat)
    ensures
        trimmed_items(s, max).filter(pinned()) == s.filter(pinned()),
{
    lemma_drop_keeps_pinned(s, excess(s, max));
}

/// Trimming keeps the newest unpinned clips: the unpinned clips that remain
/// are the last `max` of them (all of them when there are no more than `max`),
/// in the same order.
pub proof fn law_trim_keeps_newest(s: Seq<ClipItem>, max: nat)
    ensures
        count_unpinned(trimmed_items(s, max)) == (if count_unpinned(s) <= max {
            count_unpinned(s)
        } else {
            max
        }),
        trimmed_items(s, max).filter(unpinned()) == s.filter(unpinned()).skip(
            excess(s, max) as int,
        ),
{
    lemma_drop_newest_unpinned(s, excess(s, max));
}

proof fn lemma_drop_nothing(s: Seq<ClipItem>)
    ensures
        drop_oldest_unpinned(s, 0) == s,
    decreases s.len(),
{
    if s.len() > 0 {
        lemma_drop_nothing(s.drop_last());
        assert(s == s.drop_last().push(s.last()));
    }
}

/// Trimming twice is trimming once.
pub proof fn law_trim_idempotent(s: Seq<ClipItem>, max: nat)
    ensures
        trimmed_items(trimmed_items(s, max), max) == trimmed_items(s, max),
{
    law_trim_keeps_newest(s, max);
    lemma_drop_nothing(trimmed_items(s, max));
}

/// A clip that arrives twice in a row is recorded once: the second arrival
/// changes nothing, whatever its time.
pub proof fn law_ingest_twice(s: StateView, text: String, now1: u64, now2: u64)
    ensures
        after_ingest(after_ingest(s, text, now1), text, now2) == after_ingest(s, text, now1),
{
}

/// Copying a clip back makes it the last clip seen, so the clipboard change
/// that the copy itself causes is not recorded again.
pub proof fn law_copy_then_capture(s: StateView, idx: int, now: u64, text: String, later: u64)
    requires
        0 <= idx < s.items.len(),
        text@ == s.items[idx].text@,
    ensures
        after_ingest(after_copy(s, idx, now), text, later) == after_copy(s, idx, now),
{
}

/// No two clips of `s` have the same text.
pub open spec fn texts_distinct(s: Seq<ClipItem>) -> bool {
    forall|i: int, j: int| 0 <= i < j < s.len() ==> #[trigger] s[i].text@ != #[trigger] s[j].text@
}

proof fn lemma_first_exists(s: Seq<ClipItem>, text: Seq<char>)
    requires
        has_text_item(s, text),
    ensures
        exists|p: int| first_with_text(s, text, p),
    decreases s.len(),
{
    let t = s.drop_last();
    if has_text_item(t, text) {
        lemma_first_exists(t, text);
        let p = choose|p: int| first_with_text(t, text, p);
        assert(s[p] == t[p]);
        assert forall|k: int| 0 <= k < p implies s[k].text@ != text by {
            assert(s[k] == t[k]);
        }
        assert(first_with_text(s, text, p));
    } else {
        let p = s.len() - 1;
        let w = choose|w: int| 0 <= w < s.len() && s[w].text@ == text;
        if w < p {
            assert(t[w] == s[w]);
            assert(has_text_item(t, text));
        }
        assert forall|k: int| 0 <= k < p implies s[k].text@ != text by {
            assert(t[k] == s[k]);
            if s[k].text@ == text {
                assert(has_text_item(t, text));
            }
        }
        assert(first_with_text(s, text, p));
    }
}

proof fn lemma_drop_from(s: Seq<ClipItem>, e: nat)
    ensures
        forall|k: int|
            0 <= k < drop_oldest_unpinned(s, e).len() ==> exists|m: int|
                0 <= m < s.len() && #[trigger] drop_oldest_unpinned(s, e)[k] == s[m],
        texts_distinct(s) ==> texts_distinct(drop_oldest_unpinned(s, e)),
    decreases s.len(),
{
    if s.len() > 0 {
        let t = s.drop_last();
        let x = s.last();
        let d = drop_oldest_unpinned(t, e);
        lemma_drop_from(t, e);
        assert forall|k: int| 0 <= k < d.len() implies exists|m: int|
            0 <= m < s.len() && #[trigger] d[k] == s[m] by {
            let m = choose|m: int| 0 <= m < t.len() && d[k] == t[m];
            assert(s[m] == t[m]);
        }
        if x.pinned || count_unpinned(t) >= e {
            let r = d.push(x);
            assert forall|k: int| 0 <= k < r.len() implies exists|m: int|
                0 <= m < s.len() && #[trigger] r[k] == s[m] by {
                if k == d.len() {
                    assert(r[k] == s[s.len() - 1]);
                } else {
                    assert(r[k] == d[k]);
                }
            }
            if texts_distinct(s) {
                assert(texts_distinct(t)) by {
                    assert forall|i: int, j: int| 0 <= i < j < t.len() implies #[trigger] t[i].text@
                        != #[trigger] t[j].text@ by {
                        assert(s[i] == t[i] && s[j] == t[j]);
                    }
                }
                assert forall|i: int, j: int| 0 <= i < j < r.len() implies #[trigger] r[i].text@
                    != #[trigger] r[j].text@ by {
                    assert(r[i] == d[i]);
                    if j == d.len() {
                        assert(r[j] == s[s.len() - 1]);
                        let mt = choose|mt: int| 0 <= mt < t.len() && d[i] == t[mt];
                        assert(t[mt] == s[mt]);
                        assert(s[mt].text@ != s[s.len() - 1].text@);
                    } else {
                        assert(r[j] == d[j]);
                    }
                }
            }
        } else {
            if texts_distinct(s) {
                assert forall|i: int, j: int| 0 <= i < j < t.len() implies #[trigger] t[i].text@
                    != #[trigger] t[j].text@ by {
                    assert(s[i] == t[i] && s[j] == t[j]);
                }
            }
        }
    }
}

/// Recording keeps the texts of the history distinct: a text that is already
/// there is moved, not added again.
pub proof fn law_recorded_distinct(s: StateView, text: String, now: u64)
    requires
        texts_distinct(s.items),
    ensures
        texts_distinct(recorded(s, text, now)),
{
    let a = added(s.items, text, now);
    if has_text_item(s.items, text@) {
        lemma_first_exists(s.items, text@);
        let p = choose|p: int| first_with_text(s.items, text@, p);
        let item = ClipItem { ts: now, ..s.items[p] };
        if !s.items[p].pinned {
            let r = s.items.remove(p);
            assert forall|i: int, j: int| 0 <= i < j < a.len() implies #[trigger] a[i].text@
                != #[trigger] a[j].text@ by {
                let i0 = if i < p { i } else { i + 1 };
                assert(a[i] == s.items[i0]);
                if j == a.len() - 1 {
                    assert(a[j] == item);
                } else {
                    let j0 = if j < p { j } else { j + 1 };
                    assert(a[j] == s.items[j0]);
                }
            }
        } else {
            assert forall|i: int, j: int| 0 <= i < j < a.len() implies #[trigger] a[i].text@
                != #[trigger] a[j].text@ by {
                assert(a[i].text@ == s.items[i].text@);
                assert(a[j].text@ == s.items[j].text@);
            }
        }
    } else {
        assert forall|i: int, j: int| 0 <= i < j < a.len() implies #[trigger] a[i].text@
            != #[trigger] a[j].text@ by {
            assert(a[i] == s.items[i]);
            if j < s.items.len() {
                assert(a[j] == s.items[j]);
            } else {
                assert(a[j].text == text);
            }
        }
    }
    lemma_drop_from(a, excess(a, s.settings.max_items as nat));
}

/// With room for at least one unpinned clip, a clip recorded while not pinned
/// becomes the newest: the last clip has its text, is unpinned, and has the
/// time of the copy.
pub proof fn law_recorded_is_newest(s: StateView, text: String, now: u64)
    requires
        s.settings.max_items >= 1,
        forall|p: int| first_with_text(s.items, text@, p) ==> !s.items[p].pinned,
    ensures
        recorded(s, text, now).len() > 0,
        recorded(s, text, now).last().text@ == text@,
        !recorded(s, text, now).last().pinned,
        recorded(s, text, now).last().ts == now,
{
    let a = added(s.items, text, now);
    if has_text_item(s.items, text@) {
        lemma_first_exists(s.items, text@);
    }
    let x = a.drop_last();
    assert(a == x.push(a.last()));
    assert(!a.last().pinned);
    assert(count_unpinned(a) == count_unpinned(x) + 1);
    let e = excess(a, s.settings.max_items as nat);
    assert(count_unpinned(x) >= e);
}

/// Pinned clips are shown before unpinned ones.
pub proof fn law_pinned_first(s: Seq<ClipItem>, shown: spec_fn(int) -> bool, order: Seq<usize>)
    requires
        is_display_order(s, shown, order),
    ensures
        forall|j: int, k: int|
            #![trigger order[j], order[k]]
            0 <= j < k < order.len() && s[order[k] as int].pinned ==> s[order[j] as int].pinned,
{
    assert forall|j: int, k: int|
        #![trigger order[j], order[k]]
        0 <= j < k < order.len() && s[order[k] as int].pinned implies s[order[j] as int].pinned by {
        assert(shown_before(s, order[j] as int, order[k] as int));
    }
}

/// The display order is determined: two lists that both show the same clips
/// in display order are equal.
pub proof fn law_display_order_unique(
    s: Seq<ClipItem>,
    shown: spec_fn(int) -> bool,
    o1: Seq<usize>,
    o2: Seq<usize>,
)
    requires
        is_display_order(s, shown, o1),
        is_display_order(s, shown, o2),
    ensures
        o1 == o2,
    decreases o1.len(),
{
    if o1.len() == 0 {
        if o2.len() > 0 {
            assert(shown(o2[0] as int));
        }
        assert(o1 =~= o2);
    } else {
        assert(shown(o1[0] as int));
        let x = o1[0];
        if o2.len() == 0 {
            assert(false);
        }
        let y = o2[0];
        assert(shown(y as int));
        let k = choose|k: int| 0 <= k < o2.len() && o2[k] == x;
        let m = choose|m: int| 0 <= m < o1.len() && o1[m] == y;
        if k > 0 && m > 0 {
            assert(shown_before(s, o2[0] as int, o2[k] as int));
            assert(shown_before(s, o1[0] as int, o1[m] as int));
            assert(false);
        }
        assert(x == y);
        let shown2 = |i: int| shown(i) && i != x;
        let p1 = o1.drop_first();
        let p2 = o2.drop_first();
        assert forall|o: Seq<usize>| #[trigger] is_display_order(s, shown, o) && o.len() > 0 && o[0] == x
            implies is_display_order(s, shown2, o.drop_first()) by {
            let p = o.drop_first();
            assert forall|k: int| 0 <= k < p.len() implies p[k] < s.len() && shown2(p[k] as int) by {
                assert(p[k] == o[k + 1]);
                assert(shown_before(s, o[0] as int, o[k + 1] as int));
            }
            assert forall|i: int| 0 <= i < s.len() && #[trigger] shown2(i) implies exists|k: int|
                0 <= k < p.len() && p[k] == i by {
                assert(shown(i));
                let k = choose|k: int| 0 <= k < o.len() && o[k] == i;
                assert(p[k - 1] == i);
            }
            assert forall|j: int, k: int| 0 <= j < k < p.len() implies shown_before(
                s,
                #[trigger] p[j] as int,
                #[trigger] p[k] as int,
            ) by {
                assert(p[j] == o[j + 1] && p[k] == o[k + 1]);
            }
        }
        law_display_order_unique(s, shown2, p1, p2);
        assert(o1 =~= o2) by {
            assert forall|i: int| 0 <= i < o1.len() implies o1[i] == o2[i] by {
                if i > 0 {
                    assert(o1[i] == p1[i - 1]);
                    assert(o2[i] == p2[i - 1]);
                }
            }
        }
    }
}

/// Searching finds what the clips contain: on ASCII text, a clip whose text
/// contains the trimmed search text (in the same case) is shown.
pub proof fn law_search_finds_contained_text(s: Seq<ClipItem>, query: Seq<char>, i: int)
    requires
        0 <= i < s.len(),
        vstd::utf8::is_ascii_chars(s[i].text@),
        vstd::utf8::is_ascii_chars(query),
        has_infix(s[i].text@, trimmed(query)),
    ensures
        selected_by(s, query)(i),
{
    lemma_trimmed_within(query);
    let q = trimmed(query);
    assert(vstd::utf8::is_ascii_chars(q)) by {
        assert forall|k: int| 0 <= k < q.len() implies '\0' <= #[trigger] q[k] <= '\u{7f}' by {
            let j = choose|j: int| 0 <= j < query.len() && query[j] == q[k];
        }
    }
    lemma_lower_keeps_infix(s[i].text@, q);
}

/// An empty (or blank) search shows every clip.
pub proof fn law_blank_search_shows_all(s: Seq<ClipItem>, query: Seq<char>, i: int)
    requires
        0 <= i < s.len(),
        trimmed(query).len() == 0,
    ensures
        selected_by(s, query)(i),
{
    let q = trimmed(query);
    assert(vstd::utf8::is_ascii_chars(q));
    assert(lower_text(q).len() == 0);
}

/// Among clips with the same pin state, newer clips are shown first, and
/// clips of the same time keep their order in the history.
pub proof fn law_display_newest_first(s: Seq<ClipItem>, shown: spec_fn(int) -> bool, order: Seq<usize>)
    requires
        is_display_order(s, shown, order),
    ensures
        forall|j: int, k: int|
            #![trigger order[j], order[k]]
            0 <= j < k < order.len() && s[order[j] as int].pinned == s[order[k] as int].pinned
                ==> s[order[j] as int].ts > s[order[k] as int].ts || (s[order[j] as int].ts
                == s[order[k] as int].ts && order[j] < order[k]),
{
    assert forall|j: int, k: int|
        #![trigger order[j], order[k]]
        0 <= j < k < order.len() && s[order[j] as int].pinned == s[order[k] as int].pinned
            implies s[order[j] as int].ts > s[order[k] as int].ts || (s[order[j] as int].ts
            == s[order[k] as int].ts && order[j] < order[k]) by {
        assert(shown_before(s, order[j] as int, order[k] as int));
    }
}

/// Display order compares clips by pin state, then time, then place: a pinned
/// clip goes before an unpinned one, and of two clips with the same pin state
/// the newer goes first.
pub proof fn law_shown_before_order(s: Seq<ClipItem>, a: int, b: int)
    ensures
        s[a].pinned && !s[b].pinned ==> shown_before(s, a, b) && !shown_before(s, b, a),
        s[a].pinned == s[b].pinned && s[a].ts > s[b].ts ==> shown_before(s, a, b) && !shown_before(s, b, a),
        s[a].pinned == s[b].pinned && s[a].ts == s[b].ts ==> (shown_before(s, a, b) <==> a < b),
{
}

/// Text longer than `MAX_ITEM_BYTES` bytes never enters the history; it only
/// becomes the last clip seen.
pub proof fn law_oversized_not_recorded(s: StateView, text: String, now: u64)
    requires
        byte_len(text) > MAX_ITEM_BYTES,
    ensures
        after_ingest(s, text, now).items == s.items,
        after_ingest(s, text, now).settings == s.settings,
        after_ingest(s, text, now).query == s.query,
{
}

/// A new clip that is not blank, not the last one seen and not oversized is
/// recorded as the newest clip (given room for one unpinned clip, and unless
/// its text is pinned already), and becomes the last clip seen.
pub proof fn law_ingest_records_new_clip(s: StateView, text: String, now: u64)
    requires
        trimmed(text@).len() > 0,
        text@ != s.last_clip,
        byte_len(text) <= MAX_ITEM_BYTES,
        s.settings.max_items >= 1,
        forall|p: int| first_with_text(s.items, text@, p) ==> !s.items[p].pinned,
    ensures
        after_ingest(s, text, now).last_clip == text@,
        after_ingest(s, text, now).items.len() > 0,
        after_ingest(s, text, now).items.last().text@ == text@,
        after_ingest(s, text, now).items.last().ts == now,
        !after_ingest(s, text, now).items.last().pinned,
{
    law_recorded_is_newest(s, text, now);
}

} // verus!
