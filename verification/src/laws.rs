//! Properties of the library that span several operations.

use crate::history::{HISTORY_LIMIT, is_new_copy, toggled, with_pin_toggled, with_recorded, without_content};
use crate::library::{DEFAULT_CATEGORY_COUNT, default_category_view, lemma_seeded_distinct_ids, seeded};
use crate::models::{
    Category, CategoryView, ClipboardItem, ClipboardItemView, PromptItem, PromptItemView,
    fits_sql_integer, is_storable_prompt,
};
use crate::table::{Row, has_key, in_listing_order, is_listing, keys_distinct};
use crate::text::{ellipsis, is_white_space, preview_of, trim, trim_end, trim_start};
use vstd::prelude::*;

verus! {

/// Toggling the pin of the same entry twice gives back the history as it
/// was.
pub proof fn lemma_toggle_pin_twice(s: Seq<ClipboardItemView>, id: Seq<char>)
    ensures
        toggled(toggled(s, id), id) == s,
{
    assert forall|i: int| 0 <= i < s.len() implies #[trigger] toggled(toggled(s, id), id)[i]
        == s[i] by {
        let v = s[i];
        assert(toggled(s, id)[i] == with_pin_toggled(v, id));
    }
    assert(toggled(toggled(s, id), id) =~= s);
}

/// After a copy is recorded, no other entry holds the same text.
pub proof fn lemma_recorded_text_held_once(
    before: Seq<ClipboardItemView>,
    item: ClipboardItemView,
    after: Seq<ClipboardItemView>,
)
    requires
        is_listing::<ClipboardItem>(with_recorded(before, item), after, HISTORY_LIMIT as nat),
    ensures
        forall|i: int|
            0 <= i < after.len() && (#[trigger] after[i]).content == item.content ==> after[i]
                == item,
{
    broadcast use vstd::seq_lib::group_filter_ensures;

    let base = without_content(before, item.content);
    let pred = |v: ClipboardItemView| v.content != item.content;
    assert forall|i: int|
        0 <= i < after.len() && (#[trigger] after[i]).content == item.content implies after[i]
        == item by {
        let r = with_recorded(before, item);
        assert(r.contains(after[i]));
        let k = choose|k: int| 0 <= k < r.len() && r[k] == after[i];
        if k < base.len() {
            assert(r[k] == base[k]);
            assert(pred(base[k]));
        }
    }
}

/// The history never holds more than `HISTORY_LIMIT` entries after a copy
/// is recorded.
pub proof fn lemma_recorded_history_bounded(
    before: Seq<ClipboardItemView>,
    item: ClipboardItemView,
    after: Seq<ClipboardItemView>,
)
    requires
        is_listing::<ClipboardItem>(with_recorded(before, item), after, HISTORY_LIMIT as nat),
    ensures
        after.len() <= HISTORY_LIMIT,
{
}

/// A copy newer than every entry, when nothing is pinned, its id is fresh and
/// its timestamp fits the database, is listed first after it is recorded.
pub proof fn lemma_newest_copy_listed_first(
    before: Seq<ClipboardItemView>,
    item: ClipboardItemView,
    after: Seq<ClipboardItemView>,
)
    requires
        !item.pinned,
        fits_sql_integer(item.timestamp),
        forall|i: int| 0 <= i < before.len() ==> !(#[trigger] before[i]).pinned
            && before[i].timestamp < item.timestamp,
        !has_key::<ClipboardItem>(without_content(before, item.content), item.id),
        is_listing::<ClipboardItem>(with_recorded(before, item), after, HISTORY_LIMIT as nat),
    ensures
        after.len() > 0,
        after[0] == item,
{
    broadcast use vstd::seq_lib::group_filter_ensures;

    let base = without_content(before, item.content);
    let r = with_recorded(before, item);
    assert(r == base.push(item));
    assert(r[r.len() - 1] == item);
    assert(r.contains(item));
    assert(after.len() > 0);
    // Every entry other than the copy itself comes from `before`.
    assert(r.contains(after[0]));
    let k = choose|k: int| 0 <= k < r.len() && r[k] == after[0];
    if after[0] != item {
        assert(k < base.len());
        assert(base.contains(base[k]));
        before.lemma_filter_contains_rev(|v: ClipboardItemView| v.content != item.content, base[k]);
        let m = choose|m: int| 0 <= m < before.len() && before[m] == base[k];
        assert(!before[m].pinned && before[m].timestamp < item.timestamp);
        if after.contains(item) {
            let j = choose|j: int| 0 <= j < after.len() && after[j] == item;
            assert(j != 0);
            assert(ClipboardItem::listed_before(after[0], after[j]));
        } else {
            assert(ClipboardItem::listed_before(after[0], item));
        }
    }
}

/// Pinned entries are listed before all the others.
pub proof fn lemma_pinned_listed_first(shown: Seq<ClipboardItemView>, i: int, j: int)
    requires
        in_listing_order::<ClipboardItem>(shown),
        0 <= i < j < shown.len(),
        shown[j].pinned,
    ensures
        shown[i].pinned,
{
    assert(ClipboardItem::listed_before(shown[i], shown[j]));
}

/// A record stored in place of any record with its key (a saved prompt or
/// category) is listed afterwards, and it is the only record with its key.
pub proof fn lemma_saved_record_listed<T: Row>(before: Seq<T::V>, row: T::V, shown: Seq<T::V>)
    requires
        is_listing::<T>(
            before.filter(|v: T::V| T::key_of(v) != T::key_of(row)).push(row),
            shown,
            (before.filter(|v: T::V| T::key_of(v) != T::key_of(row)).len() + 1) as nat,
        ),
    ensures
        shown.contains(row),
        forall|i: int|
            0 <= i < shown.len() && T::key_of(#[trigger] shown[i]) == T::key_of(row) ==> shown[i]
                == row,
{
    broadcast use vstd::seq_lib::group_filter_ensures;

    let base = before.filter(|v: T::V| T::key_of(v) != T::key_of(row));
    let all = base.push(row);
    assert(all[all.len() - 1] == row);
    assert(all.contains(row));
    assert forall|i: int|
        0 <= i < shown.len() && T::key_of(#[trigger] shown[i]) == T::key_of(row) implies shown[i]
        == row by {
        assert(all.contains(shown[i]));
        let k = choose|k: int| 0 <= k < all.len() && all[k] == shown[i];
        if k < base.len() {
            assert(all[k] == base[k]);
            assert((|v: T::V| T::key_of(v) != T::key_of(row))(base[k]));
        }
    }
}

/// After a record is removed by its key, no record has that key.
pub proof fn lemma_removed_key_absent<T: Row>(before: Seq<T::V>, key: Seq<char>)
    ensures
        !has_key::<T>(before.filter(|v: T::V| T::key_of(v) != key), key),
{
    broadcast use vstd::seq_lib::group_filter_ensures;

    let after = before.filter(|v: T::V| T::key_of(v) != key);
    if has_key::<T>(after, key) {
        let i = choose|i: int| 0 <= i < after.len() && T::key_of(#[trigger] after[i]) == key;
        assert((|v: T::V| T::key_of(v) != key)(after[i]));
    }
}

/// A text read twice in a row is recorded at most once: once it has been
/// seen, reading it again is no new copy.
pub proof fn lemma_repeated_read_not_new(read: Seq<char>)
    ensures
        !is_new_copy(read, read),
{
}

/// `trim_start` leaves no white space at the front.
proof fn lemma_trim_start_front(s: Seq<char>)
    ensures
        trim_start(s).len() > 0 ==> !is_white_space(trim_start(s)[0]),
        trim_start(s).len() <= s.len(),
        forall|i: int| 0 <= i < trim_start(s).len() ==> #[trigger] trim_start(s)[i] == s[i + (
        s.len() - trim_start(s).len())],
    decreases s.len(),
{
    if s.len() > 0 && is_white_space(s[0]) {
        lemma_trim_start_front(s.drop_first());
    }
}

/// `trim_end` keeps a prefix of its argument.
proof fn lemma_trim_end_prefix(s: Seq<char>)
    ensures
        trim_end(s).len() <= s.len(),
        trim_end(s) == s.take(trim_end(s).len() as int),
    decreases s.len(),
{
    if s.len() > 0 && is_white_space(s.last()) {
        lemma_trim_end_prefix(s.drop_last());
        assert(s.drop_last().take(trim_end(s).len() as int) =~= s.take(trim_end(s).len() as int));
    } else {
        assert(s.take(s.len() as int) =~= s);
    }
}

/// A preview never starts with white space, and has at most `max_chars`
/// characters plus three dots.
pub proof fn lemma_preview_shape(content: Seq<char>, max_chars: nat)
    ensures
        preview_of(content, max_chars).len() <= max_chars + 3,
        preview_of(content, max_chars).len() > 0 ==> !is_white_space(
            preview_of(content, max_chars)[0],
        ),
{
    let ts = trim_start(content);
    lemma_trim_start_front(content);
    lemma_trim_end_prefix(ts);
    let t = trim(content);
    assert(t == trim_end(ts));
    if t.len() > 0 {
        assert(t[0] == ts.take(t.len() as int)[0]);
        assert(t[0] == ts[0]);
    }
    let p = preview_of(content, max_chars);
    if t.len() > max_chars && max_chars > 0 {
        assert(p[0] == t[0]);
    }
    if t.len() > max_chars && max_chars == 0 {
        assert(p =~= ellipsis());
        assert(p[0] == '.');
    }
}

/// Text that fits is previewed as it is, trimmed.
pub proof fn lemma_short_text_preview(content: Seq<char>, max_chars: nat)
    requires
        trim(content).len() <= max_chars,
    ensures
        preview_of(content, max_chars) == trim(content),
{
}

/// An entry of the history before it is cut back that is pinned, where the
/// recorded copy is not, was a pinned entry of the history before.
proof fn lemma_pinned_entry_was_there(
    before: Seq<ClipboardItemView>,
    item: ClipboardItemView,
    y: ClipboardItemView,
)
    requires
        !item.pinned,
        with_recorded(before, item).contains(y),
        y.pinned,
    ensures
        before.filter(|v: ClipboardItemView| v.pinned).contains(y),
{
    broadcast use vstd::seq_lib::group_filter_ensures;

    let base = without_content(before, item.content);
    let r = with_recorded(before, item);
    let k = choose|k: int| 0 <= k < r.len() && r[k] == y;
    if r != base {
        assert(r == base.push(item));
        assert(k < base.len());
    }
    assert(base[k] == y);
    assert(base.contains(y));
    before.lemma_filter_contains_rev(|v: ClipboardItemView| v.content != item.content, y);
    let m = choose|m: int| 0 <= m < before.len() && before[m] == y;
    before.lemma_filter_contains(|v: ClipboardItemView| v.pinned, m);
}

/// While at most `HISTORY_LIMIT` entries are pinned, recording an unpinned
/// copy keeps every pinned entry; each entry it drops is unpinned, and no
/// newer than any unpinned entry kept.
pub proof fn lemma_recording_keeps_pinned(
    before: Seq<ClipboardItemView>,
    item: ClipboardItemView,
    after: Seq<ClipboardItemView>,
)
    requires
        !item.pinned,
        before.filter(|v: ClipboardItemView| v.pinned).len() <= HISTORY_LIMIT,
        is_listing::<ClipboardItem>(with_recorded(before, item), after, HISTORY_LIMIT as nat),
    ensures
        forall|x: ClipboardItemView|
            #[trigger] with_recorded(before, item).contains(x) && x.pinned ==> after.contains(x),
        forall|x: ClipboardItemView|
            with_recorded(before, item).contains(x) && !#[trigger] after.contains(x) ==> !x.pinned
                && forall|i: int|
                0 <= i < after.len() ==> (#[trigger] after[i]).pinned || after[i].timestamp
                    >= x.timestamp,
{
    broadcast use vstd::set::group_set_axioms, vstd::seq_lib::seq_to_set_is_finite;

    let r = with_recorded(before, item);
    let q = before.filter(|v: ClipboardItemView| v.pinned);
    assert forall|x: ClipboardItemView| #[trigger] r.contains(x) && x.pinned implies after.contains(
        x,
    ) by {
        if !after.contains(x) {
            // Every entry kept is pinned, and came from the pinned entries
            // before; with `x` they are one more than there were.
            assert(r.len() > HISTORY_LIMIT);
            assert(after.len() == HISTORY_LIMIT);
            assert forall|i: int| 0 <= i < after.len() implies q.contains(#[trigger] after[i]) by {
                assert(ClipboardItem::listed_before(after[i], x));
                assert(r.contains(after[i]));
                lemma_pinned_entry_was_there(before, item, after[i]);
            }
            lemma_pinned_entry_was_there(before, item, x);
            assert(after.no_duplicates()) by {
                assert forall|i: int, j: int|
                    0 <= i < after.len() && 0 <= j < after.len() && i != j implies after[i]
                    != after[j] by {
                    assert(ClipboardItem::key_of(after[i]) != ClipboardItem::key_of(after[j]));
                }
            }
            after.unique_seq_to_set();
            let big = after.to_set().insert(x);
            assert(!after.to_set().contains(x));
            assert(big.len() == HISTORY_LIMIT + 1);
            assert(big.subset_of(q.to_set())) by {
                assert forall|y: ClipboardItemView| big.contains(y) implies q.to_set().contains(
                    y,
                ) by {
                    if y != x {
                        let i = choose|i: int| 0 <= i < after.len() && after[i] == y;
                        assert(q.contains(after[i]));
                    }
                }
            }
            vstd::set_lib::lemma_len_subset(big, q.to_set());
            q.lemma_cardinality_of_set();
            assert(false);
        }
    }
    assert forall|x: ClipboardItemView|
        r.contains(x) && !#[trigger] after.contains(x) implies !x.pinned && forall|i: int|
        0 <= i < after.len() ==> (#[trigger] after[i]).pinned || after[i].timestamp
            >= x.timestamp by {
        assert forall|i: int| 0 <= i < after.len() implies (#[trigger] after[i]).pinned
            || after[i].timestamp >= x.timestamp by {
            assert(ClipboardItem::listed_before(after[i], x));
        }
    }
}

/// A category listing of categories in strictly ascending sort order shows
/// them in that order.
proof fn lemma_ascending_listing_prefix(all: Seq<CategoryView>, shown: Seq<CategoryView>, k: int)
    requires
        forall|a: int, b: int| 0 <= a < b < all.len() ==> (#[trigger] all[a]).order < (
        #[trigger] all[b]).order,
        is_listing::<Category>(all, shown, all.len()),
        0 <= k < all.len(),
    ensures
        forall|j: int| 0 <= j <= k ==> #[trigger] shown[j] == all[j],
    decreases k,
{
    if k > 0 {
        lemma_ascending_listing_prefix(all, shown, k - 1);
    }
    assert(all.contains(shown[k]));
    let m = choose|m: int| 0 <= m < all.len() && all[m] == shown[k];
    if m < k {
        assert(shown[m] == all[m]);
        assert(Category::key_of(shown[m]) != Category::key_of(shown[k]));
    } else if m > k {
        assert(all.contains(all[k]));
        assert(shown.contains(all[k]));
        let p = choose|p: int| 0 <= p < shown.len() && shown[p] == all[k];
        if p < k {
            assert(shown[p] == all[p]);
            assert(all[p].order < all[k].order);
        } else if p == k {
            assert(all[k].order < all[m].order);
        } else {
            assert(Category::listed_before(shown[k], shown[p]));
            assert(all[k].order < all[m].order);
        }
    }
}

/// Categories in strictly ascending sort order are listed exactly as they
/// are.
pub proof fn lemma_ascending_categories_listed_in_order(
    all: Seq<CategoryView>,
    shown: Seq<CategoryView>,
)
    requires
        forall|a: int, b: int| 0 <= a < b < all.len() ==> (#[trigger] all[a]).order < (
        #[trigger] all[b]).order,
        is_listing::<Category>(all, shown, all.len()),
    ensures
        shown == all,
{
    if all.len() > 0 {
        lemma_ascending_listing_prefix(all, shown, all.len() - 1);
    }
    assert(shown =~= all);
}

/// Seeded under distinct ids, the category list holds the four defaults and
/// lists them in order: the names, colors and sort orders of the defaults,
/// each under its own id.
pub proof fn lemma_seeded_categories_listed(ids: Seq<Seq<char>>, shown: Seq<CategoryView>)
    requires
        ids.len() == DEFAULT_CATEGORY_COUNT,
        forall|i: int, j: int| 0 <= i < j < ids.len() ==> ids[i] != ids[j],
        is_listing::<Category>(
            seeded(ids, DEFAULT_CATEGORY_COUNT as nat),
            shown,
            seeded(ids, DEFAULT_CATEGORY_COUNT as nat).len(),
        ),
    ensures
        seeded(ids, DEFAULT_CATEGORY_COUNT as nat).len() == DEFAULT_CATEGORY_COUNT,
        shown == Seq::new(DEFAULT_CATEGORY_COUNT as nat, |i: int| default_category_view(i, ids[i])),
{
    lemma_seeded_distinct_ids(ids, DEFAULT_CATEGORY_COUNT as nat);
    let all = seeded(ids, DEFAULT_CATEGORY_COUNT as nat);
    assert forall|a: int, b: int| 0 <= a < b < all.len() implies (#[trigger] all[a]).order < (
    #[trigger] all[b]).order by {
        assert(all[a] == default_category_view(a, ids[a]));
        assert(all[b] == default_category_view(b, ids[b]));
    }
    lemma_ascending_categories_listed_in_order(all, shown);
}

/// Prompts are ordered by the time they were last updated and by nothing
/// else: a prompt updated later comes strictly before one updated earlier,
/// and two updated at the same time may come in either order.
pub proof fn lemma_prompt_order_by_update_time(a: PromptItemView, b: PromptItemView)
    ensures
        a.updated_at > b.updated_at ==> PromptItem::listed_before(a, b)
            && !PromptItem::listed_before(b, a),
        a.updated_at == b.updated_at ==> PromptItem::listed_before(a, b)
            && PromptItem::listed_before(b, a),
{
}

/// A prompt listing never shows a prompt before one updated later.
pub proof fn lemma_prompts_listed_latest_update_first(shown: Seq<PromptItemView>)
    requires
        in_listing_order::<PromptItem>(shown),
    ensures
        forall|i: int, j: int|
            0 <= i < j < shown.len() ==> (#[trigger] shown[i]).updated_at >= (
            #[trigger] shown[j]).updated_at,
{
    assert forall|i: int, j: int| 0 <= i < j < shown.len() implies (
    #[trigger] shown[i]).updated_at >= (#[trigger] shown[j]).updated_at by {
        assert(PromptItem::listed_before(shown[i], shown[j]));
    }
}

/// History entries are ordered by pin, then by time, and by nothing else:
/// a pinned entry comes strictly before an unpinned one; of two with the
/// same pin, the newer comes strictly before the older, and two of the same
/// time may come in either order.
pub proof fn lemma_history_order_by_pin_and_time(a: ClipboardItemView, b: ClipboardItemView)
    ensures
        a.pinned && !b.pinned ==> ClipboardItem::listed_before(a, b)
            && !ClipboardItem::listed_before(b, a),
        a.pinned == b.pinned && a.timestamp > b.timestamp ==> ClipboardItem::listed_before(a, b)
            && !ClipboardItem::listed_before(b, a),
        a.pinned == b.pinned && a.timestamp == b.timestamp ==> ClipboardItem::listed_before(a, b)
            && ClipboardItem::listed_before(b, a),
{
}

/// A history listing shows no unpinned entry before a pinned one, and of
/// two entries with the same pin never the older first.
pub proof fn lemma_history_listed_pinned_then_newest(shown: Seq<ClipboardItemView>)
    requires
        in_listing_order::<ClipboardItem>(shown),
    ensures
        forall|i: int, j: int|
            0 <= i < j < shown.len() ==> ((#[trigger] shown[j]).pinned ==> (
            #[trigger] shown[i]).pinned) && (shown[i].pinned == shown[j].pinned
                ==> shown[i].timestamp >= shown[j].timestamp),
{
    assert forall|i: int, j: int| 0 <= i < j < shown.len() implies ((
    #[trigger] shown[j]).pinned ==> (#[trigger] shown[i]).pinned) && (shown[i].pinned
        == shown[j].pinned ==> shown[i].timestamp >= shown[j].timestamp) by {
        assert(ClipboardItem::listed_before(shown[i], shown[j]));
    }
}

/// Categories are ordered by their sort order and by nothing else.
pub proof fn lemma_category_order_by_sort_order(a: CategoryView, b: CategoryView)
    ensures
        a.order < b.order ==> Category::listed_before(a, b) && !Category::listed_before(b, a),
        a.order == b.order ==> Category::listed_before(a, b) && Category::listed_before(b, a),
{
}

/// A category listing never shows a category before one of lower sort
/// order.
pub proof fn lemma_categories_listed_by_sort_order(shown: Seq<CategoryView>)
    requires
        in_listing_order::<Category>(shown),
    ensures
        forall|i: int, j: int|
            0 <= i < j < shown.len() ==> (#[trigger] shown[i]).order <= (#[trigger] shown[j]).order,
{
    assert forall|i: int, j: int| 0 <= i < j < shown.len() implies (
    #[trigger] shown[i]).order <= (#[trigger] shown[j]).order by {
        assert(Category::listed_before(shown[i], shown[j]));
    }
}

/// A clipboard reading is a new copy exactly when it is not empty and is
/// not the same text as the last one seen; length plays no other part.
pub proof fn lemma_new_copy_exactly(last: Seq<char>, read: Seq<char>)
    ensures
        is_new_copy(last, read) <==> (read.len() > 0 && read != last),
        read.len() > 0 && read.len() == last.len() && read != last ==> is_new_copy(last, read),
{
}

/// A prompt can be stored exactly when both of its times are at most
/// `i64::MAX`; how the two times compare plays no part.
pub proof fn lemma_storable_prompt_exactly(p: PromptItemView)
    ensures
        is_storable_prompt(p) <==> (p.created_at <= 9223372036854775807u64 && p.updated_at
            <= 9223372036854775807u64),
        p.created_at == p.updated_at && p.updated_at <= 9223372036854775807u64
            ==> is_storable_prompt(p),
{
}

/// A history entry can be stored exactly when its timestamp is at most
/// `i64::MAX`.
pub proof fn lemma_storable_timestamp_exactly(t: u64)
    ensures
        fits_sql_integer(t) <==> t <= 9223372036854775807u64,
{
}

/// White space, by code point, is the Unicode `White_Space` set: tab, line
/// feed, vertical tab, form feed, carriage return, space, next line,
/// no-break space, ogham space mark, the spaces U+2000 to U+200A, line and
/// paragraph separators, narrow no-break space, medium mathematical space
/// and ideographic space.
pub proof fn lemma_white_space_code_points(c: char)
    ensures
        is_white_space(c) <==> {
            let u = c as u32;
            ||| (9 <= u <= 13)
            ||| u == 32
            ||| u == 0x85
            ||| u == 0xa0
            ||| u == 0x1680
            ||| (0x2000 <= u <= 0x200a)
            ||| u == 0x2028
            ||| u == 0x2029
            ||| u == 0x202f
            ||| u == 0x205f
            ||| u == 0x3000
        },
{
}

/// Among ASCII characters only the space and the control characters from
/// tab to carriage return are white space; every visible ASCII character
/// (quotes, dashes, brackets, letters, digits) is not.
pub proof fn lemma_ascii_white_space(c: char)
    requires
        (c as u32) < 128,
    ensures
        is_white_space(c) <==> (c == ' ' || ('\t' <= c && c <= '\r')),
        ('!' <= c && c <= '~') ==> !is_white_space(c),
{
}

/// Text whose first and last characters are visible ASCII characters is
/// kept whole by trimming, and previewed unchanged when it fits.
pub proof fn lemma_visible_ends_kept(s: Seq<char>, max_chars: nat)
    requires
        s.len() > 0,
        '!' <= s[0] && s[0] <= '~',
        '!' <= s.last() && s.last() <= '~',
    ensures
        trim(s) == s,
        s.len() <= max_chars ==> preview_of(s, max_chars) == s,
{
    assert(!is_white_space(s[0]));
    assert(trim_start(s) == s);
    assert(!is_white_space(s.last()));
    assert(trim_end(s) == s);
}

/// A text longer than the limit after trimming is previewed as exactly its
/// first `max_chars` trimmed characters followed by three dots.
pub proof fn lemma_long_text_preview(content: Seq<char>, max_chars: nat)
    requires
        trim(content).len() > max_chars,
    ensures
        preview_of(content, max_chars).len() == max_chars + 3,
        forall|i: int|
            0 <= i < max_chars ==> #[trigger] preview_of(content, max_chars)[i] == trim(content)[i],
        preview_of(content, max_chars)[max_chars as int] == '.',
        preview_of(content, max_chars)[max_chars + 1int] == '.',
        preview_of(content, max_chars)[max_chars + 2int] == '.',
{
}

/// Toggling a pin changes nothing but the pin flag, and that only on the
/// entry with the given id: every entry keeps its place, id, text, preview
/// and time.
pub proof fn lemma_toggle_changes_only_pin(s: Seq<ClipboardItemView>, id: Seq<char>)
    ensures
        toggled(s, id).len() == s.len(),
        forall|i: int|
            0 <= i < s.len() ==> {
                let t = #[trigger] toggled(s, id)[i];
                &&& t.id == s[i].id
                &&& t.content == s[i].content
                &&& t.preview == s[i].preview
                &&& t.timestamp == s[i].timestamp
                &&& (t.pinned != s[i].pinned <==> s[i].id == id)
            },
{
}

/// Removing a text keeps exactly the entries with another text.
pub proof fn lemma_without_content_members(
    s: Seq<ClipboardItemView>,
    content: Seq<char>,
    x: ClipboardItemView,
)
    ensures
        without_content(s, content).contains(x) <==> (s.contains(x) && x.content != content),
        without_content(s, content).len() <= s.len(),
{
    broadcast use vstd::seq_lib::group_filter_ensures;

    let pred = |v: ClipboardItemView| v.content != content;
    if without_content(s, content).contains(x) {
        s.lemma_filter_contains_rev(pred, x);
        let k = choose|k: int|
            0 <= k < without_content(s, content).len() && without_content(s, content)[k] == x;
        assert(pred(without_content(s, content)[k]));
    }
    if s.contains(x) && x.content != content {
        let k = choose|k: int| 0 <= k < s.len() && s[k] == x;
        s.lemma_filter_contains(pred, k);
    }
}

/// Recording a copy, before the history is cut back, keeps exactly the
/// entries with another text, and adds the copy when its id is not among
/// them and its time fits the database.
pub proof fn lemma_recorded_members(
    s: Seq<ClipboardItemView>,
    item: ClipboardItemView,
    x: ClipboardItemView,
)
    ensures
        with_recorded(s, item).contains(x) <==> ((s.contains(x) && x.content != item.content) || (
        x == item && item.timestamp <= 9223372036854775807u64 && !(exists|k: int|
            0 <= k < s.len() && s[k].content != item.content && #[trigger] s[k].id == item.id))),
{
    let base = without_content(s, item.content);
    lemma_without_content_members(s, item.content, x);
    let taken = exists|k: int|
        0 <= k < s.len() && s[k].content != item.content && #[trigger] s[k].id == item.id;
    if has_key::<ClipboardItem>(base, item.id) {
        let i = choose|i: int| 0 <= i < base.len() && ClipboardItem::key_of(#[trigger] base[i]) == item.id;
        lemma_without_content_members(s, item.content, base[i]);
        assert(base.contains(base[i]));
        let k = choose|k: int| 0 <= k < s.len() && s[k] == base[i];
        assert(s[k].id == item.id);
    }
    if taken {
        let k = choose|k: int| 0 <= k < s.len() && s[k].content != item.content && #[trigger] s[k].id == item.id;
        assert(s.contains(s[k]));
        lemma_without_content_members(s, item.content, s[k]);
        let i = choose|i: int| 0 <= i < base.len() && base[i] == s[k];
        assert(ClipboardItem::key_of(base[i]) == item.id);
        assert(has_key::<ClipboardItem>(base, item.id));
    }
    if with_recorded(s, item) != base {
        let r = base.push(item);
        assert(r[base.len() as int] == item);
        if r.contains(x) {
            let j = choose|j: int| 0 <= j < r.len() && r[j] == x;
            if j < base.len() {
                assert(base[j] == x);
                assert(base.contains(x));
            }
        }
        if base.contains(x) {
            let j = choose|j: int| 0 <= j < base.len() && base[j] == x;
            assert(r[j] == x);
        }
    }
}

/// The number of white-space characters `s` starts with.
spec fn leading_white_space(s: Seq<char>) -> nat
    decreases s.len(),
{
    if s.len() > 0 && is_white_space(s[0]) {
        1 + leading_white_space(s.drop_first())
    } else {
        0
    }
}

/// The number of white-space characters `s` ends with.
spec fn trailing_white_space(s: Seq<char>) -> nat
    decreases s.len(),
{
    if s.len() > 0 && is_white_space(s.last()) {
        1 + trailing_white_space(s.drop_last())
    } else {
        0
    }
}

proof fn lemma_leading_white_space(s: Seq<char>)
    ensures
        leading_white_space(s) <= s.len(),
        forall|i: int| 0 <= i < leading_white_space(s) ==> is_white_space(#[trigger] s[i]),
        leading_white_space(s) < s.len() ==> !is_white_space(s[leading_white_space(s) as int]),
        trim_start(s) == s.skip(leading_white_space(s) as int),
    decreases s.len(),
{
    if s.len() > 0 && is_white_space(s[0]) {
        let t = s.drop_first();
        lemma_leading_white_space(t);
        assert forall|i: int| 0 <= i < leading_white_space(s) implies is_white_space(
            #[trigger] s[i],
        ) by {
            if i > 0 {
                assert(s[i] == t[i - 1]);
            }
        }
        assert(t.skip(leading_white_space(t) as int) =~= s.skip(leading_white_space(s) as int));
    } else {
        assert(s.skip(0) =~= s);
    }
}

proof fn lemma_trailing_white_space(s: Seq<char>)
    ensures
        trailing_white_space(s) <= s.len(),
        forall|i: int|
            s.len() - trailing_white_space(s) <= i < s.len() ==> is_white_space(#[trigger] s[i]),
        trailing_white_space(s) < s.len() ==> !is_white_space(
            s[s.len() - 1 - trailing_white_space(s)],
        ),
        trim_end(s) == s.take(s.len() - trailing_white_space(s)),
    decreases s.len(),
{
    if s.len() > 0 && is_white_space(s.last()) {
        let t = s.drop_last();
        lemma_trailing_white_space(t);
        assert forall|i: int|
            s.len() - trailing_white_space(s) <= i < s.len() implies is_white_space(
            #[trigger] s[i],
        ) by {
            if i < s.len() - 1 {
                assert(s[i] == t[i]);
            }
        }
        if trailing_white_space(s) < s.len() {
            assert(s[s.len() - 1 - trailing_white_space(s)] == t[t.len() - 1 - trailing_white_space(
                t,
            )]);
        }
        assert(t.take(t.len() - trailing_white_space(t)) =~= s.take(
            s.len() - trailing_white_space(s),
        ));
    } else {
        assert(s.take(s.len() as int) =~= s);
    }
}

/// Trimming removes white space at both ends and nothing else: the trimmed
/// text is the slice `lo..hi` of `s`, everything before `lo` and from `hi` on
/// is white space, and the slice neither starts nor ends with white space
/// (it is empty only when all of `s` is white space).
pub proof fn lemma_trim_removes_only_end_white_space(s: Seq<char>) -> (bounds: (int, int))
    ensures
        0 <= bounds.0 <= bounds.1 <= s.len(),
        trim(s) == s.subrange(bounds.0, bounds.1),
        forall|i: int| 0 <= i < bounds.0 ==> is_white_space(#[trigger] s[i]),
        forall|i: int| bounds.1 <= i < s.len() ==> is_white_space(#[trigger] s[i]),
        bounds.0 < bounds.1 ==> !is_white_space(s[bounds.0]) && !is_white_space(s[bounds.1 - 1]),
        bounds.0 == bounds.1 ==> bounds.1 == s.len(),
{
    lemma_leading_white_space(s);
    let lo = leading_white_space(s) as int;
    let t = s.skip(lo);
    lemma_trailing_white_space(t);
    let hi = s.len() - trailing_white_space(t);
    assert(t.take(t.len() - trailing_white_space(t)) =~= s.subrange(lo, hi));
    assert forall|i: int| hi <= i < s.len() implies is_white_space(#[trigger] s[i]) by {
        assert(s[i] == t[i - lo]);
    }
    if lo < hi {
        assert(s[hi - 1] == t[t.len() - 1 - trailing_white_space(t)]);
    }
    if lo == hi && lo < s.len() {
        assert(t.len() > 0);
        assert(trailing_white_space(t) == t.len());
        assert(is_white_space(t[0]));
        assert(t[0] == s[lo]);
    }
    (lo, hi)
}

} // verus!
