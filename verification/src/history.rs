//! The clipboard history: entries copied to the clipboard, at most
//! `HISTORY_LIMIT` of them kept, pinned ones listed first.

use crate::ids::{is_v4_uuid_text, new_v4_text};
use crate::models::{ClipboardItem, ClipboardItemView, fits_sql_integer};
use crate::table::{Row, Table, has_key, is_listing, keys_distinct, views};
use crate::text::{make_preview, preview_of};
use vstd::prelude::*;

verus! {

/// How many entries the history keeps and lists.
pub const HISTORY_LIMIT: usize = 50;

/// How many characters of an entry its preview shows.
pub const PREVIEW_CHARS: usize = 80;

/// The clipboard history table.
pub type ClipboardHistory = Table<ClipboardItem>;

/// `v` with its pin flipped when its id is `id`.
pub open spec fn with_pin_toggled(v: ClipboardItemView, id: Seq<char>) -> ClipboardItemView {
    if v.id == id {
        ClipboardItemView { pinned: !v.pinned, ..v }
    } else {
        v
    }
}

/// The entries of `s` with the pin of the entry `id` flipped.
pub open spec fn toggled(s: Seq<ClipboardItemView>, id: Seq<char>) -> Seq<ClipboardItemView> {
    s.map_values(|v: ClipboardItemView| with_pin_toggled(v, id))
}

/// The entries of `s` whose text is not `content`.
pub open spec fn without_content(s: Seq<ClipboardItemView>, content: Seq<char>) -> Seq<
    ClipboardItemView,
> {
    s.filter(|v: ClipboardItemView| v.content != content)
}

/// The entries before the history is cut back: those of `s` with another
/// text than `item`, and `item` after them unless its id is taken or its
/// timestamp does not fit the database (then its insert fails).
pub open spec fn with_recorded(s: Seq<ClipboardItemView>, item: ClipboardItemView) -> Seq<
    ClipboardItemView,
> {
    let base = without_content(s, item.content);
    if has_key::<ClipboardItem>(base, item.id) || !fits_sql_integer(item.timestamp) {
        base
    } else {
        base.push(item)
    }
}

/// A clipboard reading `read` is a new copy: it is not empty and differs
/// from the last text seen, `last`.
pub open spec fn is_new_copy(last: Seq<char>, read: Seq<char>) -> bool {
    read.len() > 0 && read != last
}

/// Whether the clipboard text `read` is a new copy after `last`.
pub fn is_new_copy_of(last: &String, read: &String) -> (r: bool)
    ensures
        r == is_new_copy(last@, read@),
{
    !read.as_str().is_empty() && *read != *last
}

/// A new entry for `content`, copied at time `now`: a fresh random id, the
/// preview of its first `PREVIEW_CHARS` characters, not pinned.
pub fn capture(content: String, now: u64) -> (item: ClipboardItem)
    ensures
        item.content@ == content@,
        item.timestamp == now,
        item.preview@ == preview_of(content@, PREVIEW_CHARS as nat),
        is_v4_uuid_text(item.id@),
        !item.pinned,
{
    let id = new_v4_text();
    let preview = make_preview(content.as_str(), PREVIEW_CHARS);
    ClipboardItem { id, content, preview, timestamp: now, pinned: false }
}

/// One poll of the clipboard at time `now`: when `read` is text that is not
/// empty and differs from `last_content`, it becomes the last content and a
/// new entry for it, stamped `now`, is handed back; otherwise nothing
/// changes.
pub fn observe_clipboard(last_content: &mut String, read: String, now: u64) -> (entry: Option<
    ClipboardItem,
>)
    ensures
        is_new_copy(old(last_content)@, read@) ==> {
            &&& final(last_content)@ == read@
            &&& entry matches Some(item) && item.content@ == read@ && !item.pinned
                && item.timestamp == now
                && item.preview@ == preview_of(read@, PREVIEW_CHARS as nat) && is_v4_uuid_text(
                item.id@,
            )
        },
        !is_new_copy(old(last_content)@, read@) ==> {
            &&& final(last_content)@ == old(last_content)@
            &&& entry is None
        },
{
    if is_new_copy_of(last_content, &read) {
        *last_content = read.clone();
        Some(capture(read, now))
    } else {
        None
    }
}

/// The entries of the history, pinned first and then newest first, at most
/// `HISTORY_LIMIT` of them.
pub fn get_clipboard_history(history: &ClipboardHistory) -> (items: Vec<ClipboardItem>)
    ensures
        is_listing::<ClipboardItem>(history@, views(items@), HISTORY_LIMIT as nat),
{
    history.listing(HISTORY_LIMIT)
}

/// Removes every entry.
pub fn clear_clipboard_history(history: &mut ClipboardHistory)
    ensures
        final(history)@ == Seq::<ClipboardItemView>::empty(),
{
    history.clear();
}

/// Removes the entry with id `id`, if there is one.
pub fn delete_history_item(history: &mut ClipboardHistory, id: &String)
    ensures
        final(history)@ == old(history)@.filter(|v: ClipboardItemView| v.id != id@),
{
    history.remove_key(id);
    assert((|v: ClipboardItemView| ClipboardItem::key_of(v) != id@) =~= (|v: ClipboardItemView|
        v.id != id@));
}

/// Flips the pin of the entry with id `id`, if there is one.
pub fn toggle_pin_item(history: &mut ClipboardHistory, id: &String)
    ensures
        final(history)@ == toggled(old(history)@, id@),
{
    let ghost old_v = history@;
    let rows = history.rows();
    let mut flipped: Vec<ClipboardItem> = Vec::new();
    let mut i: usize = 0;
    while i < rows.len()
        invariant
            i <= rows.len(),
            views(rows@) == old_v,
            keys_distinct::<ClipboardItem>(old_v),
            views(flipped@) == toggled(old_v.take(i as int), id@),
        decreases rows.len() - i,
    {
        let mut r = rows[i].duplicate();
        if r.id == *id {
            r.pinned = !r.pinned;
        }
        let ghost before = flipped@;
        flipped.push(r);
        proof {
            assert(views(flipped@) =~= views(before).push(r@));
            assert(old_v.take(i + 1) =~= old_v.take(i as int).push(old_v[i as int]));
            assert(toggled(old_v.take(i + 1), id@) =~= toggled(old_v.take(i as int), id@).push(
                with_pin_toggled(old_v[i as int], id@),
            ));
        }
        i = i + 1;
    }
    proof {
        assert(old_v.take(rows.len() as int) =~= old_v);
        let nv = views(flipped@);
        assert forall|a: int, b: int|
            0 <= a < nv.len() && 0 <= b < nv.len() && a != b implies ClipboardItem::key_of(
            #[trigger] nv[a],
        ) != ClipboardItem::key_of(#[trigger] nv[b]) by {
            assert(nv[a].id == old_v[a].id);
            assert(nv[b].id == old_v[b].id);
        }
    }
    history.replace_rows(flipped);
}

/// Removes every entry whose text is `content`.
pub fn delete_content(history: &mut ClipboardHistory, content: &String)
    ensures
        final(history)@ == without_content(old(history)@, content@),
{
    let ghost all = history@;
    let ghost pred = |v: ClipboardItemView| v.content != content@;
    let rows = history.rows();
    let mut kept: Vec<ClipboardItem> = Vec::new();
    let mut i: usize = 0;
    assert(all.take(0) =~= Seq::<ClipboardItemView>::empty());
    proof {
        reveal(Seq::filter);
    }
    assert(views(kept@) =~= Seq::<ClipboardItemView>::empty());
    while i < rows.len()
        invariant
            i <= rows.len(),
            all == views(rows@),
            keys_distinct::<ClipboardItem>(all),
            pred == (|v: ClipboardItemView| v.content != content@),
            views(kept@) == all.take(i as int).filter(pred),
        decreases rows.len() - i,
    {
        proof {
            assert(all.take(i + 1) =~= all.take(i as int).push(all[i as int]));
            all.take(i as int).lemma_filter_push(all[i as int], pred);
        }
        if rows[i].content != *content {
            let r = rows[i].duplicate();
            let ghost before = kept@;
            kept.push(r);
            assert(views(kept@) =~= views(before).push(r@));
        }
        i = i + 1;
    }
    assert(all.take(rows.len() as int) =~= all);
    proof {
        crate::table::lemma_filter_keys_distinct::<ClipboardItem>(all, pred);
    }
    history.replace_rows(kept);
}

/// Records a newly copied entry: entries with the same text are removed,
/// `item` is stored (unless its id is taken or its timestamp does not fit the
/// database), and the history is cut back to the first `HISTORY_LIMIT`
/// entries in listing order.
pub fn record_clipboard_item(history: &mut ClipboardHistory, item: ClipboardItem)
    ensures
        is_listing::<ClipboardItem>(
            with_recorded(old(history)@, item@),
            final(history)@,
            HISTORY_LIMIT as nat,
        ),
{
    delete_content(history, &item.content);
    if item.is_storable() {
        let _ = history.insert(item);
    }
    history.keep_listing(HISTORY_LIMIT);
}

} // verus!
