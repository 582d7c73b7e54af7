//! Saved prompts and their categories.

use crate::ids::{is_v4_uuid_text, new_v4_text};
use crate::models::{Category, CategoryView, PromptItem, PromptItemView, is_storable_prompt};
use crate::table::{Row, Table, has_key, is_listing, views};
use vstd::prelude::*;

verus! {

/// The table of saved prompts.
pub type PromptLibrary = Table<PromptItem>;

/// The table of categories.
pub type CategoryList = Table<Category>;

/// All prompts, most recently updated first.
pub fn get_prompts(prompts: &PromptLibrary) -> (items: Vec<PromptItem>)
    ensures
        is_listing::<PromptItem>(prompts@, views(items@), prompts@.len()),
{
    prompts.listing(prompts.len())
}

/// Stores `prompt`, in place of the prompt with its id if there is one. A
/// prompt whose times do not fit the database is not stored, and nothing
/// changes, as its `INSERT OR REPLACE` fails.
pub fn save_prompt(prompts: &mut PromptLibrary, prompt: PromptItem)
    ensures
        is_storable_prompt(prompt@) ==> final(prompts)@ == old(prompts)@.filter(
            |v: PromptItemView| v.id != prompt.id@,
        ).push(prompt@),
        !is_storable_prompt(prompt@) ==> final(prompts)@ == old(prompts)@,
{
    let ghost pv = prompt@;
    if !prompt.is_storable() {
        return;
    }
    prompts.upsert(prompt);
    assert((|v: PromptItemView| PromptItem::key_of(v) != PromptItem::key_of(pv)) =~= (|
        v: PromptItemView,
    | v.id != pv.id));
}

/// Removes the prompt with id `id`, if there is one.
pub fn delete_prompt(prompts: &mut PromptLibrary, id: &String)
    ensures
        final(prompts)@ == old(prompts)@.filter(|v: PromptItemView| v.id != id@),
{
    prompts.remove_key(id);
    assert((|v: PromptItemView| PromptItem::key_of(v) != id@) =~= (|v: PromptItemView|
        v.id != id@));
}

/// All categories, by ascending sort order.
pub fn get_categories(categories: &CategoryList) -> (items: Vec<Category>)
    ensures
        is_listing::<Category>(categories@, views(items@), categories@.len()),
{
    categories.listing(categories.len())
}

/// Stores `category`, in place of the category with its id if there is one.
pub fn save_category(categories: &mut CategoryList, category: Category)
    ensures
        final(categories)@ == old(categories)@.filter(|v: CategoryView| v.id != category.id@).push(
            category@,
        ),
{
    let ghost cv = category@;
    categories.upsert(category);
    assert((|v: CategoryView| Category::key_of(v) != Category::key_of(cv)) =~= (|
        v: CategoryView,
    | v.id != cv.id));
}

/// Removes the category with id `id`, if there is one.
pub fn delete_category(categories: &mut CategoryList, id: &String)
    ensures
        final(categories)@ == old(categories)@.filter(|v: CategoryView| v.id != id@),
{
    categories.remove_key(id);
    assert((|v: CategoryView| Category::key_of(v) != id@) =~= (|v: CategoryView| v.id != id@));
}

/// The name, color and sort order of the `i`-th category that an empty
/// list is seeded with.
pub open spec fn default_category(i: int) -> (Seq<char>, Seq<char>, u32) {
    if i == 0 {
        ("AI 提示"@, "#8B5CF6"@, 0u32)
    } else if i == 1 {
        ("代码"@, "#10B981"@, 1u32)
    } else if i == 2 {
        ("邮件"@, "#3B82F6"@, 2u32)
    } else {
        ("写作"@, "#F59E0B"@, 3u32)
    }
}

/// How many categories an empty list is seeded with.
pub const DEFAULT_CATEGORY_COUNT: usize = 4;

/// The `i`-th default category under the id `id`.
pub open spec fn default_category_view(i: int, id: Seq<char>) -> CategoryView {
    CategoryView {
        id,
        name: default_category(i).0,
        color: default_category(i).1,
        order: default_category(i).2,
    }
}

/// What an empty list holds after the first `n` default categories are
/// inserted in order, the `i`-th under the id `ids[i]`: each insert whose id
/// is already taken fails and leaves the list as it was.
pub open spec fn seeded(ids: Seq<Seq<char>>, n: nat) -> Seq<CategoryView>
    decreases n,
{
    if n == 0 {
        Seq::empty()
    } else {
        let prev = seeded(ids, (n - 1) as nat);
        let c = default_category_view(n - 1, ids[n - 1]);
        if has_key::<Category>(prev, c.id) {
            prev
        } else {
            prev.push(c)
        }
    }
}

/// The texts of `ids`.
pub open spec fn texts(ids: Seq<String>) -> Seq<Seq<char>> {
    ids.map_values(|s: String| s@)
}

/// The categories seeded under any ids: never more than were inserted, the
/// first default first, each one a default under its own id, in strictly
/// ascending sort order.
pub proof fn lemma_seeded_shape(ids: Seq<Seq<char>>, n: nat)
    requires
        n <= DEFAULT_CATEGORY_COUNT,
        ids.len() >= n,
    ensures
        seeded(ids, n).len() <= n,
        n >= 1 ==> seeded(ids, n).len() >= 1 && seeded(ids, n)[0] == default_category_view(
            0,
            ids[0],
        ),
        forall|k: int|
            0 <= k < seeded(ids, n).len() ==> (#[trigger] seeded(ids, n)[k]).order < n
                && seeded(ids, n)[k] == default_category_view(
                seeded(ids, n)[k].order as int,
                ids[seeded(ids, n)[k].order as int],
            ),
        forall|a: int, b: int|
            0 <= a < b < seeded(ids, n).len() ==> (#[trigger] seeded(ids, n)[a]).order
                < (#[trigger] seeded(ids, n)[b]).order,
    decreases n,
{
    if n > 0 {
        lemma_seeded_shape(ids, (n - 1) as nat);
        let prev = seeded(ids, (n - 1) as nat);
        let c = default_category_view(n - 1, ids[n - 1]);
        assert(c.order == n - 1);
        if !has_key::<Category>(prev, c.id) {
            let cur = prev.push(c);
            assert(seeded(ids, n) == cur);
            assert forall|k: int| 0 <= k < cur.len() implies (#[trigger] cur[k]).order < n
                && cur[k] == default_category_view(cur[k].order as int, ids[cur[k].order as int]) by {
                if k < prev.len() {
                    assert(cur[k] == prev[k]);
                }
            }
            assert forall|a: int, b: int| 0 <= a < b < cur.len() implies (
            #[trigger] cur[a]).order < (#[trigger] cur[b]).order by {
                assert(cur[a] == prev[a]);
                if b < prev.len() {
                    assert(cur[b] == prev[b]);
                }
            }
            if n == 1 {
                assert(prev.len() == 0);
            } else {
                assert(cur[0] == prev[0]);
            }
        } else {
            if n == 1 {
                assert(prev.len() == 0);
            }
        }
    }
}

/// Under pairwise distinct ids, every insert succeeds: the list holds the
/// first `n` defaults in order, each under its id.
pub proof fn lemma_seeded_distinct_ids(ids: Seq<Seq<char>>, n: nat)
    requires
        n <= DEFAULT_CATEGORY_COUNT,
        ids.len() >= n,
        forall|i: int, j: int| 0 <= i < j < n ==> ids[i] != ids[j],
    ensures
        seeded(ids, n) == Seq::new(n, |i: int| default_category_view(i, ids[i])),
    decreases n,
{
    if n > 0 {
        lemma_seeded_distinct_ids(ids, (n - 1) as nat);
        let prev = seeded(ids, (n - 1) as nat);
        let c = default_category_view(n - 1, ids[n - 1]);
        assert forall|i: int| 0 <= i < prev.len() implies Category::key_of(#[trigger] prev[i])
            != c.id by {
            assert(prev[i].id == ids[i]);
        }
        assert(!has_key::<Category>(prev, c.id));
        assert(seeded(ids, n) =~= Seq::new(n, |i: int| default_category_view(i, ids[i])));
    }
}

/// The `i`-th default category under the id `id`.
fn new_default_category(i: usize, id: String) -> (c: Category)
    requires
        i < DEFAULT_CATEGORY_COUNT,
    ensures
        c@ == default_category_view(i as int, id@),
{
    let (name, color, order) = if i == 0 {
        ("AI 提示", "#8B5CF6", 0u32)
    } else if i == 1 {
        ("代码", "#10B981", 1u32)
    } else if i == 2 {
        ("邮件", "#3B82F6", 2u32)
    } else {
        ("写作", "#F59E0B", 3u32)
    };
    Category { id, name: String::from_str(name), color: String::from_str(color), order }
}

/// Seeds an empty category list with the default categories, in order, the
/// `i`-th under the id `ids[i]`; one whose id is already taken is skipped,
/// as the insert of a duplicate key fails. A list that is not empty is left
/// as it is.
pub fn seed_categories_with_ids(categories: &mut CategoryList, ids: &Vec<String>)
    requires
        ids.len() == DEFAULT_CATEGORY_COUNT,
    ensures
        old(categories)@.len() > 0 ==> final(categories)@ == old(categories)@,
        old(categories)@.len() == 0 ==> final(categories)@ == seeded(
            texts(ids@),
            DEFAULT_CATEGORY_COUNT as nat,
        ),
{
    if categories.len() == 0 {
        let ghost idv = texts(ids@);
        let mut i: usize = 0;
        while i < DEFAULT_CATEGORY_COUNT
            invariant
                ids.len() == DEFAULT_CATEGORY_COUNT,
                idv == texts(ids@),
                i <= DEFAULT_CATEGORY_COUNT,
                categories@ == seeded(idv, i as nat),
            decreases DEFAULT_CATEGORY_COUNT - i,
        {
            let id = ids[i].clone();
            assert(id@ == idv[i as int]);
            let c = new_default_category(i, id);
            let _ = categories.insert(c);
            i = i + 1;
        }
    }
}

/// Seeds an empty category list with the default categories, in order, each
/// under a fresh random id, and hands back the ids drawn; a list that is not
/// empty is left as it is and no id is drawn.
pub fn seed_default_categories(categories: &mut CategoryList) -> (ids: Vec<String>)
    ensures
        old(categories)@.len() > 0 ==> final(categories)@ == old(categories)@ && ids.len() == 0,
        old(categories)@.len() == 0 ==> {
            &&& ids.len() == DEFAULT_CATEGORY_COUNT
            &&& forall|i: int| 0 <= i < ids.len() ==> is_v4_uuid_text(#[trigger] ids@[i]@)
            &&& final(categories)@ == seeded(texts(ids@), DEFAULT_CATEGORY_COUNT as nat)
            &&& 1 <= final(categories)@.len() <= DEFAULT_CATEGORY_COUNT
            &&& final(categories)@[0] == default_category_view(0, ids@[0]@)
            &&& forall|a: int, b: int|
                0 <= a < b < final(categories)@.len() ==> (#[trigger] final(categories)@[a]).order
                    < (#[trigger] final(categories)@[b]).order
            &&& (forall|a: int, b: int| 0 <= a < b < ids.len() ==> ids@[a]@ != ids@[b]@)
                ==> final(categories)@ == Seq::new(
                DEFAULT_CATEGORY_COUNT as nat,
                |i: int| default_category_view(i, ids@[i]@),
            )
        },
{
    let mut ids: Vec<String> = Vec::new();
    if categories.len() > 0 {
        return ids;
    }
    let mut i: usize = 0;
    while i < DEFAULT_CATEGORY_COUNT
        invariant
            i <= DEFAULT_CATEGORY_COUNT,
            ids.len() == i,
            forall|k: int| 0 <= k < ids.len() ==> is_v4_uuid_text(#[trigger] ids@[k]@),
        decreases DEFAULT_CATEGORY_COUNT - i,
    {
        let id = new_v4_text();
        ids.push(id);
        i = i + 1;
    }
    seed_categories_with_ids(categories, &ids);
    proof {
        let idv = texts(ids@);
        lemma_seeded_shape(idv, DEFAULT_CATEGORY_COUNT as nat);
        assert(idv[0] == ids@[0]@);
        if forall|a: int, b: int| 0 <= a < b < ids.len() ==> ids@[a]@ != ids@[b]@ {
            assert forall|a: int, b: int| 0 <= a < b < DEFAULT_CATEGORY_COUNT implies idv[a]
                != idv[b] by {
                assert(idv[a] == ids@[a]@);
                assert(idv[b] == ids@[b]@);
            }
            lemma_seeded_distinct_ids(idv, DEFAULT_CATEGORY_COUNT as nat);
            assert(seeded(idv, DEFAULT_CATEGORY_COUNT as nat) =~= Seq::new(
                DEFAULT_CATEGORY_COUNT as nat,
                |i: int| default_category_view(i, ids@[i]@),
            ));
        }
    }
    ids
}

} // verus!
