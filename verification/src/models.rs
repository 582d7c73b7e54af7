//! The records the panel keeps: clipboard entries, saved prompts and the
//! categories prompts are filed under.

use crate::table::Row;
use vstd::prelude::*;

verus! {

/// The largest integer an SQLite column holds (`i64::MAX`); a larger `u64`
/// cannot be bound into a statement, and the statement then fails.
pub const SQL_INTEGER_MAX: u64 = 9223372036854775807;

/// `x` can be written into an SQLite integer column.
pub open spec fn fits_sql_integer(x: u64) -> bool {
    x <= SQL_INTEGER_MAX
}

/// One copied text in the clipboard history.
#[derive(Debug, Clone)]
pub struct ClipboardItem {
    pub id: String,
    pub content: String,
    pub preview: String,
    pub timestamp: u64,
    pub pinned: bool,
}

/// What a `ClipboardItem` holds, as values.
pub struct ClipboardItemView {
    pub id: Seq<char>,
    pub content: Seq<char>,
    pub preview: Seq<char>,
    pub timestamp: u64,
    pub pinned: bool,
}

impl View for ClipboardItem {
    type V = ClipboardItemView;

    open spec fn view(&self) -> ClipboardItemView {
        ClipboardItemView {
            id: self.id@,
            content: self.content@,
            preview: self.preview@,
            timestamp: self.timestamp,
            pinned: self.pinned,
        }
    }
}

impl ClipboardItem {
    /// Whether the entry can be written to the database: its timestamp
    /// fits an SQLite integer.
    pub fn is_storable(&self) -> (r: bool)
        ensures
            r == fits_sql_integer(self.timestamp),
    {
        self.timestamp <= SQL_INTEGER_MAX
    }
}

/// The history lists pinned entries first, and within each group the
/// newest first.
pub open spec fn clipboard_listed_before(a: ClipboardItemView, b: ClipboardItemView) -> bool {
    (a.pinned && !b.pinned) || (a.pinned == b.pinned && a.timestamp >= b.timestamp)
}

impl Row for ClipboardItem {
    open spec fn key_of(v: ClipboardItemView) -> Seq<char> {
        v.id
    }

    open spec fn listed_before(a: ClipboardItemView, b: ClipboardItemView) -> bool {
        clipboard_listed_before(a, b)
    }

    proof fn lemma_listed_before_total(a: ClipboardItemView, b: ClipboardItemView) {
    }

    proof fn lemma_listed_before_transitive(
        a: ClipboardItemView,
        b: ClipboardItemView,
        c: ClipboardItemView,
    ) {
    }

    fn key(&self) -> (k: &String) {
        &self.id
    }

    fn goes_before(&self, other: &Self) -> (r: bool) {
        (self.pinned && !other.pinned) || (self.pinned == other.pinned && self.timestamp
            >= other.timestamp)
    }

    fn duplicate(&self) -> (r: Self) {
        ClipboardItem {
            id: self.id.clone(),
            content: self.content.clone(),
            preview: self.preview.clone(),
            timestamp: self.timestamp,
            pinned: self.pinned,
        }
    }
}

/// A saved prompt.
#[derive(Debug, Clone)]
pub struct PromptItem {
    pub id: String,
    pub title: String,
    pub content: String,
    pub category_id: String,
    pub created_at: u64,
    pub updated_at: u64,
}

/// What a `PromptItem` holds, as values.
pub struct PromptItemView {
    pub id: Seq<char>,
    pub title: Seq<char>,
    pub content: Seq<char>,
    pub category_id: Seq<char>,
    pub created_at: u64,
    pub updated_at: u64,
}

impl View for PromptItem {
    type V = PromptItemView;

    open spec fn view(&self) -> PromptItemView {
        PromptItemView {
            id: self.id@,
            title: self.title@,
            content: self.content@,
            category_id: self.category_id@,
            created_at: self.created_at,
            updated_at: self.updated_at,
        }
    }
}

/// A prompt can be written to the database: both its times fit an SQLite
/// integer.
pub open spec fn is_storable_prompt(p: PromptItemView) -> bool {
    fits_sql_integer(p.created_at) && fits_sql_integer(p.updated_at)
}

impl PromptItem {
    /// Whether the prompt can be written to the database.
    pub fn is_storable(&self) -> (r: bool)
        ensures
            r == is_storable_prompt(self@),
    {
        self.created_at <= SQL_INTEGER_MAX && self.updated_at <= SQL_INTEGER_MAX
    }
}

/// Prompts are listed most recently updated first.
pub open spec fn prompt_listed_before(a: PromptItemView, b: PromptItemView) -> bool {
    a.updated_at >= b.updated_at
}

impl Row for PromptItem {
    open spec fn key_of(v: PromptItemView) -> Seq<char> {
        v.id
    }

    open spec fn listed_before(a: PromptItemView, b: PromptItemView) -> bool {
        prompt_listed_before(a, b)
    }

    proof fn lemma_listed_before_total(a: PromptItemView, b: PromptItemView) {
    }

    proof fn lemma_listed_before_transitive(a: PromptItemView, b: PromptItemView, c: PromptItemView) {
    }

    fn key(&self) -> (k: &String) {
        &self.id
    }

    fn goes_before(&self, other: &Self) -> (r: bool) {
        self.updated_at >= other.updated_at
    }

    fn duplicate(&self) -> (r: Self) {
        PromptItem {
            id: self.id.clone(),
            title: self.title.clone(),
            content: self.content.clone(),
            category_id: self.category_id.clone(),
            created_at: self.created_at,
            updated_at: self.updated_at,
        }
    }
}

/// A category that prompts are filed under.
#[derive(Debug, Clone)]
pub struct Category {
    pub id: String,
    pub name: String,
    pub color: String,
    pub order: u32,
}

/// What a `Category` holds, as values.
pub struct CategoryView {
    pub id: Seq<char>,
    pub name: Seq<char>,
    pub color: Seq<char>,
    pub order: u32,
}

impl View for Category {
    type V = CategoryView;

    open spec fn view(&self) -> CategoryView {
        CategoryView { id: self.id@, name: self.name@, color: self.color@, order: self.order }
    }
}

/// Categories are listed by ascending sort order.
pub open spec fn category_listed_before(a: CategoryView, b: CategoryView) -> bool {
    a.order <= b.order
}

impl Row for Category {
    open spec fn key_of(v: CategoryView) -> Seq<char> {
        v.id
    }

    open spec fn listed_before(a: CategoryView, b: CategoryView) -> bool {
        category_listed_before(a, b)
    }

    proof fn lemma_listed_before_total(a: CategoryView, b: CategoryView) {
    }

    proof fn lemma_listed_before_transitive(a: CategoryView, b: CategoryView, c: CategoryView) {
    }

    fn key(&self) -> (k: &String) {
        &self.id
    }

    fn goes_before(&self, other: &Self) -> (r: bool) {
        self.order <= other.order
    }

    fn duplicate(&self) -> (r: Self) {
        Category {
            id: self.id.clone(),
            name: self.name.clone(),
            color: self.color.clone(),
            order: self.order,
        }
    }
}

} // verus!
