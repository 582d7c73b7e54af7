use sidepar::library::{
    seed_categories_with_ids, delete_category, delete_prompt, get_categories, get_prompts, save_category, save_prompt,
    seed_default_categories, CategoryList, PromptLibrary, DEFAULT_CATEGORY_COUNT,
};
use sidepar::models::{Category, PromptItem};

fn prompt(id: &str, title: &str, updated_at: u64) -> PromptItem {
    PromptItem {
        id: id.to_string(),
        title: title.to_string(),
        content: format!("content of {title}"),
        category_id: String::new(),
        created_at: 1,
        updated_at,
    }
}

fn category(id: &str, name: &str, order: u32) -> Category {
    Category { id: id.to_string(), name: name.to_string(), color: "#000000".to_string(), order }
}

#[test]
fn prompts_listed_most_recent_first() {
    let mut p = PromptLibrary::new();
    save_prompt(&mut p, prompt("a", "A", 5));
    save_prompt(&mut p, prompt("b", "B", 9));
    save_prompt(&mut p, prompt("c", "C", 7));
    let listed: Vec<String> = get_prompts(&p).into_iter().map(|x| x.id).collect();
    assert_eq!(listed, vec!["b", "c", "a"]);
}

#[test]
fn saving_same_id_replaces() {
    let mut p = PromptLibrary::new();
    save_prompt(&mut p, prompt("a", "first", 5));
    save_prompt(&mut p, prompt("a", "second", 6));
    let listed = get_prompts(&p);
    assert_eq!(listed.len(), 1);
    assert_eq!(listed[0].title, "second");
    assert_eq!(listed[0].updated_at, 6);
}

#[test]
fn deleting_prompt() {
    let mut p = PromptLibrary::new();
    save_prompt(&mut p, prompt("a", "A", 5));
    save_prompt(&mut p, prompt("b", "B", 6));
    delete_prompt(&mut p, &"a".to_string());
    let listed = get_prompts(&p);
    assert_eq!(listed.len(), 1);
    assert_eq!(listed[0].id, "b");
}

#[test]
fn categories_listed_by_order() {
    let mut c = CategoryList::new();
    save_category(&mut c, category("x", "X", 2));
    save_category(&mut c, category("y", "Y", 0));
    save_category(&mut c, category("z", "Z", 1));
    let names: Vec<String> = get_categories(&c).into_iter().map(|x| x.name).collect();
    assert_eq!(names, vec!["Y", "Z", "X"]);
}

#[test]
fn category_save_replace_and_delete() {
    let mut c = CategoryList::new();
    save_category(&mut c, category("x", "X", 2));
    save_category(&mut c, category("x", "X2", 3));
    assert_eq!(c.len(), 1);
    assert_eq!(get_categories(&c)[0].name, "X2");
    delete_category(&mut c, &"x".to_string());
    assert_eq!(c.len(), 0);
}

#[test]
fn empty_category_list_is_seeded() {
    let mut c = CategoryList::new();
    let drawn = seed_default_categories(&mut c);
    assert_eq!(drawn.len(), DEFAULT_CATEGORY_COUNT);
    assert_eq!(c.len(), DEFAULT_CATEGORY_COUNT);
    let listed = get_categories(&c);
    let got: Vec<(String, String, u32)> =
        listed.iter().map(|x| (x.name.clone(), x.color.clone(), x.order)).collect();
    assert_eq!(
        got,
        vec![
            ("AI 提示".to_string(), "#8B5CF6".to_string(), 0),
            ("代码".to_string(), "#10B981".to_string(), 1),
            ("邮件".to_string(), "#3B82F6".to_string(), 2),
            ("写作".to_string(), "#F59E0B".to_string(), 3),
        ]
    );
    for (x, id) in listed.iter().zip(drawn.iter()) {
        assert_eq!(&x.id, id);
        assert_eq!(x.id.len(), 36);
    }
}

#[test]
fn non_empty_category_list_is_not_seeded() {
    let mut c = CategoryList::new();
    save_category(&mut c, category("mine", "Mine", 7));
    assert!(seed_default_categories(&mut c).is_empty());
    assert_eq!(c.len(), 1);
    assert_eq!(get_categories(&c)[0].id, "mine");
}

#[test]
fn seeding_skips_a_taken_id() {
    let mut c = CategoryList::new();
    let ids = vec!["x".to_string(), "y".to_string(), "x".to_string(), "z".to_string()];
    seed_categories_with_ids(&mut c, &ids);
    let got: Vec<(String, u32)> = get_categories(&c).into_iter().map(|x| (x.id, x.order)).collect();
    assert_eq!(got, vec![("x".to_string(), 0), ("y".to_string(), 1), ("z".to_string(), 3)]);
}

#[test]
fn prompt_with_oversized_time_is_not_saved() {
    let mut p = PromptLibrary::new();
    save_prompt(&mut p, prompt("a", "A", 5));
    save_prompt(&mut p, prompt("a", "B", u64::MAX));
    let listed = get_prompts(&p);
    assert_eq!(listed.len(), 1);
    assert_eq!(listed[0].title, "A");
    let mut late = prompt("b", "B", 6);
    late.created_at = (i64::MAX as u64) + 1;
    save_prompt(&mut p, late);
    assert_eq!(p.len(), 1);
    save_prompt(&mut p, prompt("c", "C", i64::MAX as u64));
    assert_eq!(p.len(), 2);
}
