use toot::categories::CategoryMap;
use toot::feed::Item;
use toot::formatter::toot_text_from_item;

fn item(id: &str, title: &str, author: &str, url: &str, tags: &[&str]) -> Item {
    Item {
        id: id.to_string(),
        title: title.to_string(),
        author_name: author.to_string(),
        url: url.to_string(),
        tags: tags.iter().map(|t| t.to_string()).collect(),
    }
}

#[test]
fn example_announcement_text() {
    let it = item("1", "T1", "A", "http://x", &["async"]);
    let mut cats = CategoryMap::new();
    assert!(cats.insert("async".to_string(), "AsyncRust".to_string()));
    let text = toot_text_from_item(&it, &cats);
    assert_eq!(text, "T1 by A: http://x #Rust #AsyncRust");
}

#[test]
fn no_resolved_tags_ends_with_fixed_tag_only() {
    let it = item("1", "T", "A", "u", &[]);
    let cats = CategoryMap::new();
    assert_eq!(toot_text_from_item(&it, &cats), "T by A: u #Rust");
}

#[test]
fn unresolved_tags_are_skipped_without_gaps() {
    let it = item("1", "T", "A", "u", &["b", "x", "a"]);
    let mut cats = CategoryMap::new();
    assert!(cats.insert("a".to_string(), "TagA".to_string()));
    assert!(cats.insert("b".to_string(), "TagB".to_string()));
    // hashtag order follows tag order, and the unmapped tag leaves no gap
    assert_eq!(toot_text_from_item(&it, &cats), "T by A: u #Rust #TagB #TagA");
}

#[test]
fn formatter_is_deterministic() {
    let it = item("9", "Title", "Author", "https://example.net/p", &["web", "cli"]);
    let mut cats = CategoryMap::new();
    assert!(cats.insert("web".to_string(), "WebDev".to_string()));
    assert!(cats.insert("cli".to_string(), "CommandLine".to_string()));
    let first = toot_text_from_item(&it, &cats);
    let second = toot_text_from_item(&it, &cats);
    assert_eq!(first, second);
    assert_eq!(first, "Title by Author: https://example.net/p #Rust #WebDev #CommandLine");
}
