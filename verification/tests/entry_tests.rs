use std::str::FromStr;

use nyheter::entry::{get_enhanced_categories, NyheterCategory, NyheterNewsEntry};

#[test]
fn category_from_str_keeps_label() {
    let category = NyheterCategory::from_str("Politik").unwrap();
    assert_eq!(category.raw_name, "Politik");
    assert_eq!(category.debug_text(), "Politik");
}

#[test]
fn enhanced_categories_keep_order_and_text() {
    let labels = vec![
        String::from("Wirtschaft"),
        String::from("Sport"),
        String::from("Kultur"),
    ];
    let categories = get_enhanced_categories(&labels);
    assert_eq!(categories.len(), 3);
    assert_eq!(categories[0].raw_name, "Wirtschaft");
    assert_eq!(categories[1].raw_name, "Sport");
    assert_eq!(categories[2].raw_name, "Kultur");
}

#[test]
fn enhanced_categories_of_empty_list() {
    let labels: Vec<String> = Vec::new();
    assert_eq!(get_enhanced_categories(&labels).len(), 0);
}

#[test]
fn short_description_strips_markup() {
    let entry = NyheterNewsEntry {
        title: String::from("Headline"),
        description: String::from("A <b>bold</b> claim\nacross lines"),
        categories: Vec::new(),
    };
    assert_eq!(entry.get_short_description(), "A bold claimacross lines");
}

#[test]
fn short_description_truncates() {
    let entry = NyheterNewsEntry {
        title: String::from("Headline"),
        description: "d".repeat(140),
        categories: Vec::new(),
    };
    let short = entry.get_short_description();
    assert_eq!(short.chars().count(), 100);
    assert_eq!(short, format!("{}...", "d".repeat(97)));
}

#[test]
fn format_line_lists_all_fields() {
    let labels = vec![String::from("one"), String::from("two")];
    let entry = NyheterNewsEntry {
        title: String::from("Title"),
        description: String::from(" <i>short</i> text "),
        categories: get_enhanced_categories(&labels),
    };
    assert_eq!(entry.format_line(), "Title :: short text :: [one, two]");
}

#[test]
fn format_line_with_single_category() {
    let labels = vec![String::from("only")];
    let entry = NyheterNewsEntry {
        title: String::from("T"),
        description: String::from("d"),
        categories: get_enhanced_categories(&labels),
    };
    assert_eq!(entry.format_line(), "T :: d :: [only]");
}

#[test]
fn format_line_with_no_categories() {
    let entry = NyheterNewsEntry {
        title: String::from("T"),
        description: String::from("d"),
        categories: Vec::new(),
    };
    assert_eq!(entry.format_line(), "T :: d :: []");
}
