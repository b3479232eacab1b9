use cata::output::tabled::{display, Opt};
use cata::output::Format;

#[test]
fn default_format_is_pretty() {
    let f: Format = Default::default();
    assert_eq!(f, Format::Pretty);
}

#[test]
fn display_sorts_and_joins_with_newlines() {
    let items = vec!["pear".to_string(), "apple".to_string(), "orange".to_string()];
    assert_eq!(display(&items), "apple\norange\npear");
}

#[test]
fn display_of_empty_list_is_empty() {
    let items: Vec<String> = vec![];
    assert_eq!(display(&items), "");
}

#[test]
fn display_of_single_item_is_the_item() {
    let items = vec!["only".to_string()];
    assert_eq!(display(&items), "only");
}

#[test]
fn display_keeps_duplicates() {
    let items = vec!["b".to_string(), "a".to_string(), "b".to_string()];
    assert_eq!(display(&items), "a\nb\nb");
}

#[test]
fn opt_wraps_either_case() {
    let some: Opt<u64> = Opt::from(Some(3));
    let none: Opt<u64> = Opt::from(None);
    assert_eq!(some.0, Some(3));
    assert_eq!(none.0, None);
}
