use grouped_picker::item::CustomItem;
use grouped_picker::producer::{check_config, plan_sources, produce_items, ConfigError, Step};

fn lines(texts: &[&str]) -> Vec<String> {
    texts.iter().map(|t| t.to_string()).collect()
}

fn summary(items: &[CustomItem]) -> Vec<(u16, String, bool)> {
    items.iter().map(|i| (i.group, i.inner.clone(), i.persist)).collect()
}

#[test]
fn two_sources_emission_sequence() {
    let sources = vec![lines(&["apple", "avocado"]), lines(&["banana"])];
    let items = produce_items(&sources, 10000, "---").unwrap();
    assert_eq!(
        summary(&items),
        vec![
            (0, "apple".to_string(), false),
            (0, "avocado".to_string(), false),
            (0, "---".to_string(), true),
            (10000, "banana".to_string(), false),
        ]
    );
}

#[test]
fn separator_count_is_sources_minus_one() {
    let sources = vec![lines(&["a"]), lines(&[]), lines(&["b", "c"]), lines(&["d"])];
    let items = produce_items(&sources, 100, "|").unwrap();
    let separators = items.iter().filter(|i| i.persist).count();
    assert_eq!(separators, 3);
    assert_eq!(items.len(), 4 + 3);
}

#[test]
fn single_source_has_no_separator() {
    let sources = vec![lines(&["x", "y", "z"])];
    let items = produce_items(&sources, 10000, "---").unwrap();
    assert_eq!(
        summary(&items),
        vec![
            (0, "x".to_string(), false),
            (0, "y".to_string(), false),
            (0, "z".to_string(), false),
        ]
    );
}

#[test]
fn empty_sources_keep_their_separators() {
    let sources = vec![lines(&[]), lines(&[]), lines(&["q"])];
    let items = produce_items(&sources, 7, "==").unwrap();
    assert_eq!(
        summary(&items),
        vec![
            (0, "==".to_string(), true),
            (7, "==".to_string(), true),
            (14, "q".to_string(), false),
        ]
    );
}

#[test]
fn groups_rise_with_each_source() {
    let sources = vec![lines(&["a", "b"]), lines(&["c"]), lines(&["d", "e"])];
    let items = produce_items(&sources, 3, "-").unwrap();
    let groups: Vec<u16> = items.iter().map(|i| i.group).collect();
    assert_eq!(groups, vec![0, 0, 0, 3, 3, 6, 6]);
    assert!(groups.windows(2).all(|w| w[0] <= w[1]));
}

#[test]
fn lines_are_kept_verbatim() {
    let sources = vec![lines(&["  padded  ", "", "tab\there"])];
    let items = produce_items(&sources, 1, "-").unwrap();
    let texts: Vec<String> = items.iter().map(|i| i.inner.clone()).collect();
    assert_eq!(texts, lines(&["  padded  ", "", "tab\there"]));
}

#[test]
fn no_sources_is_rejected() {
    let sources: Vec<Vec<String>> = Vec::new();
    assert!(matches!(produce_items(&sources, 10000, "---"), Err(ConfigError::NoSources)));
    assert_eq!(check_config(0, 10000), Err(ConfigError::NoSources));
}

#[test]
fn zero_group_score_is_rejected() {
    let sources = vec![lines(&["a"])];
    assert!(matches!(produce_items(&sources, 0, "---"), Err(ConfigError::ZeroGroupScore)));
}

#[test]
fn group_overflow_is_rejected() {
    assert_eq!(check_config(7, 10000), Ok(()));
    assert_eq!(check_config(8, 10000), Err(ConfigError::GroupOverflow));
    assert_eq!(check_config(65536, 1), Ok(()));
    assert_eq!(check_config(65537, 1), Err(ConfigError::GroupOverflow));
    let sources: Vec<Vec<String>> = (0..8).map(|_| lines(&["l"])).collect();
    assert!(matches!(produce_items(&sources, 10000, "---"), Err(ConfigError::GroupOverflow)));
}

#[test]
fn largest_group_fits() {
    let sources = vec![lines(&["a"]), lines(&["b"])];
    let items = produce_items(&sources, 65535, "-").unwrap();
    assert_eq!(items[2].group, 65535);
}

#[test]
fn plan_interleaves_separators() {
    let plan = plan_sources(3, 10000).unwrap();
    assert_eq!(
        plan,
        vec![
            Step::Source { index: 0, group: 0 },
            Step::Separator { group: 0 },
            Step::Source { index: 1, group: 10000 },
            Step::Separator { group: 10000 },
            Step::Source { index: 2, group: 20000 },
        ]
    );
    assert_eq!(plan_sources(1, 5).unwrap(), vec![Step::Source { index: 0, group: 0 }]);
    assert_eq!(plan_sources(0, 5), Err(ConfigError::NoSources));
}

#[test]
fn item_constructors() {
    let l = CustomItem::line(20, "text".to_string());
    assert!(!l.is_separator());
    assert_eq!(l.text(), "text");
    let s = CustomItem::separator(20, "---".to_string());
    assert!(s.is_separator());
    assert_eq!(s.group, 20);
}
