use grouped_picker::item::CustomItem;
use grouped_picker::ranking::{needs_delegate, rank_item};
use skim::prelude::{AndOrEngineFactory, ExactOrFuzzyEngineFactory};
use skim::{CaseMatching, MatchEngine, MatchEngineFactory, SkimItem};
use std::sync::Arc;

#[test]
fn separator_rank_is_fixed() {
    let sep = CustomItem::separator(10000, "---".to_string());
    assert!(!needs_delegate(&sep));
    assert_eq!(rank_item(&sep, None), Some([10000, 0, 0, 0]));
    assert_eq!(rank_item(&sep, Some([-50, 3, 4, 5])), Some([10000, 0, 0, 0]));
}

#[test]
fn group_is_added_to_first_field() {
    let item = CustomItem::line(10000, "banana".to_string());
    assert!(needs_delegate(&item));
    assert_eq!(rank_item(&item, Some([-35, 1, 2, 6])), Some([9965, 1, 2, 6]));
}

#[test]
fn unmatched_item_is_dropped() {
    let item = CustomItem::line(0, "cherry".to_string());
    assert_eq!(rank_item(&item, None), None);
}

#[test]
fn same_group_keeps_delegate_order() {
    let a = CustomItem::line(30000, "a".to_string());
    let b = CustomItem::line(30000, "b".to_string());
    let da = [-40, 0, 1, 4];
    let db = [-40, 2, 3, 4];
    let ra = rank_item(&a, Some(da)).unwrap();
    let rb = rank_item(&b, Some(db)).unwrap();
    assert_eq!(da < db, ra < rb);
    assert!(ra < rb);
}

#[test]
fn lower_group_ranks_first() {
    let a = CustomItem::line(0, "weak".to_string());
    let b = CustomItem::line(10000, "strong".to_string());
    let ra = rank_item(&a, Some([-1, 9, 9, 9])).unwrap();
    let rb = rank_item(&b, Some([-900, 0, 0, 0])).unwrap();
    assert!(ra < rb);
}

fn delegate_rank(engine: &dyn MatchEngine, text: &str) -> Option<[i32; 4]> {
    let item: Arc<dyn SkimItem> = Arc::new(text.to_string());
    engine.match_item(item).map(|m| m.rank)
}

fn rank_with(engine: &dyn MatchEngine, item: &CustomItem) -> Option<[i32; 4]> {
    let delegate = if needs_delegate(item) {
        delegate_rank(engine, item.text())
    } else {
        None
    };
    rank_item(item, delegate)
}

#[test]
fn query_a_ranks_first_source_before_second() {
    let factory = AndOrEngineFactory::new(ExactOrFuzzyEngineFactory::builder().build());
    let engine = factory.create_engine_with_case("a", CaseMatching::Ignore);
    let items = vec![
        CustomItem::line(0, "apple".to_string()),
        CustomItem::line(0, "avocado".to_string()),
        CustomItem::separator(0, "---".to_string()),
        CustomItem::line(10000, "banana".to_string()),
    ];
    let ranks: Vec<Option<[i32; 4]>> = items.iter().map(|i| rank_with(engine.as_ref(), i)).collect();
    assert!(ranks.iter().all(|r| r.is_some()));
    let r: Vec<[i32; 4]> = ranks.into_iter().map(|r| r.unwrap()).collect();
    assert_eq!(r[2], [0, 0, 0, 0]);
    assert!(r[0] < r[3]);
    assert!(r[1] < r[3]);
    assert!(r[2] < r[3]);
}

#[test]
fn separator_survives_a_query_it_does_not_contain() {
    let factory = AndOrEngineFactory::new(ExactOrFuzzyEngineFactory::builder().build());
    let engine = factory.create_engine_with_case("zzz", CaseMatching::Ignore);
    let sep = CustomItem::separator(0, "---".to_string());
    let line = CustomItem::line(0, "apple".to_string());
    assert_eq!(rank_with(engine.as_ref(), &sep), Some([0, 0, 0, 0]));
    assert_eq!(rank_with(engine.as_ref(), &line), None);
}
