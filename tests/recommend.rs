use vilkas::http::LastView;
use vilkas::learn::metrics::{improves, Auc};
use vilkas::recommend::conf::{list_feature, max_candidate_count, MetaFeature, PartConfig};
use vilkas::recommend::request::{resort_examples, BufIter, CandidateList, Request};
use vilkas::recommend::train::{enough_features, label_examples, normal_split, MIN_FEATURES};
use vilkas::recommend::view::near_pairs;
use vilkas::storage::items::list::ItemList;
use vilkas::storage::items::scope::TimeScope;
use vilkas::storage::models::example::{scope_index, BasicExample, ListKind, ListPosition};

fn bits(x: f64) -> u64 {
    x.to_bits()
}

fn request(whitelist: Option<Vec<u128>>) -> Request {
    Request { part: "default".to_string(), user: 1, current: 2, whitelist, count: 5 }
}

#[test]
fn whitelist_gives_bare_examples() {
    let r = request(Some(vec![10, 11, 12])).candidates(2, &vec![(ListKind::Near, vec![(99, bits(1.0))])]);
    assert_eq!(r.len(), 2);
    assert_eq!(r[0].id, 10);
    assert_eq!(r[1].id, 11);
    assert!(r[0].near.is_none());
    assert!(r[1].top.iter().all(|p| p.is_none()));
}

#[test]
fn candidates_merge_positions_of_all_lists() {
    let lists = vec![
        (ListKind::Near, vec![(7, bits(3.0)), (8, bits(2.0))]),
        (ListKind::Top(TimeScope::Day), vec![(8, bits(5.0)), (9, bits(1.0))]),
        (ListKind::Pop(TimeScope::Hour), vec![(7, bits(0.5))]),
    ];
    let r = request(None).candidates(10, &lists);
    let ids: Vec<u128> = r.iter().map(|e| e.id).collect();
    assert_eq!(ids, vec![7, 8, 9]);
    assert_eq!(r[0].near, Some(ListPosition::new(bits(3.0), 0)));
    assert_eq!(r[0].pop[scope_index(TimeScope::Hour)], Some(ListPosition::new(bits(0.5), 0)));
    assert_eq!(r[1].near, Some(ListPosition::new(bits(2.0), 1)));
    assert_eq!(r[1].top[scope_index(TimeScope::Day)], Some(ListPosition::new(bits(5.0), 0)));
    assert_eq!(r[2].top[scope_index(TimeScope::Day)], Some(ListPosition::new(bits(1.0), 1)));
    assert!(r[2].near.is_none());
}

#[test]
fn candidate_table_is_bounded() {
    let lists = vec![(ListKind::Near, (0..10u128).map(|i| (i, bits(1.0))).collect::<Vec<_>>())];
    let r = request(None).candidates(2, &lists);
    let ids: Vec<u128> = r.iter().map(|e| e.id).collect();
    assert_eq!(ids, vec![0, 1]);
    let mut table = CandidateList::new(1);
    table.mutate(5, ListKind::Near, ListPosition::new(bits(1.0), 3));
    table.mutate(6, ListKind::Near, ListPosition::new(bits(1.0), 0));
    table.mutate(5, ListKind::Near, ListPosition::new(bits(2.0), 1));
    let inner = table.into_inner();
    assert_eq!(inner.len(), 1);
    assert_eq!(inner[0].near, Some(ListPosition::new(bits(1.0), 3)));
}

#[test]
fn near_position_keeps_higher_rank() {
    let mut e = BasicExample::new(1);
    e.with_near(ListPosition::new(bits(1.0), 4));
    e.with_near(ListPosition::new(bits(2.0), 2));
    assert_eq!(e.near, Some(ListPosition::new(bits(1.0), 4)));
    e.with_near(ListPosition::new(bits(3.0), 6));
    assert_eq!(e.near, Some(ListPosition::new(bits(3.0), 6)));
    e.with_top(TimeScope::Month, ListPosition::new(bits(1.0), 0));
    e.with_pop(TimeScope::HalfHour, ListPosition::new(bits(1.0), 1));
    assert_eq!(e.top[6], Some(ListPosition::new(bits(1.0), 0)));
    assert_eq!(e.pop[0], Some(ListPosition::new(bits(1.0), 1)));
}

#[test]
fn view_records_co_occurrence_both_ways() {
    let item: u128 = 100;
    let h: u128 = 200;
    let pairs = near_pairs(item, &vec![h]);
    assert_eq!(pairs, vec![(item, vec![h]), (h, vec![item])]);
    let mut lists = vec![ItemList::new(), ItemList::new()];
    for (k, (_, nears)) in pairs.iter().enumerate() {
        let slots = lists[k].prepare_increment(nears);
        for s in slots {
            let v = f64::from_bits(lists[k].items[s].1) + 1.0;
            lists[k].items[s].1 = v.to_bits();
        }
    }
    assert_eq!(lists[0].items, vec![(h, bits(1.0))]);
    assert_eq!(lists[1].items, vec![(item, bits(1.0))]);
    assert_eq!(near_pairs(item, &vec![]), vec![(item, vec![])]);
}

#[test]
fn labels_follow_chosen_items() {
    assert_eq!(label_examples(&vec![1, 2, 3], &Some(vec![3, 1])), vec![true, false, true]);
    assert_eq!(label_examples(&vec![1, 2], &None), vec![false, false]);
}

#[test]
fn training_gate_and_split() {
    assert_eq!(MIN_FEATURES, 64);
    assert!(!enough_features(63));
    assert!(enough_features(64));
    assert_eq!(normal_split(0), 0);
    assert_eq!(normal_split(64), 42);
    assert_eq!(normal_split(3), 2);
    assert_eq!(normal_split(usize::MAX), (usize::MAX / 3) * 2);
}

#[test]
fn promotion_keeps_the_better_model() {
    let old = Auc { num: 5, den: 8 };
    let worse = Auc { num: 1, den: 4 };
    let better = Auc { num: 3, den: 4 };
    let kept = if improves(old, worse) { worse } else { old };
    assert_eq!(kept, old);
    let kept = if improves(old, better) { better } else { old };
    assert_eq!(kept, better);
}

#[test]
fn view_average_tracks_intervals() {
    let mut last = LastView::new(1000);
    assert_eq!(last.push(1600), 600);
    assert_eq!(last.count, 1);
    assert_eq!(last.push(2000), (600 + 400) / 1);
    assert_eq!(last.push(2100), (1000 * 2 + 100) / 2);
    assert_eq!(last.push(50), (1050 * 3 + 0) / 3);
    assert_eq!(last.instant, 50);
}

#[test]
fn exploration_swaps_tail_into_prefix() {
    let before: Vec<u32> = (0..10).collect();
    let mut v = before.clone();
    resort_examples(&mut v, 3, false);
    assert_eq!(v, before);
    resort_examples(&mut v, 10, true);
    assert_eq!(v, before);
    resort_examples(&mut v, 3, true);
    let moved: Vec<usize> = (0..10).filter(|i| v[*i] != before[*i]).collect();
    assert_eq!(moved.len(), 2);
    assert!(moved[0] < 3 && moved[1] >= 3);
    assert_eq!(v[moved[0]], before[moved[1]]);
    assert_eq!(v[moved[1]], before[moved[0]]);
}

#[test]
fn batches_hold_at_most_size_entries() {
    let mut it = BufIter::new(vec![1, 2, 3, 4, 5], 2);
    assert_eq!(it.next_batch(), Some(vec![1, 2]));
    assert_eq!(it.next_batch(), Some(vec![3, 4]));
    assert_eq!(it.next_batch(), Some(vec![5]));
    assert_eq!(it.next_batch(), None);
    let mut empty = BufIter::new(Vec::<u8>::new(), 4);
    assert_eq!(empty.next_batch(), None);
}

#[test]
fn overlap_features_count_shared_tags() {
    let mut config = PartConfig::new();
    assert_eq!(config.max_candidate_count, max_candidate_count());
    config.meta_features.push(("genre".to_string(), MetaFeature::Overlap));
    config.meta_features.push(("author".to_string(), MetaFeature::Ignore));
    let given = vec![
        ("genre".to_string(), vec!["a".to_string(), "b".to_string(), "c".to_string()]),
        ("author".to_string(), vec!["x".to_string()]),
        ("unknown".to_string(), vec![]),
    ];
    let current = vec![
        ("author".to_string(), vec!["x".to_string()]),
        ("genre".to_string(), vec!["c".to_string(), "a".to_string(), "z".to_string()]),
    ];
    assert_eq!(config.extract_all(&given, &current), vec![("meta:genre:overlap".to_string(), 2)]);
    assert_eq!(config.extract_all(&given, &vec![]), vec![("meta:genre:overlap".to_string(), 0)]);
    assert_eq!(MetaFeature::default(), MetaFeature::Ignore);
    assert_eq!(config.meta_kind(&"author".to_string()), Some(MetaFeature::Ignore));
    assert_eq!(config.meta_kind(&"nope".to_string()), None);
}

#[test]
fn list_feature_names() {
    assert_eq!(list_feature(ListKind::Near, false), "list:near:value:ln1p");
    assert_eq!(list_feature(ListKind::Near, true), "list:near:rank");
    assert_eq!(list_feature(ListKind::Top(TimeScope::Day), false), "list:top:day:value:ln1p");
    assert_eq!(list_feature(ListKind::Pop(TimeScope::FourHours), true), "list:pop:four-hours:rank");
}
