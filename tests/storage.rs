use rand::seq::SliceRandom;
use rand::Rng;
use vilkas::learn::vector::{order_key, Vector, ZERO};
use vilkas::storage::items::list::{elapsed_since, ItemList, DAY_MILLIS};
use vilkas::storage::items::scope::TimeScope;
use vilkas::storage::keys::Keys;
use vilkas::storage::models::list::FeatureList;
use vilkas::storage::users::{push_front_capped, UserData};
use vilkas::storage::{mem, redis, spike};

fn bits(x: f64) -> u64 {
    x.to_bits()
}

fn add_all(list: &mut ItemList, ids: &[u128], by: f64) {
    let slots = list.prepare_increment(&ids.to_vec());
    for s in slots {
        let v = f64::from_bits(list.items[s].1) + by;
        list.items[s].1 = v.to_bits();
    }
}

#[test]
fn tests_it_loads() {
    let keys = Keys::new();
    let name: String = rand::thread_rng()
        .sample_iter(rand::distributions::Alphanumeric)
        .take(16)
        .collect();
    let path = format!("/tmp/vilkas-{}", name);
    let env = lmdb::Environment::new()
        .set_max_readers(mem::max_readers())
        .set_max_dbs(8)
        .set_map_size(mem::map_size())
        .set_flags(lmdb::EnvironmentFlags::NO_SUB_DIR | lmdb::EnvironmentFlags::NO_TLS)
        .open(std::path::Path::new(&path))
        .expect("could not open memory-mapped file");
    for db in [
        &keys.activity_database,
        &keys.item_database,
        &keys.model_database,
        &keys.user_database,
    ] {
        env.create_db(Some(db.as_str()), lmdb::DatabaseFlags::empty())
            .expect("could not initialize databases");
    }
    std::mem::drop(env);
}

#[test]
fn tests_it_handles_near_requests() {
    let item: u128 = 0x0123_4567_89ab_cdef_0123_4567_89ab_cdef;
    let near: u128 = 42;
    let mut list = ItemList::new();
    add_all(&mut list, &[near], 1.0);
    assert!(!list.compact(512, 64));
    assert_ne!(item, near);
    assert_eq!(list.nmods, 1);
    assert_eq!(list.epoch, 0);
    assert_eq!(list.items.len(), 1);
    assert_eq!(list.items[0], (near, bits(1.0)));
}

#[test]
fn tests_it_calculates_near_items() {
    let items: Vec<u128> = (0..64u128).map(|i| 1000 + i).collect();
    let mut insertions = items
        .iter()
        .enumerate()
        .flat_map(|(i, item)| {
            let c = 65 - i;
            (0..c).map(move |_| *item)
        })
        .collect::<Vec<_>>();
    insertions.shuffle(&mut rand::thread_rng());
    let mut list = ItemList::new();
    add_all(&mut list, &insertions, 1.0);
    assert!(list.compact(512, 64));
    list.sort_by_score();

    assert_eq!(list.nmods, 0);
    assert_eq!(list.epoch, 0);
    assert!(list.items.len() > 63);
    assert_eq!(list.items[0].0, items[0]);
}

#[test]
fn compaction_cuts_to_max_count() {
    let mut list = ItemList::new();
    let ids: Vec<u128> = (0..10).collect();
    add_all(&mut list, &ids, 1.0);
    add_all(&mut list, &[7, 7, 3], 1.0);
    assert_eq!(list.nmods, 13);
    assert!(!list.compact(13, 2));
    assert_eq!(list.items.len(), 10);
    assert!(list.compact(12, 2));
    assert_eq!(list.nmods, 0);
    assert_eq!(list.items, vec![(7, bits(3.0)), (3, bits(2.0))]);
}

#[test]
fn increment_reuses_entries_and_appends_new_ones() {
    let mut list = ItemList::new();
    let slots = list.prepare_increment(&vec![5, 6, 5]);
    assert_eq!(slots, vec![0, 1, 0]);
    assert_eq!(list.items, vec![(5, ZERO), (6, ZERO)]);
    assert_eq!(list.position(6), Some(1));
    assert_eq!(list.position(9), None);
    list.nmods = u64::MAX - 1;
    list.prepare_increment(&vec![9, 9, 9]);
    assert_eq!(list.nmods, u64::MAX);
}

#[test]
fn elapsed_time_of_lists() {
    assert_eq!(elapsed_since(0, 5), DAY_MILLIS);
    assert_eq!(DAY_MILLIS, 1000 * 60 * 60 * 24);
    assert_eq!(elapsed_since(100, 350), 250);
    assert_eq!(elapsed_since(400, 350), 0);
}

#[test]
fn scopes_have_names_and_half_lives() {
    let names: Vec<&str> = TimeScope::variants().into_iter().map(|s| s.name()).collect();
    assert_eq!(
        names,
        vec!["half-hour", "hour", "two-hours", "four-hours", "eight-hours", "day", "month"]
    );
    assert_eq!(TimeScope::Month.half_life(), 43200);
    assert_eq!(TimeScope::TwoHours.half_life(), 120);
}

#[test]
fn keys_follow_the_storage_layout() {
    let keys = Keys::new();
    let id: u128 = 0x67e5_5044_10b1_426f_9247_bb68_0e5f_e0c8;
    assert_eq!(
        keys.item_key("default", id),
        "item:definition:default:67e55044-10b1-426f-9247-bb680e5fe0c8"
    );
    assert_eq!(
        keys.item_near_key("p", id),
        "item:list:near:p:67e55044-10b1-426f-9247-bb680e5fe0c8"
    );
    assert_eq!(keys.item_top_key("p", TimeScope::Day), "item:list:top:p:day");
    assert_eq!(keys.item_pop_key("p", TimeScope::Hour), "item:list:pop:p:hour");
    assert_eq!(keys.item_recent_key("p"), "item:list:recent:p");
    assert_eq!(keys.user_key("p", "me"), "user:data:p:me");
    assert_eq!(keys.model_key("p"), "model:scope:p");
    assert_eq!(keys.default_model_key(), "model:default");
    assert_eq!(
        keys.activity_key("p", 1),
        "activity:item:p:00000000-0000-0000-0000-000000000001"
    );
    assert_eq!(keys.activity_list_key("p"), "activity:list:scope:p");
    assert_eq!(keys.default_activity_list_key(), "activity:list:default");
    let list = keys.top_list_key("p", TimeScope::HalfHour);
    assert_eq!(list.base_key(), "item:list:top:p:half-hour");
    assert_eq!(list.list_key(), "item:list:top:p:half-hour:list");
    assert_eq!(list.nmods_key(), "item:list:top:p:half-hour:nmods");
    assert_eq!(list.epoch_key(), "item:list:top:p:half-hour:epoch");
    let near = keys.near_list_key("p", id);
    assert_eq!(near.base_key(), "item:list:near:p:67e55044-10b1-426f-9247-bb680e5fe0c8");
    assert_eq!(keys.pop_list_key("q", TimeScope::Month).base_key(), "item:list:pop:q:month");
}

#[test]
fn history_is_newest_first_and_capped() {
    let mut user = UserData::new("me".to_string());
    for item in 1..=5u128 {
        user.push_history(item, 3);
    }
    assert_eq!(user.history, vec![5, 4, 3]);
    assert_eq!(user.id, "me");
    user.push_history(9, 0);
    assert!(user.history.is_empty());
}

#[test]
fn feature_map_union_covers_both_key_sets() {
    let mut a = FeatureList::new();
    a.insert("x".to_string(), bits(1.0));
    a.insert("y".to_string(), bits(2.0));
    let mut b = FeatureList::new();
    b.insert("y".to_string(), bits(3.0));
    b.insert("z".to_string(), bits(4.0));
    let mut union = a.union(&b);
    union.sort();
    assert_eq!(
        union,
        vec![
            ("x".to_string(), bits(1.0), ZERO),
            ("y".to_string(), bits(2.0), bits(3.0)),
            ("z".to_string(), ZERO, bits(4.0)),
        ]
    );
    let combined = a.combine(&b);
    assert_eq!(combined, vec![("y".to_string(), bits(2.0), bits(3.0))]);
}

#[test]
fn feature_map_projection_keeps_key_order() {
    let mut a = FeatureList::new();
    a.insert("b".to_string(), bits(2.0));
    a.insert("a".to_string(), bits(1.0));
    a.insert("a".to_string(), bits(5.0));
    a.ensure_has(&"c".to_string());
    a.ensure_has(&"b".to_string());
    assert_eq!(a.len(), 3);
    assert_eq!(a.get(&"a".to_string()), Some(bits(5.0)));
    assert_eq!(a.get(&"c".to_string()), Some(ZERO));
    assert_eq!(a.get(&"d".to_string()), None);
    let v = a.to_vector(&vec!["c".to_string(), "missing".to_string(), "b".to_string(), "a".to_string()]);
    assert_eq!(v.into_vec(), vec![ZERO, ZERO, bits(2.0), bits(5.0)]);
    let mut keys = a.keys();
    keys.sort();
    assert_eq!(keys, vec!["a".to_string(), "b".to_string(), "c".to_string()]);
}

#[test]
fn vector_reads_zero_past_its_end() {
    let mut v = Vector::empty();
    assert_eq!(v.len(), 0);
    assert_eq!(v.element(3), ZERO);
    v.set_element(2, bits(1.5));
    assert_eq!(v.clone().into_vec(), vec![ZERO, ZERO, bits(1.5)]);
    v.resize_to(1);
    assert_eq!(v.len(), 3);
    v.resize_to(4);
    assert_eq!(v.len(), 5);
    let w = Vector::from_vec(vec![bits(2.0)]);
    assert_eq!(
        w.combine(&v),
        vec![(bits(2.0), ZERO), (ZERO, ZERO), (ZERO, bits(1.5)), (ZERO, ZERO), (ZERO, ZERO)]
    );
    assert_eq!(order_key(ZERO), 1u64 << 63);
}

#[test]
fn store_defaults() {
    assert_eq!(mem::max_readers(), 126);
    assert_eq!(mem::map_size(), 4096 * 1024);
    assert_eq!(mem::user_history_length(), 16);
    assert_eq!(mem::activity_list_length(), 256);
    assert_eq!(mem::recent_list_length(), 256);
    assert_eq!(redis::user_history_length(), 16);
    assert_eq!(redis::activity_list_length(), 256);
    assert_eq!(redis::short_activity_lifetime(), 600);
    assert_eq!(redis::long_activity_lifetime(), 7200);
    assert_eq!(redis::activity_list_lifetime(), 7200);
    assert_eq!(redis::recent_list_length(), 256);
    assert_eq!(spike::aerospike_thread_pool(), 16);
    assert!(!spike::aerospike_services_alternate());
    assert_eq!(spike::user_history_length(), 16);
    assert_eq!(spike::short_activity_lifetime(), 600);
    assert_eq!(spike::long_activity_lifetime(), 7200);
    assert_eq!(spike::list_activity_lifetime(), 7200);
    assert_eq!(spike::list_activity_length(), 256);
    assert_eq!(spike::list_recent_length(), 256);
}

#[test]
fn activity_list_keeps_newest_entries() {
    let mut list: Vec<(String, u128)> = Vec::new();
    for id in 0..4u128 {
        push_front_capped(&mut list, ("p".to_string(), id), 3);
    }
    assert_eq!(
        list,
        vec![("p".to_string(), 3), ("p".to_string(), 2), ("p".to_string(), 1)]
    );
    push_front_capped(&mut list, ("q".to_string(), 9), 0);
    assert!(list.is_empty());
}
