use engine_core::{
    Name, QueryDescriptor, QuerySubscriptionManager, Scalar, Transform, Vec3, World,
};

fn sorted_ids<C>(manager: &QuerySubscriptionManager<C>) -> Vec<u32> {
    let mut ids = manager.subscription_ids();
    ids.sort();
    ids
}

fn num(x: f64) -> Scalar {
    Scalar::from_bits(x.to_bits())
}

#[test]
fn ids_start_at_one_and_grow() {
    let mut manager: QuerySubscriptionManager<&str> = QuerySubscriptionManager::new();
    assert!(manager.subscription_ids().is_empty());
    assert_eq!(manager.subscribe(QueryDescriptor::new(), "first"), 1);
    assert_eq!(manager.subscribe(QueryDescriptor::new(), "second"), 2);
    assert_eq!(manager.subscribe(QueryDescriptor::new(), "third"), 3);
    assert_eq!(sorted_ids(&manager), vec![1, 2, 3]);
    assert!(manager.unsubscribe(2));
    assert_eq!(sorted_ids(&manager), vec![1, 3]);
    assert_eq!(manager.subscribe(QueryDescriptor::new(), "fourth"), 4);
    assert_eq!(sorted_ids(&manager), vec![1, 3, 4]);
}

#[test]
fn unsubscribe_says_whether_there_was_a_subscription() {
    let mut manager: QuerySubscriptionManager<u8> = QuerySubscriptionManager::new();
    assert!(!manager.unsubscribe(1));
    let id = manager.subscribe(QueryDescriptor::new(), 0);
    assert!(!manager.unsubscribe(id + 1));
    assert!(!manager.unsubscribe(0));
    assert!(manager.unsubscribe(id));
    assert!(!manager.unsubscribe(id));
    assert!(manager.get(id).is_none());
    assert!(manager.subscription_ids().is_empty());
}

#[test]
fn a_new_subscriber_has_been_told_nothing() {
    let mut manager: QuerySubscriptionManager<&str> = QuerySubscriptionManager::new();
    let id = manager.subscribe(QueryDescriptor::new().with(["Name"]), "callback");
    let subscription = manager.get(id).unwrap();
    assert_eq!(subscription.last_result_hash, None);
    assert_eq!(subscription.callback, "callback");
    assert_eq!(subscription.query.with_components, vec!["Name"]);
}

#[test]
fn the_first_result_is_news_whatever_its_fingerprint() {
    for fingerprint in [0u64, 1, u64::MAX] {
        let mut manager: QuerySubscriptionManager<&str> = QuerySubscriptionManager::new();
        let id = manager.subscribe(QueryDescriptor::new(), "callback");
        assert_eq!(manager.observe(id, fingerprint), Some(&"callback"));
        assert_eq!(manager.get(id).unwrap().last_result_hash, Some(fingerprint));
    }
}

#[test]
fn an_unchanged_result_is_not_told_again() {
    let mut manager: QuerySubscriptionManager<&str> = QuerySubscriptionManager::new();
    let id = manager.subscribe(QueryDescriptor::new(), "callback");
    assert_eq!(manager.observe(id, 17), Some(&"callback"));
    assert_eq!(manager.observe(id, 17), None);
    assert_eq!(manager.observe(id, 17), None);
    assert_eq!(manager.get(id).unwrap().last_result_hash, Some(17));
}

#[test]
fn a_changed_result_is_told_once() {
    let mut manager: QuerySubscriptionManager<&str> = QuerySubscriptionManager::new();
    let id = manager.subscribe(QueryDescriptor::new(), "callback");
    assert_eq!(manager.observe(id, 17), Some(&"callback"));
    assert_eq!(manager.observe(id, 18), Some(&"callback"));
    assert_eq!(manager.observe(id, 18), None);
    assert_eq!(manager.observe(id, 17), Some(&"callback"));
    assert_eq!(manager.observe(id, 17), None);
}

#[test]
fn observing_one_subscription_leaves_the_others_alone() {
    let mut manager: QuerySubscriptionManager<&str> = QuerySubscriptionManager::new();
    let a = manager.subscribe(QueryDescriptor::new(), "a");
    let b = manager.subscribe(QueryDescriptor::new(), "b");
    assert_eq!(manager.observe(a, 5), Some(&"a"));
    assert_eq!(manager.get(b).unwrap().last_result_hash, None);
    assert_eq!(manager.observe(b, 5), Some(&"b"));
    assert_eq!(manager.observe(a, 5), None);
    assert_eq!(manager.observe(99, 5), None);
    assert_eq!(sorted_ids(&manager), vec![a, b]);
}

#[test]
fn get_mut_reaches_the_subscription() {
    let mut manager: QuerySubscriptionManager<&str> = QuerySubscriptionManager::new();
    let id = manager.subscribe(QueryDescriptor::new(), "before");
    if let Some(subscription) = manager.get_mut(id) {
        subscription.callback = "after";
        subscription.last_result_hash = Some(3);
    }
    assert!(manager.get_mut(id + 1).is_none());
    assert_eq!(manager.get(id).unwrap().callback, "after");
    assert_eq!(manager.observe(id, 3), None);
    assert_eq!(manager.observe(id, 4), Some(&"after"));
}

#[test]
fn evaluate_runs_the_query_of_the_subscription() {
    let mut world = World::new();
    let e = world.spawn();
    world.insert(e, Name::new("one"));
    let f = world.spawn();
    world.insert(f, Name::new("two"));
    world.insert(f, Transform::from_position(Vec3::new(num(1.0), num(0.0), num(0.0))));

    let mut manager: QuerySubscriptionManager<()> = QuerySubscriptionManager::new();
    let all = manager.subscribe(QueryDescriptor::new(), ());
    let placed = manager.subscribe(QueryDescriptor::new().with(["Transform"]), ());

    assert_eq!(manager.evaluate(all, &world).unwrap().total_count, 2);
    let result = manager.evaluate(placed, &world).unwrap();
    assert_eq!(result.total_count, 1);
    assert_eq!(result.rows[0].id, f.to_u32());
    assert_eq!(result, world.execute_query(&QueryDescriptor::new().with(["Transform"])));
    assert!(manager.evaluate(placed + 1, &world).is_none());
}

#[test]
fn evaluate_all_runs_every_query_once() {
    let mut world = World::new();
    let e = world.spawn();
    world.insert(e, Name::new("one"));
    let f = world.spawn();
    world.insert(f, Transform::identity());

    let mut manager: QuerySubscriptionManager<()> = QuerySubscriptionManager::new();
    assert!(manager.evaluate_all(&world).is_empty());
    let all = manager.subscribe(QueryDescriptor::new(), ());
    let named = manager.subscribe(QueryDescriptor::new().with(["Name"]), ());
    let gone = manager.subscribe(QueryDescriptor::new().with(["Transform"]), ());
    let none = manager.subscribe(QueryDescriptor::new().with(["Name", "Transform"]), ());
    assert!(manager.unsubscribe(gone));

    let mut results = manager.evaluate_all(&world);
    results.sort_by_key(|(id, _)| *id);
    let ids: Vec<u32> = results.iter().map(|(id, _)| *id).collect();
    assert_eq!(ids, vec![all, named, none]);
    let counts: Vec<usize> = results.iter().map(|(_, result)| result.total_count).collect();
    assert_eq!(counts, vec![2, 1, 0]);
    assert_eq!(results[1].1.rows[0].id, e.to_u32());
}

#[test]
fn can_subscribe_while_ids_are_left() {
    let mut manager: QuerySubscriptionManager<()> = QuerySubscriptionManager::new();
    assert!(manager.can_subscribe());
    manager.subscribe(QueryDescriptor::new(), ());
    assert!(manager.can_subscribe());
}
