use bloomfilter::Bloom;
use photo_sync::filter::{filter_contains, MembershipFilter};
use photo_sync::friend::Friend;
use photo_sync::reconcile::{build_filter, compute_digest, reconcile, ReconciliationResult};

const LOW_RATE: f64 = 1e-9;

fn holder(name: &str, items: &[i32]) -> Friend {
    let mut friend = Friend::new(name.to_string());
    for item in items {
        friend.add(*item);
    }
    friend
}

fn exact_filter(master: &Friend) -> MembershipFilter {
    let bitmap_bytes = Bloom::<i32>::compute_bitmap_size(100, LOW_RATE);
    build_filter(master, 100, LOW_RATE.to_bits(), bitmap_bytes).unwrap()
}

#[test]
fn same_items_need_no_sync() {
    let master = holder("F.1/MASTER", &[1, 2, 3]);
    let mut replica = holder("F.2/SLAVE", &[1, 2, 3]);
    let master_digest = compute_digest(&master);
    let master_filter = exact_filter(&master);
    assert_eq!(compute_digest(&replica), master_digest);
    assert_eq!(reconcile(&mut replica, master_digest, &master_filter), None);
}

#[test]
fn same_items_in_another_order_need_no_sync() {
    let master = holder("F.1/MASTER", &[1, 2, 3]);
    let mut replica = holder("F.2/SLAVE", &[3, 1, 2]);
    let master_digest = compute_digest(&master);
    let master_filter = exact_filter(&master);
    assert_eq!(reconcile(&mut replica, master_digest, &master_filter), None);
}

#[test]
fn one_item_the_master_lacks_is_reported() {
    let master = holder("F.1/MASTER", &[1, 2, 3]);
    let mut replica = holder("F.2/SLAVE", &[1, 2, 4]);
    let master_digest = compute_digest(&master);
    let master_filter = exact_filter(&master);
    let report = reconcile(&mut replica, master_digest, &master_filter).unwrap();
    assert_eq!(report.missing_items, vec![4]);
    assert_eq!(report.replica_id, "F.2/SLAVE");
}

#[test]
fn against_an_empty_master_every_item_is_reported() {
    let master = holder("F.1/MASTER", &[]);
    let mut replica = holder("F.3/SLAVE", &[5, 6]);
    let master_digest = compute_digest(&master);
    let master_filter = exact_filter(&master);
    let report = reconcile(&mut replica, master_digest, &master_filter).unwrap();
    assert_eq!(report.missing_items, vec![5, 6]);
}

#[test]
fn report_lists_items_in_ascending_order() {
    let master = holder("F.1/MASTER", &[]);
    let mut replica = holder("F.3/SLAVE", &[6, -5, 40, 5, 0]);
    let master_digest = compute_digest(&master);
    let master_filter = exact_filter(&master);
    let report = reconcile(&mut replica, master_digest, &master_filter).unwrap();
    assert_eq!(report.missing_items, vec![-5, 0, 5, 6, 40]);
    assert_eq!(replica.photos(), &vec![-5, 0, 5, 6, 40]);
}

#[test]
fn empty_replica_reports_nothing_missing() {
    let master = holder("F.1/MASTER", &[1, 2, 3]);
    let mut replica = holder("F.2/SLAVE", &[]);
    let master_digest = compute_digest(&master);
    let master_filter = exact_filter(&master);
    let report = reconcile(&mut replica, master_digest, &master_filter).unwrap();
    assert_eq!(
        report,
        ReconciliationResult { replica_id: "F.2/SLAVE".to_string(), missing_items: vec![] }
    );
}

#[test]
fn empty_replica_and_empty_master_need_no_sync() {
    let master = holder("F.1/MASTER", &[]);
    let mut replica = holder("F.2/SLAVE", &[]);
    let master_digest = compute_digest(&master);
    let master_filter = exact_filter(&master);
    assert_eq!(reconcile(&mut replica, master_digest, &master_filter), None);
}

#[test]
fn strict_subset_differs_in_digest_and_reports_nothing() {
    let master = holder("F.1/MASTER", &[1, 2, 3, 4, 5]);
    let mut replica = holder("F.2/SLAVE", &[2, 4]);
    let master_digest = compute_digest(&master);
    let master_filter = exact_filter(&master);
    assert_ne!(compute_digest(&replica), master_digest);
    let report = reconcile(&mut replica, master_digest, &master_filter).unwrap();
    assert_eq!(report.missing_items, Vec::<i32>::new());
    assert_eq!(report.replica_id, "F.2/SLAVE");
}

#[test]
fn equal_digest_skips_the_filter() {
    let master = holder("F.1/MASTER", &[]);
    let mut replica = holder("F.2/SLAVE", &[7, 8, 9]);
    let replica_digest = compute_digest(&replica);
    let empty_filter = exact_filter(&master);
    assert!(!filter_contains(&empty_filter, 7));
    assert_eq!(reconcile(&mut replica, replica_digest, &empty_filter), None);
}

#[test]
fn items_the_master_holds_are_never_reported() {
    let master_items: Vec<i32> = (1..=60).collect();
    let replica_items: Vec<i32> = (41..=100).collect();
    let master = holder("F.1/MASTER", &master_items);
    let mut replica = holder("F.2/SLAVE", &replica_items);
    let master_digest = compute_digest(&master);
    let bitmap_bytes = Bloom::<i32>::compute_bitmap_size(60, 0.3);
    let master_filter = build_filter(&master, 60, 0.3f64.to_bits(), bitmap_bytes).unwrap();
    let report = reconcile(&mut replica, master_digest, &master_filter).unwrap();
    for item in &report.missing_items {
        assert!(*item > 60);
        assert!(!filter_contains(&master_filter, *item));
    }
    for item in 61..=100 {
        assert!(report.missing_items.contains(&item) || filter_contains(&master_filter, item));
    }
}

#[test]
fn items_the_master_lacks_are_reported_with_an_exact_filter() {
    let master_items: Vec<i32> = (1..=60).collect();
    let replica_items: Vec<i32> = (41..=100).rev().collect();
    let master = holder("F.1/MASTER", &master_items);
    let mut replica = holder("F.2/SLAVE", &replica_items);
    let master_digest = compute_digest(&master);
    let master_filter = exact_filter(&master);
    let report = reconcile(&mut replica, master_digest, &master_filter).unwrap();
    let expected: Vec<i32> = (61..=100).collect();
    assert_eq!(report.missing_items, expected);
}

#[test]
fn reconcile_leaves_name_and_set_of_items() {
    let master = holder("F.1/MASTER", &[1]);
    let mut replica = holder("F.2/SLAVE", &[9, 3, 7]);
    let master_digest = compute_digest(&master);
    let master_filter = exact_filter(&master);
    let _ = reconcile(&mut replica, master_digest, &master_filter);
    assert_eq!(replica.name(), "F.2/SLAVE");
    assert_eq!(replica.photos(), &vec![3, 7, 9]);
}

#[test]
fn check_bloom_reports_in_the_order_held() {
    let master = holder("F.1/MASTER", &[2]);
    let replica = holder("F.2/SLAVE", &[9, 2, 3, 7]);
    let master_filter = exact_filter(&master);
    let report = replica.check_bloom(&master_filter);
    assert_eq!(report.missing_items, vec![9, 3, 7]);
    assert_eq!(report.replica_id, "F.2/SLAVE");
    assert_eq!(replica.photos(), &vec![9, 2, 3, 7]);
}

#[test]
fn one_filter_serves_several_replicas() {
    let mut master = holder("F.1/MASTER", &[1, 2, 3]);
    let master_filter = exact_filter(&master);
    let master_digest = master.hash();
    let mut second = holder("F.2/SLAVE", &[3, 2, 1]);
    let mut third = holder("F.3/SLAVE", &[3, 30, 2, 20]);
    assert_eq!(reconcile(&mut second, master_digest, &master_filter), None);
    let report = reconcile(&mut third, master_digest, &master_filter).unwrap();
    assert_eq!(report.replica_id, "F.3/SLAVE");
    assert_eq!(report.missing_items, vec![20, 30]);
}
