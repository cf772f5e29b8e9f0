use djinn::index_comparer::{Action, IndexComparer, SourceOfTruth};
use djinn::strmap::StrMap;

fn index(pairs: &[(&str, u64)]) -> StrMap<u64> {
    let mut m = StrMap::new();
    for (k, v) in pairs {
        m.insert(k.to_string(), *v);
    }
    m
}

fn run(c: &[(&str, u64)], s: &[(&str, u64)], truth: SourceOfTruth, d: &[(&str, u64)]) -> StrMap<Action> {
    IndexComparer::new(index(c), index(s), truth, index(d)).compare()
}

#[test]
fn test_client_add() {
    let result = run(&[("test.txt", 123)], &[], SourceOfTruth::Client, &[]);
    assert_eq!(result.get("test.txt").unwrap().wire_name(), "PUT");
}

#[test]
fn test_client_delete() {
    let result = run(
        &[("test.txt", 0), ("#timestamp", 123)],
        &[("test.txt", 120), ("#timestamp", 122)],
        SourceOfTruth::Client,
        &[],
    );
    assert_eq!(result.get("test.txt").unwrap().wire_name(), "SELF_DELETE");
}

#[test]
fn test_server_add() {
    let result = run(&[("#timestamp", 123)], &[("test.txt", 123)], SourceOfTruth::Server, &[]);
    assert_eq!(result.get("test.txt").unwrap().wire_name(), "GET");
}

#[test]
fn test_server_delete() {
    let result = run(&[("test.txt", 123)], &[], SourceOfTruth::Server, &[]);
    assert_eq!(result.get("test.txt").unwrap().wire_name(), "DELETE");
}

#[test]
fn test_server_update() {
    let result = run(&[("test.txt", 123)], &[("test.txt", 124)], SourceOfTruth::Server, &[]);
    assert_eq!(result.get("test.txt").unwrap().wire_name(), "GET");
}

#[test]
fn test_client_update() {
    let result = run(&[("test.txt", 123)], &[("test.txt", 124)], SourceOfTruth::Server, &[]);
    assert_eq!(result.get("test.txt").unwrap().wire_name(), "GET");
}

#[test]
fn test_client_same() {
    let result = run(&[("test.txt", 123)], &[("test.txt", 123)], SourceOfTruth::Server, &[]);
    assert_eq!(result.len(), 0);
}

#[test]
fn test_if_extra_info_gets_ignored() {
    let result = run(
        &[("test.txt", 123), ("#test.txt", 123)],
        &[("test.txt", 124)],
        SourceOfTruth::Server,
        &[],
    );
    assert_eq!(result.get("test.txt").unwrap().wire_name(), "GET");
    assert_eq!(result.len(), 1);
}

#[test]
fn test_out_of_sync_client_delete_before_update() {
    let result = run(
        &[("#timestamp", 123)],
        &[("test.txt", 124), ("#timestamp", 124)],
        SourceOfTruth::Client,
        &[],
    );
    assert_eq!(result.get("test.txt").unwrap().wire_name(), "GET");
}

#[test]
fn test_out_of_sync_client_put_after_delete() {
    let result = run(
        &[("test.txt", 123), ("#timestamp", 123)],
        &[("#timestamp", 120)],
        SourceOfTruth::Client,
        &[("test.txt", 124)],
    );
    assert_eq!(result.get("test.txt").unwrap().wire_name(), "DELETE");
}

#[test]
fn scenario_client_adds_with_client_truth() {
    let result = run(&[("a.txt", 100), ("#timestamp", 101)], &[], SourceOfTruth::Client, &[]);
    assert_eq!(result.len(), 1);
    assert_eq!(*result.get("a.txt").unwrap(), Action::Put);
}

#[test]
fn scenario_newer_client_delete_wins() {
    let result = run(
        &[("a.txt", 0), ("#timestamp", 200)],
        &[("a.txt", 150), ("#timestamp", 150)],
        SourceOfTruth::Client,
        &[],
    );
    assert_eq!(result.len(), 1);
    assert_eq!(*result.get("a.txt").unwrap(), Action::SelfDelete);
}

#[test]
fn scenario_older_client_delete_loses() {
    let result = run(
        &[("a.txt", 0), ("#timestamp", 100)],
        &[("a.txt", 150)],
        SourceOfTruth::Client,
        &[],
    );
    assert_eq!(*result.get("a.txt").unwrap(), Action::Get);
    let result = run(&[("a.txt", 0), ("#timestamp", 200)], &[("a.txt", 150)], SourceOfTruth::Server, &[]);
    assert_eq!(*result.get("a.txt").unwrap(), Action::Get);
}

#[test]
fn scenario_server_has_file_client_lacks() {
    let result = run(&[("#timestamp", 123)], &[("a.txt", 123)], SourceOfTruth::Server, &[]);
    assert_eq!(result.len(), 1);
    assert_eq!(*result.get("a.txt").unwrap(), Action::Get);
}

#[test]
fn scenario_stale_client_after_server_delete() {
    let result = run(
        &[("a.txt", 123), ("#timestamp", 123)],
        &[("#timestamp", 120)],
        SourceOfTruth::Client,
        &[("a.txt", 124)],
    );
    assert_eq!(result.len(), 1);
    assert_eq!(*result.get("a.txt").unwrap(), Action::Delete);
}

#[test]
fn scenario_client_file_newer_than_tombstone_is_uploaded() {
    let result = run(&[("a.txt", 125)], &[], SourceOfTruth::Client, &[("a.txt", 124)]);
    assert_eq!(*result.get("a.txt").unwrap(), Action::Put);
}

#[test]
fn scenario_concurrent_add_and_delete() {
    let result = run(
        &[("#timestamp", 123)],
        &[("a.txt", 124), ("#timestamp", 124)],
        SourceOfTruth::Client,
        &[],
    );
    assert_eq!(result.len(), 1);
    assert_eq!(*result.get("a.txt").unwrap(), Action::Get);
}

#[test]
fn newer_client_file_is_put() {
    let result = run(&[("a.txt", 130)], &[("a.txt", 120)], SourceOfTruth::Server, &[]);
    assert_eq!(*result.get("a.txt").unwrap(), Action::Put);
}

#[test]
fn deleted_on_both_sides_is_ignored() {
    let result = run(&[("a.txt", 0)], &[], SourceOfTruth::Client, &[]);
    assert_eq!(result.len(), 0);
}

#[test]
fn metadata_and_equal_entries_never_appear() {
    let result = run(
        &[("#timestamp", 5), ("#x", 1), ("same", 7)],
        &[("#timestamp", 9), ("#y", 3), ("same", 7)],
        SourceOfTruth::Client,
        &[],
    );
    assert_eq!(result.len(), 0);
}

#[test]
fn one_round_of_actions_leaves_nothing_to_do() {
    let c = [("a", 10), ("b", 0), ("c", 30), ("d", 40), ("#timestamp", 100)];
    let s = [("a", 20), ("b", 50), ("c", 5), ("e", 60)];
    let result = run(&c, &s, SourceOfTruth::Client, &[]);
    assert_eq!(*result.get("a").unwrap(), Action::Get);
    assert_eq!(*result.get("b").unwrap(), Action::SelfDelete);
    assert_eq!(*result.get("c").unwrap(), Action::Put);
    assert_eq!(*result.get("d").unwrap(), Action::Put);
    assert_eq!(*result.get("e").unwrap(), Action::Get);
    // After the round: the client fetched a and e, the server took c and d
    // and dropped b.
    let c2 = [("a", 20), ("c", 30), ("d", 40), ("e", 60), ("#timestamp", 101)];
    let s2 = [("a", 20), ("c", 30), ("d", 40), ("e", 60)];
    assert_eq!(run(&c2, &s2, SourceOfTruth::Client, &[("b", 100)]).len(), 0);
    assert_eq!(run(&c2, &s2, SourceOfTruth::Server, &[]).len(), 0);
}

#[test]
fn wire_names() {
    assert_eq!(Action::Get.wire_name(), "GET");
    assert_eq!(Action::Put.wire_name(), "PUT");
    assert_eq!(Action::Delete.wire_name(), "DELETE");
    assert_eq!(Action::SelfDelete.wire_name(), "SELF_DELETE");
}

#[test]
fn unknown_paths_never_appear() {
    let result = run(&[("a", 1)], &[("b", 2)], SourceOfTruth::Client, &[("c", 3)]);
    assert!(result.get("c").is_none());
    assert!(result.get("z").is_none());
    assert_eq!(result.len(), 2);
}
