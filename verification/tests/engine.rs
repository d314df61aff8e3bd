use listload::engine::assemble_results;
use listload::engine::fresh_partition_token;
use listload::engine::path_join;
use listload::engine::resolve_dest;
use listload::engine::EngineError;
use listload::engine::StagingBatch;
use listload::target::Target;

fn target(url: &str, file: &str) -> Target {
    Target::new(vec![String::from(url)], String::from(file), None).unwrap()
}

#[test]
fn partition_tokens_are_hex16() {
    let token = fresh_partition_token();
    assert_eq!(token.len(), 16);
    assert!(token.chars().all(|c| c.is_ascii_digit() || ('a'..='f').contains(&c)));
}

#[test]
fn path_helpers() {
    assert_eq!(path_join("/cache", "part"), "/cache/part");
    assert_eq!(resolve_dest("/base", "pics/a.jpg"), "/base/pics/a.jpg");
    assert_eq!(resolve_dest("/base", "/tmp/a.jpg"), "/tmp/a.jpg");
}

#[test]
fn batch_plans_ordinal_slots() {
    let targets = vec![target("http://e.com/a", "a"), target("http://e.com/b", "b")];
    let batch = StagingBatch::new("/cache/part", String::from("/base"), &targets);
    assert_eq!(batch.slot_count(), 2);
    assert_eq!(batch.cache_path(0), "/cache/part/0000000000000000");
    assert_eq!(batch.cache_path(1), "/cache/part/0000000000000001");
    assert_eq!(batch.dest_path(0), "a");
    assert_eq!(batch.dest_path(1), "b");
}

#[test]
fn batch_of_three_with_middle_failure() {
    // Three targets; the retrieval service succeeds on the first and the
    // third and fails on the second.
    let targets = vec![
        target("http://e.com/1", "pics/one"),
        target("http://e.com/2", "pics/two"),
        target("http://e.com/3", "/tmp/three"),
    ];
    let mut batch = StagingBatch::new("/cache/p", String::from("/base"), &targets);

    let mut item_results: Vec<Result<String, EngineError>> = Vec::new();

    let reported0 = batch.cache_path(0).clone();
    let (slot0, dest0) = batch.resolve_success(reported0.as_str()).unwrap();
    assert_eq!(slot0, 0);
    assert_eq!(dest0, "/base/pics/one");
    batch.mark_committed(slot0);
    item_results.push(Ok(dest0));

    item_results.push(Err(EngineError::DownloadFailed));

    let reported2 = batch.cache_path(2).clone();
    let (slot2, dest2) = batch.resolve_success(reported2.as_str()).unwrap();
    assert_eq!(slot2, 2);
    assert_eq!(dest2, "/tmp/three");
    batch.mark_committed(slot2);
    item_results.push(Ok(dest2));

    // The failed item's slot is the one leftover to sweep.
    let leftovers = batch.leftover_paths();
    assert_eq!(leftovers, vec![String::from("/cache/p/0000000000000001")]);

    let results = assemble_results(item_results, Vec::new());
    assert_eq!(results.len(), 3);
    assert_eq!(results[0], Ok(String::from("/base/pics/one")));
    assert_eq!(results[1], Err(EngineError::DownloadFailed));
    assert_eq!(results[2], Ok(String::from("/tmp/three")));
}

#[test]
fn unknown_reported_path_is_refused() {
    let targets = vec![target("http://e.com/1", "one")];
    let mut batch = StagingBatch::new("/cache/p", String::from("/base"), &targets);
    assert_eq!(
        batch.resolve_success("/cache/p/ffffffffffffffff"),
        Err(EngineError::UnknownTargetLocation)
    );
    let reported = batch.cache_path(0).clone();
    let (slot, _) = batch.resolve_success(reported.as_str()).unwrap();
    batch.mark_committed(slot);
    // A second report of the same path finds no uncommitted slot.
    assert_eq!(
        batch.resolve_success(reported.as_str()),
        Err(EngineError::UnknownTargetLocation)
    );
    assert_eq!(batch.leftover_paths(), Vec::<String>::new());
}

#[test]
fn cleanup_errors_extend_results() {
    let item_results: Vec<Result<String, EngineError>> =
        vec![Ok(String::from("/base/a")), Err(EngineError::DownloadFailed)];
    let cleanup = vec![EngineError::LeftoverNotDeleted, EngineError::PartitionNotRemoved];
    let results = assemble_results(item_results, cleanup);
    assert_eq!(results.len(), 4);
    assert_eq!(results[2], Err(EngineError::LeftoverNotDeleted));
    assert_eq!(results[3], Err(EngineError::PartitionNotRemoved));
}
