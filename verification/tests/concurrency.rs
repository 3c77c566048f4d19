use mudb::storage::db::{Storage, DB};

#[test]
fn concurrent_rpush_loses_and_duplicates_nothing() {
    let n_tasks: usize = 64;
    let storage = Storage::new(DB::new());

    let runtime = tokio::runtime::Builder::new_multi_thread()
        .worker_threads(4)
        .build()
        .unwrap();

    runtime.block_on(async {
        let mut handles = Vec::new();
        for i in 0..n_tasks {
            let db = storage.db();
            handles.push(tokio::spawn(async move {
                db.rpush("samekey".to_string(), vec![format!("v{}", i)]).unwrap();
            }));
        }
        for h in handles {
            h.await.unwrap();
        }
    });

    let db = storage.db();
    let mut elems = db.lrange("samekey".to_string(), 0, (n_tasks as i64) - 1).unwrap();
    assert_eq!(elems.len(), n_tasks);

    let mut expected: Vec<String> = (0..n_tasks).map(|i| format!("v{}", i)).collect();
    elems.sort();
    expected.sort();
    assert_eq!(elems, expected);
}
