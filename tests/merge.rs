use lakesoul_io::error::EngineError;
use lakesoul_io::merge::{merge_sources, RowRef};

fn keys(rows: &[RowRef]) -> Vec<u64> {
    rows.iter().map(|r| r.key).collect()
}

#[test]
fn newer_source_overrides_older_on_shared_keys() {
    let older = vec![1u64, 2, 3];
    let newer = vec![2u64, 4];
    let out = merge_sources(&vec![older, newer]).unwrap();
    assert_eq!(keys(&out), vec![1, 2, 3, 4]);
    assert_eq!(
        out,
        vec![
            RowRef { key: 1, source: 0, row: 0 },
            RowRef { key: 2, source: 1, row: 0 },
            RowRef { key: 3, source: 0, row: 2 },
            RowRef { key: 4, source: 1, row: 1 },
        ]
    );
}

#[test]
fn merging_a_source_with_its_duplicate_matches_merging_it_alone() {
    let s = vec![5u64, 8, 13, 21];
    let alone = merge_sources(&vec![s.clone()]).unwrap();
    let twice = merge_sources(&vec![s.clone(), s]).unwrap();
    let strip = |v: &Vec<RowRef>| v.iter().map(|r| (r.key, r.row)).collect::<Vec<_>>();
    assert_eq!(strip(&alone), strip(&twice));
    assert!(twice.iter().all(|r| r.source == 1));
}

#[test]
fn empty_sources_are_skipped() {
    let out = merge_sources(&vec![vec![], vec![3u64], vec![]]).unwrap();
    assert_eq!(out, vec![RowRef { key: 3, source: 1, row: 0 }]);
    assert_eq!(merge_sources(&vec![]).unwrap(), vec![]);
}

#[test]
fn most_recent_of_three_sources_wins() {
    let out = merge_sources(&vec![vec![1u64, 5], vec![5u64], vec![1u64, 7]]).unwrap();
    assert_eq!(
        out,
        vec![
            RowRef { key: 1, source: 2, row: 0 },
            RowRef { key: 5, source: 1, row: 0 },
            RowRef { key: 7, source: 2, row: 1 },
        ]
    );
}

#[test]
fn duplicate_key_within_a_source_is_a_data_error() {
    assert_eq!(
        merge_sources(&vec![vec![1u64, 2], vec![3u64, 3]]),
        Err(EngineError::ConfigurationError)
    );
    assert_eq!(
        merge_sources(&vec![vec![2u64, 1]]),
        Err(EngineError::ConfigurationError)
    );
}
