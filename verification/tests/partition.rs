use european_mc::partition::{effective_threads, joined_paths, paths_for_thread, thread_shares};

#[test]
fn thread_count_is_clamped() {
    assert_eq!(effective_threads(4, 100), 4);
    assert_eq!(effective_threads(0, 100), 1);
    assert_eq!(effective_threads(16, 5), 5);
    assert_eq!(effective_threads(3, 0), 0);
}

#[test]
fn remainder_goes_to_the_first_threads() {
    assert_eq!(paths_for_thread(10, 3, 0), 4);
    assert_eq!(paths_for_thread(10, 3, 1), 3);
    assert_eq!(paths_for_thread(10, 3, 2), 3);
    assert_eq!(paths_for_thread(12, 4, 3), 3);
}

#[test]
fn shares_split_all_paths() {
    assert_eq!(thread_shares(10, 3), vec![4, 3, 3]);
    assert_eq!(thread_shares(1000000, 8).iter().sum::<usize>(), 1000000);
    assert_eq!(thread_shares(7, 1), vec![7]);
    assert_eq!(thread_shares(7, 0), vec![7]);
}

#[test]
fn more_threads_than_paths_gives_one_path_each() {
    assert_eq!(thread_shares(3, 8), vec![1, 1, 1]);
}

#[test]
fn joined_threads_account_for_every_path() {
    assert_eq!(joined_paths(10, 3, 3), 10);
    assert_eq!(joined_paths(10, 3, 1), 4);
    assert_eq!(joined_paths(10, 3, 0), 0);
    assert_eq!(joined_paths(3, 8, 3), 3);
    assert_eq!(joined_paths(1000003, 4, 4), 1000003);
}
