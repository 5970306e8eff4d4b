use chess_engine::board::Board;
use chess_engine::search::Search;
use std::time::{Duration, Instant};

#[test]
fn test_time_control() {
    let mut search = Search::new();

    search.set_max_time(1000);
    assert_eq!(Duration::from_millis(search.get_max_time()), Duration::from_millis(1000));

    search.set_max_time(5000);
    assert_eq!(Duration::from_millis(search.get_max_time()), Duration::from_millis(5000));
}

#[test]
fn test_search_respects_time_limit() {
    let mut search = Search::new();
    let board = Board::new();

    search.set_max_time(10);

    let start_time = Instant::now();
    let _best_move = search.find_best_move(&board);
    let elapsed = start_time.elapsed();

    assert!(elapsed <= Duration::from_millis(20), "Search took {}ms, which exceeds the 10ms limit", elapsed.as_millis());
}

#[test]
fn test_search_uses_entire_time() {
    let mut search = Search::new();
    let board = Board::new();

    search.set_max_time(100);

    let start_time = Instant::now();
    let _best_move = search.find_best_move(&board);
    let elapsed = start_time.elapsed();

    assert!(elapsed >= Duration::from_millis(25), "Search only used {}ms of the allocated 100ms", elapsed.as_millis());
}
