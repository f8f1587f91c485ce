use endian_pad::pad::{IdxBound, IdxRange, PadBoundedIter, PadBoundedLoadIter, Padding, Source};

fn drain_bounded(mut it: PadBoundedIter<u8>) -> Vec<u8> {
    let mut out: Vec<u8> = Vec::new();
    while let Some(v) = it.next() {
        out.push(v);
    }
    out
}

fn drain_merged(mut it: PadBoundedLoadIter<u8>) -> Vec<u8> {
    let mut out: Vec<u8> = Vec::new();
    while let Some(v) = it.next() {
        out.push(v);
    }
    out
}

#[test]
fn test_load() {
    let item1: [u8; 4] = [0, 1, 2, 3];
    let padding = Padding::new(0xff);
    let source = Source::new(item1.to_vec());
    let pad_item1_with_0xff = padding.get(IdxRange::inclusive(0, 9)).load(source);
    for value in pad_item1_with_0xff.into_iter().collect() {
        println!("{value}");
    }
}

#[test]
fn filler_yields_itself_n_times() {
    let taken = Padding::new(7u32).take(5);
    assert_eq!(taken, vec![7, 7, 7, 7, 7]);
    let none_taken = Padding::new(7u32).take(0);
    assert_eq!(none_taken, Vec::<u32>::new());
}

#[test]
fn filler_next_is_always_some() {
    let mut padding = Padding::new(3u8);
    for _ in 0..100 {
        assert_eq!(padding.next(), Some(3));
    }
}

#[test]
fn bounded_window_terminates_after_size() {
    // 2..=5 holds four positions; the fifth call must find nothing.
    let collected = drain_bounded(Padding::new(9u8).get(IdxRange::inclusive(2, 5)).into_iter());
    assert_eq!(collected, vec![9, 9, 9, 9]);

    let mut it = Padding::new(9u8).get(IdxRange::inclusive(2, 5)).into_iter();
    for _ in 0..4 {
        assert!(it.next().is_some());
    }
    assert_eq!(it.next(), None);
    assert_eq!(it.next(), None);
}

#[test]
fn bounded_collect_matches_manual_drain() {
    let collected = Padding::new(1u8).get(IdxRange::inclusive(0, 3)).into_iter().collect();
    assert_eq!(collected, vec![1, 1, 1, 1]);
}

#[test]
fn window_with_exclusive_end() {
    let range = IdxRange::new(IdxBound::Included(0), IdxBound::Excluded(3));
    let collected = drain_bounded(Padding::new(4u8).get(range).into_iter());
    assert_eq!(collected, vec![4, 4, 4]);
}

#[test]
fn window_with_unbounded_start_begins_at_zero() {
    let range = IdxRange::new(IdxBound::Unbounded, IdxBound::Included(2));
    let collected = drain_bounded(Padding::new(8u8).get(range).into_iter());
    assert_eq!(collected, vec![8, 8, 8]);
}

#[test]
fn window_with_excluded_start() {
    let range = IdxRange::new(IdxBound::Excluded(1), IdxBound::Included(3));
    let collected = drain_bounded(Padding::new(5u8).get(range).into_iter());
    assert_eq!(collected, vec![5, 5]);
}

#[test]
fn malformed_window_is_empty_not_an_error() {
    let collected = drain_bounded(Padding::new(6u8).get(IdxRange::inclusive(5, 2)).into_iter());
    assert_eq!(collected, Vec::<u8>::new());
}

#[test]
fn merge_prefers_source_then_fills() {
    // Filler x, window 0..=3, source [10, 20]: the source's two items come
    // first, filler covers the remaining two in-window positions.
    let source = Source::new(vec![10u8, 20]);
    let mut it = Padding::new(0xabu8).get(IdxRange::inclusive(0, 3)).load(source).into_iter();
    assert_eq!(it.next(), Some(10));
    assert_eq!(it.next(), Some(20));
    assert_eq!(it.next(), Some(0xab));
    assert_eq!(it.next(), Some(0xab));
    assert_eq!(it.next(), None);
    assert_eq!(it.next(), None);
}

#[test]
fn starved_window_away_from_zero_fills_completely() {
    // Window 5..=6 with an empty source yields filler twice even though the
    // cursor starts at five, not zero.
    let source = Source::new(Vec::new());
    let collected = drain_merged(
        Padding::new(0x11u8).get(IdxRange::inclusive(5, 6)).load(source).into_iter(),
    );
    assert_eq!(collected, vec![0x11, 0x11]);
}

#[test]
fn concatenated_segments_are_independent_of_absolute_index() {
    let first = Padding::new(0u8).get(IdxRange::inclusive(0, 1)).load(Source::new(vec![1, 2]));
    let second = Padding::new(0u8).get(IdxRange::inclusive(20, 21)).load(Source::new(vec![3, 4]));
    let mut joined = drain_merged(first.into_iter());
    joined.extend(drain_merged(second.into_iter()));
    assert_eq!(joined, vec![1, 2, 3, 4]);
}

#[test]
fn window_shorter_than_source_stops_without_consuming_more() {
    let source = Source::new(vec![1u8, 2, 3]);
    let collected = drain_merged(
        Padding::new(0u8).get(IdxRange::inclusive(0, 1)).load(source).into_iter(),
    );
    assert_eq!(collected, vec![1, 2]);
}

#[test]
fn unbounded_merge_yields_source_then_filler_forever() {
    let source = Source::new(vec![1u8, 2]);
    let taken = Padding::new(0u8).load(source).take(5);
    assert_eq!(taken, vec![1, 2, 0, 0, 0]);
}

#[test]
fn merged_collect_matches_padded_output() {
    let source = Source::new(vec![0u8, 1, 2, 3]);
    let collected = Padding::new(0xffu8)
        .get(IdxRange::inclusive(0, 9))
        .load(source)
        .into_iter()
        .collect();
    assert_eq!(collected, vec![0, 1, 2, 3, 0xff, 0xff, 0xff, 0xff, 0xff, 0xff]);
}

#[test]
fn source_hands_out_items_in_order() {
    let mut source = Source::new(vec![4u8, 5]);
    assert_eq!(source.next(), Some(4));
    assert_eq!(source.next(), Some(5));
    assert_eq!(source.next(), None);
    assert_eq!(source.next(), None);
}

#[test]
fn padding_data_returns_the_filler() {
    let padding = Padding::new(0x2au8);
    assert_eq!(padding.data(), 0x2a);
}
