use layout_stack::{DataEntry, Stack, PAGE_SIZE_BYTES};

#[test]
fn ok() {
    let mut stack = Stack::default();

    stack.push(vec![1; 4], 4);
    stack.push(vec![2; 5], 1);
    stack.push(vec![3; 4], 4);
    stack.push(vec![4; 65536], 8);

    let mut entries = stack.iter_entries().iter();
    let expected_entries = [
        DataEntry {
            alignment: 4,
            offset: 0,
            data: vec![1; 4],
        },
        DataEntry {
            alignment: 1,
            offset: 4,
            data: vec![2; 5],
        },
        DataEntry {
            alignment: 4,
            offset: 12,
            data: vec![3; 4],
        },
        DataEntry {
            alignment: 8,
            offset: 16,
            data: vec![4; 65536],
        },
    ];

    for expected_entry in expected_entries {
        let entry = entries.next().unwrap();

        assert_eq!(entry, &expected_entry);
    }

    assert_eq!(stack.memory_pages_needed(), 2);
}

#[test]
fn push_returns_ids_and_offsets() {
    let mut stack = Stack::new();
    assert_eq!(stack.push(vec![1; 4], 4), (0, 0));
    assert_eq!(stack.push(vec![2; 5], 1), (1, 4));
    assert_eq!(stack.push(vec![3; 4], 4), (2, 12));
    assert_eq!(stack.push(vec![4; 65536], 8), (3, 16));
    assert_eq!(stack.memory_pages_needed(), 2);
}

#[test]
fn empty_stack_needs_no_pages() {
    let stack = Stack::new();
    assert_eq!(stack.memory_pages_needed(), 0);
    assert_eq!(stack.iter_entries().len(), 0);
    assert!(stack.get_entry(0).is_none());
    assert_eq!(Stack::default(), stack);
}

#[test]
fn exact_page_needs_one_page() {
    let mut stack = Stack::new();
    stack.push(vec![0; 65536], 1);
    assert_eq!(stack.memory_pages_needed(), 1);
}

#[test]
fn one_byte_over_a_page_needs_two_pages() {
    let mut stack = Stack::new();
    stack.push(vec![0; 65537], 1);
    assert_eq!(stack.memory_pages_needed(), 2);
}

#[test]
fn one_byte_needs_one_page() {
    let mut stack = Stack::new();
    stack.push(vec![7], 1);
    assert_eq!(stack.memory_pages_needed(), 1);
    assert_eq!(PAGE_SIZE_BYTES, 65536);
}

#[test]
fn empty_payloads_share_an_offset() {
    let mut stack = Stack::new();
    assert_eq!(stack.push(vec![], 1), (0, 0));
    assert_eq!(stack.push(vec![], 16), (1, 0));
    assert_eq!(stack.memory_pages_needed(), 0);
}

#[test]
fn offsets_are_aligned_and_minimal() {
    let mut stack = Stack::new();
    let pushes: [(usize, usize); 6] = [(3, 1), (1, 8), (10, 4), (2, 3), (5, 16), (1, 1)];
    for (len, alignment) in pushes {
        stack.push(vec![9; len], alignment);
    }
    let offsets: Vec<usize> = stack.iter_entries().iter().map(|e| e.offset).collect();
    assert_eq!(offsets, vec![0, 8, 12, 24, 32, 37]);
    let mut prev_end = 0;
    for entry in stack.iter_entries() {
        assert_eq!(entry.offset % entry.alignment, 0);
        assert!(entry.offset >= prev_end);
        assert!(entry.offset - prev_end < entry.alignment);
        prev_end = entry.offset + entry.data.len();
    }
    assert_eq!(stack.memory_pages_needed(), 1);
}

#[test]
fn iterating_twice_gives_the_same_entries() {
    let mut stack = Stack::new();
    stack.push(vec![1; 3], 2);
    stack.push(vec![2; 7], 4);
    stack.push(vec![3; 1], 8);
    let first: Vec<(usize, Vec<u8>)> =
        stack.iter_entries().iter().map(|e| (e.offset, e.data.clone())).collect();
    let second: Vec<(usize, Vec<u8>)> =
        stack.iter_entries().iter().map(|e| (e.offset, e.data.clone())).collect();
    assert_eq!(first, second);
    assert_eq!(first, vec![(0, vec![1; 3]), (4, vec![2; 7]), (16, vec![3; 1])]);
}

#[test]
fn get_entry_in_and_out_of_range() {
    let mut stack = Stack::new();
    stack.push(vec![5; 2], 1);
    stack.push(vec![6; 2], 4);
    let e = stack.get_entry(1).unwrap();
    assert_eq!(e.offset, 4);
    assert_eq!(e.alignment, 4);
    assert_eq!(e.data, vec![6; 2]);
    assert!(stack.get_entry(2).is_none());
    assert!(stack.get_entry(usize::MAX).is_none());
}

#[test]
fn get_entry_mut_changes_only_that_entry() {
    let mut stack = Stack::new();
    stack.push(vec![5; 2], 1);
    stack.push(vec![6; 2], 4);
    {
        let e = stack.get_entry_mut(1).unwrap();
        e.data = vec![8; 3];
    }
    assert_eq!(stack.get_entry(1).unwrap().data, vec![8; 3]);
    assert_eq!(stack.get_entry(1).unwrap().offset, 4);
    assert_eq!(stack.get_entry(0).unwrap().data, vec![5; 2]);
    assert!(stack.get_entry_mut(2).is_none());
    assert_eq!(stack.memory_pages_needed(), 1);
}
