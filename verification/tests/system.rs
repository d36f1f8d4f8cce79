use rebarr::system::{collect_process_tree, process_memory_mb, ProcessChildren};

#[test]
fn process_tree_holds_all_descendants_once() {
    let map = vec![
        ProcessChildren { pid: 1, children: vec![2, 3] },
        ProcessChildren { pid: 2, children: vec![4] },
        ProcessChildren { pid: 5, children: vec![6] },
        ProcessChildren { pid: 3, children: vec![1, 4] },
    ];
    let tree = collect_process_tree(1, &map);
    assert_eq!(tree, vec![1, 2, 3, 4]);
    assert_eq!(collect_process_tree(5, &map), vec![5, 6]);
    assert_eq!(collect_process_tree(9, &map), vec![9]);
}

#[test]
fn memory_is_summed_in_megabytes() {
    assert_eq!(process_memory_mb(&vec![1024, 2048, 100]), 3);
    assert_eq!(process_memory_mb(&vec![]), 0);
    assert_eq!(process_memory_mb(&vec![1023]), 0);
}
