use zebras_launcher::killtree::{kill_order, ProcessNode};

#[test]
fn grandchild_dies_before_its_parent_and_the_parent_before_the_root() {
    // root 1 with children 2 and 3; 2 has the grandchild 4
    let tree = ProcessNode {
        pid: 1,
        children: vec![
            ProcessNode {
                pid: 2,
                children: vec![ProcessNode { pid: 4, children: Vec::new() }],
            },
            ProcessNode { pid: 3, children: Vec::new() },
        ],
    };
    let order = kill_order(&tree);
    assert_eq!(order, vec![4, 2, 3, 1]);
}

#[test]
fn single_process_is_its_own_order() {
    let tree = ProcessNode { pid: 7, children: Vec::new() };
    assert_eq!(kill_order(&tree), vec![7]);
}

#[test]
fn deep_chain_dies_bottom_up() {
    let tree = ProcessNode {
        pid: 10,
        children: vec![ProcessNode {
            pid: 20,
            children: vec![ProcessNode {
                pid: 30,
                children: vec![ProcessNode { pid: 40, children: Vec::new() }],
            }],
        }],
    };
    assert_eq!(kill_order(&tree), vec![40, 30, 20, 10]);
}
