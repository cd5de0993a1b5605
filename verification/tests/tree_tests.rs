use bintree::tree::{Node, SearchOrder};

#[derive(Debug, Eq, PartialEq)]
struct Ijk {
    i: i32,
    j: i32,
    k: i32,
}

impl Ijk {
    fn new(idx: i32) -> Self {
        Self { i: 1 * idx, j: 2 * idx, k: 3 * idx }
    }
}

#[test]
fn root_only() {
    let root = Node::new(Ijk::new(0));

    assert_eq!(root.data, Ijk::new(0));
    assert!(root.left.is_none());
    assert!(root.right.is_none());
}

#[test]
fn add() {
    let mut root = Node::new(Ijk::new(0));
    let left = Node::new(Ijk::new(1));
    let right = Node::new(Ijk::new(2));

    root.add_node_left(left).unwrap();
    root.add_node_right(right).unwrap();

    let a = root.left().unwrap();

    assert_eq!(a.data, Ijk::new(1));

    let b = a.left();
    assert!(b.is_none());

    assert_eq!(root.left().unwrap().data, Ijk::new(1));
    assert_eq!(root.right().unwrap().data, Ijk::new(2));
}

#[test]
fn add_twice() {
    let mut root = Node::new(Ijk::new(0));
    let left1 = Node::new(Ijk::new(1));
    let left2 = Node::new(Ijk::new(2));
    let right1 = Node::new(Ijk::new(3));
    let right2 = Node::new(Ijk::new(4));

    root.add_node_left(left1).unwrap().add_node_left(left2).unwrap();
    root.add_node_right(right1).unwrap().add_node_right(right2).unwrap();

    assert_eq!(root.left().unwrap().data, Ijk::new(1));
    assert_eq!(root.left().unwrap().left().unwrap().data, Ijk::new(2));
    assert!(root.left().unwrap().left().unwrap().left().is_none());

    assert_eq!(root.right().unwrap().data, Ijk::new(3));
    assert_eq!(root.right().unwrap().right().unwrap().data, Ijk::new(4));
    assert!(root.left().unwrap().left().unwrap().right().is_none());
}

#[test]
fn take_left() {
    let mut root = Node::new(Ijk::new(0));
    let left1 = Node::new(Ijk::new(1));
    let left2 = Node::new(Ijk::new(2));
    let right1 = Node::new(Ijk::new(3));
    let right2 = Node::new(Ijk::new(4));

    root.add_node_left(left1).unwrap().add_node_left(left2).unwrap();
    root.add_node_right(right1).unwrap().add_node_right(right2).unwrap();

    let leftnew = root.take_left();

    assert!(root.left().is_none());
    assert_eq!(leftnew.unwrap().left().unwrap().data, Ijk::new(2));
}

#[test]
fn take_right() {
    let mut root = Node::new(Ijk::new(0));
    let left1 = Node::new(Ijk::new(1));
    let left2 = Node::new(Ijk::new(2));
    let right1 = Node::new(Ijk::new(3));
    let right2 = Node::new(Ijk::new(4));

    root.add_node_left(left1).unwrap().add_node_left(left2).unwrap();
    root.add_node_right(right1).unwrap().add_node_right(right2).unwrap();

    let rightnew = root.take_right().unwrap();

    assert!(root.right().is_none());
    assert_eq!(rightnew.data, Ijk::new(3));
    assert_eq!(rightnew.right().unwrap().data, Ijk::new(4));
}

#[test]
fn relpace_left() {
    let mut root = Node::new(Ijk::new(0));
    let left1_1 = Node::new(Ijk::new(1));
    let left1_2 = Node::new(Ijk::new(2));
    let mut left2_1 = Node::new(Ijk::new(3));
    let left2_2 = Node::new(Ijk::new(4));

    root.add_node_left(left1_1).unwrap().add_node_left(left1_2).unwrap();
    left2_1.add_node_left(left2_2).unwrap();

    root.replace_left(left2_1);

    assert_eq!(root.left().unwrap().data, Ijk::new(3));
}

#[test]
fn relpace_right() {
    let mut root = Node::new(Ijk::new(0));
    let right1_1 = Node::new(Ijk::new(1));
    let right1_2 = Node::new(Ijk::new(2));
    let mut right2_1 = Node::new(Ijk::new(3));
    let right2_2 = Node::new(Ijk::new(4));

    root.add_node_right(right1_1).unwrap().add_node_right(right1_2).unwrap();
    right2_1.add_node_right(right2_2).unwrap();

    root.replace_right(right2_1);

    assert_eq!(root.right().unwrap().data, Ijk::new(3));
}

#[test]
fn create_node() {
    let mut root = Node::new(1);
    root.create_left_node(2).unwrap();
    root.create_right_node(3).unwrap();

    assert_eq!(root.left().unwrap().data, 2);
    assert_eq!(root.right().unwrap().data, 3);
}

#[test]
fn search_test1() {
    let mut root = Node::new(1);
    let mut left = Node::new(2);
    let mut right = Node::new(3);

    left.add_node_left(Node::new(4)).unwrap();
    left.add_node_right(Node::new(5)).unwrap();

    right.add_node_left(Node::new(6)).unwrap();
    right.add_node_right(Node::new(7)).unwrap();

    root.add_node_left(left).unwrap();
    root.add_node_right(right).unwrap();

    let preorder_vec = vec![1, 2, 4, 5, 3, 6, 7];
    let inorder_vec = vec![4, 2, 5, 1, 6, 3, 7];
    let postorder_vec = vec![4, 5, 2, 6, 7, 3, 1];

    let mut result: Vec<i32> = Vec::new();
    let mut pusher = |x: &i32| result.push(*x);

    root.foreach(&SearchOrder::PreOrder, &mut pusher);

    assert_eq!(result, preorder_vec);

    let mut result: Vec<i32> = Vec::new();
    let mut pusher = |x: &i32| result.push(*x);

    root.foreach(&SearchOrder::InOrder, &mut pusher);

    assert_eq!(result, inorder_vec);

    let mut result: Vec<i32> = Vec::new();
    let mut pusher = |x: &i32| result.push(*x);

    root.foreach(&SearchOrder::PostOrder, &mut pusher);

    assert_eq!(result, postorder_vec);

    root.data = 0;

    println!("{:?}", result);
    println!("{:?}", root);
}

fn create_test_tree() -> Node<i32> {
    let mut root = Node::new(1);
    let mut left = Node::new(2);
    let mut right = Node::new(3);

    left.add_node_left(Node::new(4)).unwrap();
    left.add_node_right(Node::new(5)).unwrap();

    right.add_node_left(Node::new(6)).unwrap();
    right.add_node_right(Node::new(7)).unwrap();

    root.add_node_left(left).unwrap();
    root.add_node_right(right).unwrap();

    root
}

#[test]
fn foreach_mutable_test() {
    let mut root = create_test_tree();

    root.foreach_mut(&SearchOrder::PreOrder, &mut |x| *x = 0);

    let vec = vec![0, 0, 0, 0, 0, 0, 0];

    let mut result: Vec<i32> = Vec::new();
    let mut pusher = |x: &i32| result.push(*x);

    root.foreach(&SearchOrder::PreOrder, &mut pusher);

    assert_eq!(result, vec);
}

#[test]
fn iterator_test() {
    let mut root = Node::new(1);
    let mut left = Node::new(2);
    let mut right = Node::new(3);

    left.add_node_left(Node::new(4)).unwrap();
    left.add_node_right(Node::new(5)).unwrap();

    right.add_node_left(Node::new(6)).unwrap();
    right.add_node_right(Node::new(7)).unwrap();

    root.add_node_left(left).unwrap();
    root.add_node_right(right).unwrap();

    let mut iter = root.iter(&SearchOrder::PreOrder);
    let mut sum = 0;
    while let Some(x) = iter.next() {
        sum += x;
    }
}

#[test]
fn sandbox() {
    let mut root = Node::new(1);
    let mut left = Node::new(2);
    let mut right = Node::new(3);

    left.add_node_left(Node::new(4)).unwrap();
    left.add_node_right(Node::new(5)).unwrap();

    right.add_node_left(Node::new(6)).unwrap();
    right.add_node_right(Node::new(7)).unwrap();

    root.add_node_left(left).unwrap();
    root.add_node_right(right).unwrap();

    let mut iter = root.iter(&SearchOrder::PreOrder);
    let mut sum = 0;
    while let Some(x) = iter.next() {
        sum += x;
    }
}
