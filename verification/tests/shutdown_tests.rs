use vector_extensions::shutdown::TokenTree;

#[test]
fn shutdown_reaches_the_tokens_below() {
    let mut tree = TokenTree::new();
    let root = tree.add(None);
    let left = tree.add(Some(root));
    let right = tree.add(Some(root));
    let leaf = tree.add(Some(left));
    assert_eq!(tree.len(), 4);
    assert!(!tree.is_stopped(leaf));
    tree.shutdown(left);
    assert!(tree.is_stopped(left));
    assert!(tree.is_stopped(leaf));
    assert!(!tree.is_stopped(right));
    assert!(!tree.is_stopped(root));
    tree.shutdown(root);
    assert!(tree.is_stopped(right));
    assert!(tree.is_stopped(root));
}

#[test]
fn shutdown_ends_when_all_subscribers_below_are_gone() {
    let mut tree = TokenTree::new();
    let root = tree.add(None);
    let child = tree.add(Some(root));
    let other = tree.add(None);
    assert!(tree.has_exited(root));
    tree.subscribe(root);
    tree.subscribe(child);
    tree.subscribe(child);
    tree.subscribe(other);
    assert_eq!(tree.subscribers(child), 2);
    assert!(!tree.has_exited(root));
    assert!(!tree.has_exited(child));
    tree.release(root);
    assert!(!tree.has_exited(root));
    tree.release(child);
    assert!(!tree.has_exited(root));
    tree.release(child);
    assert!(tree.has_exited(child));
    assert!(tree.has_exited(root));
    assert!(!tree.has_exited(other));
    // a token that is not in the tree has no subscriber
    assert!(tree.has_exited(17));
}

#[test]
fn descent_in_the_tree() {
    let mut tree = TokenTree::new();
    let root = tree.add(None);
    let child = tree.add(Some(root));
    let leaf = tree.add(Some(child));
    let other = tree.add(None);
    assert!(tree.descends(leaf, root));
    assert!(tree.descends(leaf, child));
    assert!(tree.descends(leaf, leaf));
    assert!(!tree.descends(root, leaf));
    assert!(!tree.descends(other, root));
    assert!(!tree.descends(leaf, other));
}
