use eddie::union_find::UnionFind;

#[test]
fn union_joins_under_the_second_representative() {
    let mut uf = UnionFind::new();
    uf.union("a", "b");
    assert_eq!(uf.find("a"), uf.find("b"));
    assert_eq!(uf.find("a"), "b");
    uf.union("c", "d");
    assert_ne!(uf.find("a"), uf.find("c"));
    uf.union("b", "d");
    assert_eq!(uf.find("a"), uf.find("c"));
}

#[test]
fn find_of_a_new_identifier_is_itself() {
    let mut uf = UnionFind::new();
    assert_eq!(uf.find("x"), "x");
    assert_eq!(uf.find("x"), "x");
}
