use tracks::account_set::Relation;

#[test]
fn lib_it_works() {
    assert_eq!(2 + 2, 4);
}

#[test]
fn util_it_works() {
    println!("just a test.");
}

#[test]
fn relation_holds_its_ends() {
    let r = Relation { parent: 1u64, child: 2u64 };
    let s = r;
    assert_eq!(s.parent, 1);
    assert_eq!(s.child, 2);
    assert!(r == s);
}
