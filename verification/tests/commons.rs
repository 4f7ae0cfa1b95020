use lof::cic::term::CicTerm::{Meta, Sort};
use lof::commons::unification::Substitution;
use lof::commons::utils::ElabStore;

#[test]
fn test_elab_store_lookup_is_innermost_first() {
    let store = ElabStore::empty().push_name("x").push_name("y").push_name("x");
    assert_eq!(store.len(), 3);
    // the innermost binding of x is the last pushed: index 0
    assert_eq!(store.lookup_dbi("x"), Some(0));
    assert_eq!(store.lookup_dbi("y"), Some(1));
    assert_eq!(store.lookup_dbi("z"), None);
}

#[test]
fn test_substitution_insert_and_get() {
    let mut s = Substitution::empty();
    s.insert("?[0]".to_string(), Sort("TYPE".to_string()));
    s.insert("?[1]".to_string(), Meta(3));
    s.insert("?[0]".to_string(), Sort("PROP".to_string()));
    assert_eq!(s.len(), 2);
    assert_eq!(s.get("?[0]"), Some(&Sort("PROP".to_string())));
    assert_eq!(s.get("?[1]"), Some(&Meta(3)));
    assert_eq!(s.get("?[2]"), None);
    assert_eq!(s.names(), vec!["?[0]".to_string(), "?[1]".to_string()]);
}
