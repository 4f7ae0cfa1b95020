use lof::runtime::entrypoints::{continues_on_next_line, EntryPoint};

#[test]
fn a_trailing_backslash_continues_the_input() {
    assert!(continues_on_next_line("fun f(x: Nat): Nat \\\n"));
    assert!(continues_on_next_line("a \\\r\n"));
    assert!(!continues_on_next_line("a\n"));
    assert!(!continues_on_next_line("a \\"));
    assert!(!continues_on_next_line("\\\na"));
    assert!(!continues_on_next_line(""));
}

#[test]
fn entry_points_compare_by_variant() {
    assert_eq!(EntryPoint::Execute, EntryPoint::Execute);
    assert_ne!(EntryPoint::ParseOnly, EntryPoint::Help);
}
