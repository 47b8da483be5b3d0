use omp_tui::pattern::match_simple;

#[test]
fn match_simple_subset() {
    assert!(match_simple("[a-z][a-z0-9-]*", "github"));
    assert!(match_simple("[a-z][a-z0-9-]*", "a-1"));
    assert!(!match_simple("[a-z][a-z0-9-]*", "1abc"));
    assert!(!match_simple("[a-z][a-z0-9-]*", "Bad!"));
    assert!(match_simple("a+b?c", "aac"));
    assert!(match_simple("a+b?c", "abc"));
    assert!(!match_simple("a+b?c", "bc"));
    assert!(match_simple("[^0-9]+", "abc-"));
    assert!(!match_simple("[^0-9]+", "a1"));
    assert!(match_simple(".*", "anything at all"));
}
