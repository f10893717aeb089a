use croniq::diff::{diff, is_equivalent};

#[test]
fn diff_identical() {
    let src = "server { listen :9090 }";
    assert!(diff(src, src, "a", "b").is_empty());
}

#[test]
fn diff_shows_changes() {
    let old = "server {\n  listen :9090\n}\n";
    let new = "server {\n  listen :8080\n}\n";
    let d = diff(old, new, "old", "new");
    assert!(d.contains("-  listen :9090"));
    assert!(d.contains("+  listen :8080"));
}

#[test]
fn layout_differences_are_equivalent() {
    assert!(is_equivalent(
        "server { listen :9090; db sqlite }",
        "server {\n  listen :9090\n  db sqlite\n}\n"
    ));
}

#[test]
fn different_values_are_not_equivalent() {
    assert!(!is_equivalent("server { listen :9090 }", "server { listen :8080 }"));
}

#[test]
fn unparsable_source_is_equivalent_to_nothing() {
    assert!(!is_equivalent("server {", "server {"));
}
